//! The frame boundary rules of the pipe protocol: the output relay
//! accumulates raw text until one complete frame has been read, and this
//! module decides when that is.

use vstd::prelude::*;

verus! {

/// Whether the accumulated text `s` forms a complete frame: it ends
/// with two consecutive newlines (the blank line closing a batch of
/// response lines), or it is exactly one newline (an empty batch), or
/// it begins with `@` (the version banner emitted once at startup,
/// which no blank line follows).
pub open spec fn frame_complete_spec(s: Seq<char>) -> bool {
    ||| (s.len() >= 2 && s[s.len() - 2] == '\n' && s[s.len() - 1] == '\n')
    ||| (s.len() == 1 && s[0] == '\n')
    ||| (s.len() >= 1 && s[0] == '@')
}

/// Whether the text accumulated by the output relay forms a complete
/// frame, so the relay must forward it and start over.
pub fn frame_complete(s: &str) -> (b: bool)
    ensures
        b == frame_complete_spec(s@),
{
    let n = s.unicode_len();
    if n >= 1 && s.get_char(0) == '@' {
        return true;
    }
    if n == 1 && s.get_char(0) == '\n' {
        return true;
    }
    if n >= 2 && s.get_char(n - 2) == '\n' && s.get_char(n - 1) == '\n' {
        return true;
    }
    false
}

} // verus!
