//! The decisions of the session transport: the version handshake, the
//! framing of a check request, and the interpretation of what the timed
//! receive against the relay's queue produced.

use vstd::prelude::*;
use crate::error::{Error, ErrorType};

verus! {

/// Checks the version handshake: the first frame read after launch
/// must begin with `@`, the banner of a protocol-ready process.
/// Everything else is a protocol error, and the session must not be
/// opened.
pub fn handshake(frame: &str) -> (r: Result<(), Error>)
    ensures
        match r {
            Ok(_) => frame@.len() > 0 && frame@[0] == '@',
            Err(e) => !(frame@.len() > 0 && frame@[0] == '@') && e.variant == ErrorType::Protocol,
        },
{
    let n = frame.unicode_len();
    if n > 0 && frame.get_char(0) == '@' {
        Ok(())
    } else {
        Err(Error::protocol("first line of output does not start with '@', aborting"))
    }
}

/// The line written to check `text`: a `^` escape marker, so that the
/// subordinate process never reads `text` as a command, then the text
/// and a newline. The marker is why every reported offset is one
/// character too large.
pub fn check_command(text: &str) -> (cmd: String)
    ensures
        cmd@ == seq!['^'] + text@ + seq!['\n'],
{
    let mut cmd = String::from_str("^");
    cmd.append(text);
    cmd.append("\n");
    proof {
        reveal_strlit("^");
        reveal_strlit("\n");
        assert(cmd@ =~= seq!['^'] + text@ + seq!['\n']);
    }
    cmd
}

/// What one timed receive against the relay's queue produced: a frame,
/// a read failure the relay reported, or no answer within the
/// configured timeout.
pub enum ReadEvent {
    /// A complete frame arrived.
    Frame(String),
    /// The relay reported that reading the output stream failed.
    Failed(Error),
    /// Nothing arrived within the configured timeout.
    TimedOut,
}

/// Turns one receive event into the result of `receive_frame`: a frame
/// is handed through, a relay failure is propagated as it stands, and
/// a timeout becomes a process error, terminal for the pending call
/// only.
pub fn frame_result(event: ReadEvent) -> (r: Result<String, Error>)
    ensures
        match event {
            ReadEvent::Frame(s) => r == Ok::<String, Error>(s),
            ReadEvent::Failed(e) => r == Err::<String, Error>(e),
            ReadEvent::TimedOut => r matches Err(e) && e.variant == ErrorType::Process,
        },
{
    match event {
        ReadEvent::Frame(s) => Ok(s),
        ReadEvent::Failed(e) => Err(e),
        ReadEvent::TimedOut => Err(
            Error::process("timeout error: spawned process didn't respond in time, aborting"),
        ),
    }
}

} // verus!
