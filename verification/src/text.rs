//! Text primitives for the protocol decoder: character classification,
//! whitespace splitting, separator splitting, trimming, line splitting
//! and decimal parsing, each specified over `Seq<char>`.

use vstd::prelude::*;

verus! {

/// What `char::is_whitespace` returns: whether the character has the
/// Unicode `White_Space` property. The full property is a large table,
/// so it stays a name; the wrapper below pins the ASCII range down.
pub uninterp spec fn is_whitespace_char(c: char) -> bool;

/// What `char::is_alphabetic` returns: whether the character has the
/// Unicode `Alphabetic` property. As above, only the ASCII range is
/// pinned down.
pub uninterp spec fn is_alphabetic_char(c: char) -> bool;

/// Relies on `char::is_whitespace`: true exactly for characters with the
/// Unicode `White_Space` property, which in the ASCII range are the five
/// control characters U+0009..U+000D and the space.
pub assume_specification[ char::is_whitespace ](c: char) -> (r: bool)
    ensures
        r == is_whitespace_char(c),
        (c as u32) < 128 ==> (r <==> (c == ' ' || (9 <= c as u32 && c as u32 <= 13))),
;

/// Relies on `char::is_alphabetic`: true exactly for characters with the
/// Unicode `Alphabetic` property, which in the ASCII range are the
/// letters `a`..`z` and `A`..`Z`.
pub assume_specification[ char::is_alphabetic ](c: char) -> (r: bool)
    ensures
        r == is_alphabetic_char(c),
        (c as u32) < 128 ==> (r <==> (('a' <= c && c <= 'z') || ('A' <= c && c <= 'Z'))),
;

/// The tokens of `s` when split on whitespace, with `cur` the token
/// accumulated so far: empty tokens are never produced, so a run of
/// whitespace separates exactly two tokens and leading or trailing
/// whitespace produces none.
pub open spec fn split_ws_acc(s: Seq<char>, cur: Seq<char>) -> Seq<Seq<char>>
    decreases s.len(),
{
    if s.len() == 0 {
        if cur.len() == 0 {
            Seq::empty()
        } else {
            seq![cur]
        }
    } else if is_whitespace_char(s[0]) {
        if cur.len() == 0 {
            split_ws_acc(s.drop_first(), Seq::empty())
        } else {
            seq![cur] + split_ws_acc(s.drop_first(), Seq::empty())
        }
    } else {
        split_ws_acc(s.drop_first(), cur.push(s[0]))
    }
}

/// The whitespace-delimited tokens of `s`, as `str::split_whitespace`
/// yields them.
pub open spec fn split_ws(s: Seq<char>) -> Seq<Seq<char>> {
    split_ws_acc(s, Seq::empty())
}

/// How many whitespace-delimited words `s` holds.
pub open spec fn word_count(s: Seq<char>) -> nat {
    split_ws(s).len()
}

/// The whitespace-delimited tokens of `s`, in order, none empty.
pub fn split_whitespace_tokens(s: &str) -> (tokens: Vec<String>)
    ensures
        tokens.deep_view() == split_ws(s@),
{
    let n = s.unicode_len();
    let mut tokens: Vec<String> = Vec::new();
    let mut i: usize = 0;
    let mut start: usize = 0;
    proof {
        assert(s@.skip(0) =~= s@);
        assert(s@.subrange(0, 0) =~= Seq::<char>::empty());
        assert(tokens.deep_view() + split_ws_acc(s@, Seq::empty()) =~= split_ws(s@));
    }
    while i < n
        invariant
            n == s@.len(),
            start <= i <= n,
            forall|k: int| start <= k < i ==> !is_whitespace_char(s@[k]),
            split_ws(s@) == tokens.deep_view() + split_ws_acc(
                s@.skip(i as int),
                s@.subrange(start as int, i as int),
            ),
        decreases n - i,
    {
        let ghost cur = s@.subrange(start as int, i as int);
        proof {
            assert(s@.skip(i as int).len() == n - i);
            assert(s@.skip(i as int)[0] == s@[i as int]);
            assert(s@.skip(i as int).drop_first() =~= s@.skip(i + 1));
        }
        let c = s.get_char(i);
        if c.is_whitespace() {
            if start < i {
                let tok = s.substring_char(start, i).to_owned();
                proof {
                    assert(tokens.deep_view().push(tok@) =~= tokens.deep_view() + seq![cur]);
                    assert(tokens.deep_view() + (seq![cur] + split_ws_acc(
                        s@.skip(i + 1),
                        Seq::empty(),
                    )) =~= (tokens.deep_view() + seq![cur]) + split_ws_acc(
                        s@.skip(i + 1),
                        Seq::empty(),
                    ));
                }
                tokens.push(tok);
            }
            i = i + 1;
            start = i;
            proof {
                assert(s@.subrange(start as int, i as int) =~= Seq::<char>::empty());
            }
        } else {
            i = i + 1;
            proof {
                assert(cur.push(s@[i - 1]) =~= s@.subrange(start as int, i as int));
            }
        }
    }
    if start < n {
        let tok = s.substring_char(start, n).to_owned();
        proof {
            assert(s@.skip(n as int).len() == 0);
            assert(tokens.deep_view().push(tok@) =~= tokens.deep_view() + seq![
                s@.subrange(start as int, n as int),
            ]);
        }
        tokens.push(tok);
    } else {
        proof {
            assert(s@.skip(n as int).len() == 0);
            assert(s@.subrange(start as int, n as int).len() == 0);
            assert(tokens.deep_view() + Seq::<Seq<char>>::empty() =~= tokens.deep_view());
        }
    }
    tokens
}

/// How many whitespace-delimited words `s` holds.
pub fn count_words(s: &str) -> (n: usize)
    ensures
        n == word_count(s@),
{
    let tokens = split_whitespace_tokens(s);
    tokens.len()
}

/// The parts of `s` when split on the separator `sep`, with `cur` the
/// part accumulated so far. Unlike whitespace splitting, empty parts are
/// kept: two adjacent separators enclose an empty part, and a leading or
/// trailing separator produces one.
pub open spec fn split_on_acc(s: Seq<char>, sep: char, cur: Seq<char>) -> Seq<Seq<char>>
    decreases s.len(),
{
    if s.len() == 0 {
        seq![cur]
    } else if s[0] == sep {
        seq![cur] + split_on_acc(s.drop_first(), sep, Seq::empty())
    } else {
        split_on_acc(s.drop_first(), sep, cur.push(s[0]))
    }
}

/// The parts of `s` when split on `sep`, as `str::split` yields them:
/// always at least one part, empty parts kept.
pub open spec fn split_on(s: Seq<char>, sep: char) -> Seq<Seq<char>> {
    split_on_acc(s, sep, Seq::empty())
}

/// The parts of `s` split on `sep`, in order, empty parts kept.
pub fn split_on_char(s: &str, sep: char) -> (parts: Vec<String>)
    ensures
        parts.deep_view() == split_on(s@, sep),
        parts.len() >= 1,
{
    let n = s.unicode_len();
    let mut parts: Vec<String> = Vec::new();
    let mut i: usize = 0;
    let mut start: usize = 0;
    proof {
        assert(s@.skip(0) =~= s@);
        assert(s@.subrange(0, 0) =~= Seq::<char>::empty());
        assert(parts.deep_view() + split_on_acc(s@, sep, Seq::empty()) =~= split_on(s@, sep));
    }
    while i < n
        invariant
            n == s@.len(),
            start <= i <= n,
            split_on(s@, sep) == parts.deep_view() + split_on_acc(
                s@.skip(i as int),
                sep,
                s@.subrange(start as int, i as int),
            ),
        decreases n - i,
    {
        let ghost cur = s@.subrange(start as int, i as int);
        proof {
            assert(s@.skip(i as int).len() == n - i);
            assert(s@.skip(i as int)[0] == s@[i as int]);
            assert(s@.skip(i as int).drop_first() =~= s@.skip(i + 1));
        }
        let c = s.get_char(i);
        if c == sep {
            let part = s.substring_char(start, i).to_owned();
            proof {
                assert(parts.deep_view().push(part@) =~= parts.deep_view() + seq![cur]);
                assert(parts.deep_view() + (seq![cur] + split_on_acc(
                    s@.skip(i + 1),
                    sep,
                    Seq::empty(),
                )) =~= (parts.deep_view() + seq![cur]) + split_on_acc(
                    s@.skip(i + 1),
                    sep,
                    Seq::empty(),
                ));
            }
            parts.push(part);
            i = i + 1;
            start = i;
            proof {
                assert(s@.subrange(start as int, i as int) =~= Seq::<char>::empty());
            }
        } else {
            i = i + 1;
            proof {
                assert(cur.push(s@[i - 1]) =~= s@.subrange(start as int, i as int));
            }
        }
    }
    let last = s.substring_char(start, n).to_owned();
    proof {
        assert(s@.skip(n as int).len() == 0);
        assert(parts.deep_view().push(last@) =~= parts.deep_view() + seq![
            s@.subrange(start as int, n as int),
        ]);
    }
    parts.push(last);
    parts
}

/// `l` without one trailing carriage return, as `str::lines` strips it.
pub open spec fn strip_cr(l: Seq<char>) -> Seq<char> {
    if l.len() > 0 && l.last() == '\r' {
        l.drop_last()
    } else {
        l
    }
}

/// The lines of `s`, as `str::lines` yields them: split on `'\n'`, a
/// final empty part dropped, and one trailing `'\r'` stripped from each
/// line.
pub open spec fn lines_of(s: Seq<char>) -> Seq<Seq<char>> {
    let parts = split_on(s, '\n');
    let kept = if parts.len() > 0 && parts.last().len() == 0 {
        parts.drop_last()
    } else {
        parts
    };
    kept.map_values(|l: Seq<char>| strip_cr(l))
}

/// The lines of `s`, in order.
pub fn split_lines(s: &str) -> (lines: Vec<String>)
    ensures
        lines.deep_view() == lines_of(s@),
{
    let mut parts = split_on_char(s, '\n');
    let last_len = parts[parts.len() - 1].as_str().unicode_len();
    if last_len == 0 {
        proof {
            assert(parts.deep_view().drop_last() =~= split_on(s@, '\n').drop_last());
        }
        let _ = parts.pop();
    }
    let ghost kept = parts.deep_view();
    let mut lines: Vec<String> = Vec::new();
    let mut i: usize = 0;
    while i < parts.len()
        invariant
            parts.deep_view() == kept,
            i <= parts.len(),
            lines.deep_view() == kept.take(i as int).map_values(|l: Seq<char>| strip_cr(l)),
        decreases parts.len() - i,
    {
        let part = &parts[i];
        let m = part.as_str().unicode_len();
        let line = if m > 0 && part.as_str().get_char(m - 1) == '\r' {
            part.as_str().substring_char(0, m - 1).to_owned()
        } else {
            part.clone()
        };
        proof {
            assert(part@.subrange(0, part@.len() - 1) =~= part@.drop_last());
            assert(line@ == strip_cr(kept[i as int]));
            assert(lines.deep_view().push(line@) =~= kept.take(i + 1).map_values(
                |l: Seq<char>| strip_cr(l),
            ));
        }
        lines.push(line);
        i = i + 1;
    }
    proof {
        assert(kept.take(kept.len() as int) =~= kept);
    }
    lines
}

/// `s` without leading and trailing whitespace, as `str::trim` yields
/// it.
pub open spec fn trim_spec(s: Seq<char>) -> Seq<char>
    decreases s.len(),
{
    if s.len() > 0 && is_whitespace_char(s[0]) {
        trim_spec(s.drop_first())
    } else if s.len() > 0 && is_whitespace_char(s.last()) {
        trim_spec(s.drop_last())
    } else {
        s
    }
}

/// `s` without leading and trailing whitespace.
pub fn trim_str(s: &str) -> (t: String)
    ensures
        t@ == trim_spec(s@),
{
    let n = s.unicode_len();
    let mut a: usize = 0;
    proof {
        assert(s@.skip(0) =~= s@);
    }
    while a < n && s.get_char(a).is_whitespace()
        invariant
            n == s@.len(),
            a <= n,
            trim_spec(s@) == trim_spec(s@.skip(a as int)),
        decreases n - a,
    {
        proof {
            assert(s@.skip(a as int)[0] == s@[a as int]);
            assert(s@.skip(a as int).drop_first() =~= s@.skip(a + 1));
        }
        a = a + 1;
    }
    let mut b: usize = n;
    proof {
        assert(s@.subrange(a as int, n as int) =~= s@.skip(a as int));
    }
    while b > a && s.get_char(b - 1).is_whitespace()
        invariant
            n == s@.len(),
            a <= b <= n,
            a < n ==> !is_whitespace_char(s@[a as int]),
            a == n ==> b == n,
            trim_spec(s@) == trim_spec(s@.subrange(a as int, b as int)),
        decreases b,
    {
        proof {
            let t = s@.subrange(a as int, b as int);
            assert(t.last() == s@[b - 1]);
            assert(t[0] == s@[a as int]);
            assert(t.drop_last() =~= s@.subrange(a as int, b - 1));
        }
        b = b - 1;
    }
    proof {
        let t = s@.subrange(a as int, b as int);
        if t.len() > 0 {
            assert(t[0] == s@[a as int]);
            assert(t.last() == s@[b - 1]);
        }
        assert(trim_spec(t) == t);
    }
    s.substring_char(a, b).to_owned()
}

/// Whether `c` is an ASCII decimal digit.
pub open spec fn is_digit_char(c: char) -> bool {
    48 <= c as u32 && c as u32 <= 57
}

/// The value of the digit `c`.
pub open spec fn digit_val(c: char) -> nat {
    (c as u32 - 48) as nat
}

/// Whether every character of `s` is an ASCII decimal digit.
pub open spec fn all_digits(s: Seq<char>) -> bool {
    forall|i: int| 0 <= i < s.len() ==> is_digit_char(s[i])
}

/// The value of `s` read as a decimal numeral.
pub open spec fn dec_val(s: Seq<char>) -> nat
    decreases s.len(),
{
    if s.len() == 0 {
        0
    } else {
        dec_val(s.drop_last()) * 10 + digit_val(s.last())
    }
}

/// Whether `s` is a decimal numeral whose value fits in `usize`: what
/// parsing `s` as a `usize` accepts.
pub open spec fn parses_as_usize(s: Seq<char>) -> bool {
    s.len() > 0 && all_digits(s) && dec_val(s) <= usize::MAX
}

/// A prefix of a numeral is worth no more than the whole numeral.
proof fn lemma_dec_val_prefix(s: Seq<char>, j: int)
    requires
        0 <= j <= s.len(),
    ensures
        dec_val(s.take(j)) <= dec_val(s),
    decreases s.len(),
{
    if j < s.len() {
        assert(dec_val(s) == dec_val(s.drop_last()) * 10 + digit_val(s.last()));
        assert(dec_val(s.drop_last()) * 10 >= dec_val(s.drop_last())) by {
            assert(dec_val(s.drop_last()) * 10 == dec_val(s.drop_last()) + dec_val(
                s.drop_last(),
            ) * 9);
        }
        lemma_dec_val_prefix(s.drop_last(), j);
        assert(s.drop_last().take(j) =~= s.take(j));
    } else {
        assert(s.take(j) =~= s);
    }
}

/// Parses `s` as a decimal `usize`: the value when `s` is a numeral
/// that fits, and nothing otherwise.
pub fn parse_usize(s: &str) -> (r: Option<usize>)
    ensures
        match r {
            Some(v) => parses_as_usize(s@) && v == dec_val(s@),
            None => !parses_as_usize(s@),
        },
{
    let n = s.unicode_len();
    if n == 0 {
        return None;
    }
    let mut acc: usize = 0;
    let mut i: usize = 0;
    proof {
        assert(s@.take(0) =~= Seq::<char>::empty());
    }
    while i < n
        invariant
            n == s@.len(),
            i <= n,
            all_digits(s@.take(i as int)),
            acc == dec_val(s@.take(i as int)),
        decreases n - i,
    {
        let c = s.get_char(i);
        let u = c as u32;
        if u < 48 || u > 57 {
            assert(!is_digit_char(s@[i as int]));
            return None;
        }
        let d = (u - 48) as usize;
        let wide: u128 = (acc as u128) * 10 + (d as u128);
        proof {
            assert(s@.take(i + 1).drop_last() =~= s@.take(i as int));
            assert(s@.take(i + 1).last() == s@[i as int]);
            assert(dec_val(s@.take(i + 1)) == wide);
        }
        if wide > (usize::MAX as u128) {
            proof {
                lemma_dec_val_prefix(s@, i + 1);
            }
            return None;
        }
        acc = wide as usize;
        i = i + 1;
    }
    proof {
        assert(s@.take(n as int) =~= s@);
    }
    Some(acc)
}

/// Whether `word` holds any character that is not alphabetic: what the
/// add-word operations must refuse.
pub fn contains_non_alphabetic(word: &str) -> (b: bool)
    ensures
        b == exists|i: int| 0 <= i < word@.len() && !is_alphabetic_char(word@[i]),
{
    let n = word.unicode_len();
    let mut i: usize = 0;
    while i < n
        invariant
            n == word@.len(),
            i <= n,
            forall|k: int| 0 <= k < i ==> is_alphabetic_char(word@[k]),
        decreases n - i,
    {
        let c = word.get_char(i);
        if !c.is_alphabetic() {
            return true;
        }
        i = i + 1;
    }
    false
}

} // verus!
