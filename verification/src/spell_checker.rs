//! The protocol decoder: the grammar of one response line, the
//! word-count driven accounting over frames, the filtering of outcomes
//! down to flagged words, and the add-word commands.

use vstd::prelude::*;
use crate::error::{Error, ErrorType};
use crate::ispell_result::{IspellError, IspellResult, IssueView, OutcomeView};
use crate::text::{
    contains_non_alphabetic, count_words, dec_val, is_alphabetic_char, lines_of, parse_usize,
    parses_as_usize, split_lines, split_on, split_on_char, split_whitespace_tokens, split_ws,
    trim_spec, trim_str, word_count,
};

verus! {

/// Whether `s` is a well-formed issue line of `n` whitespace-delimited
/// tokens: the flagged word is the second token and the reported offset
/// the last, a positive decimal numeral (the escape marker of
/// [`check_command`](crate::check_command) shifts every true offset up
/// by one, so `0` cannot be reported by a compliant process).
pub open spec fn ispell_error_ok(s: Seq<char>, n: int) -> bool {
    &&& split_ws(s).len() == n
    &&& n >= 2
    &&& parses_as_usize(split_ws(s)[n - 1])
    &&& dec_val(split_ws(s)[n - 1]) >= 1
}

/// The issue described by a well-formed issue line `s` of `n` tokens:
/// the reported offset is decremented once to compensate for the escape
/// marker prepended on the wire, and no suggestions are attached yet.
pub open spec fn ispell_error_view(s: Seq<char>, n: int) -> IssueView {
    IssueView {
        misspelled: split_ws(s)[1],
        position: dec_val(split_ws(s)[n - 1]) - 1,
        suggestions: Seq::empty(),
    }
}

/// A protocol error whose message is `prefix` followed by `detail`.
fn protocol_msg(prefix: &str, detail: &str) -> (e: Error)
    ensures
        e.variant == ErrorType::Protocol,
{
    let mut m = String::from_str(prefix);
    m.append(detail);
    Error::protocol(m.as_str())
}

/// Reads an issue line such as `# unknown 5` or the header `& unknown 2 5`
/// into an [`IspellError`], expecting exactly `n` whitespace-delimited
/// tokens; anything else is a protocol error.
pub fn get_ispell_error(input: &str, n: usize) -> (r: Result<IspellError, Error>)
    ensures
        match r {
            Ok(e) => ispell_error_ok(input@, n as int) && e@ == ispell_error_view(
                input@,
                n as int,
            ),
            Err(e) => !ispell_error_ok(input@, n as int) && e.variant == ErrorType::Protocol,
        },
{
    let words = split_whitespace_tokens(input);
    if words.len() != n || n < 2 {
        return Err(protocol_msg("unexpected result: ", input));
    }
    proof {
        assert(words.deep_view()[n - 1] == words@[n - 1]@);
        assert(words.deep_view()[1] == words@[1]@);
    }
    match parse_usize(words[n - 1].as_str()) {
        None => {
            let mut m = String::from_str("could not parse '");
            m.append(words[n - 1].as_str());
            m.append("' as an int");
            Err(Error::protocol(m.as_str()))
        },
        Some(position) => {
            if position == 0 {
                Err(protocol_msg("offset must be positive: ", input))
            } else {
                let misspelled = words[1].clone();
                let e = IspellError { misspelled, position: position - 1, suggestions: Vec::new() };
                proof {
                    assert(e@.suggestions =~= Seq::<Seq<char>>::empty());
                }
                Ok(e)
            }
        },
    }
}

/// The trimmed, comma-separated suggestion list of `s`: the tail of a
/// near-miss line after its `:`.
pub open spec fn suggestions_of(s: Seq<char>) -> Seq<Seq<char>> {
    split_on(s, ',').map_values(|t: Seq<char>| trim_spec(t))
}

/// The grammar of one non-blank response line: the outcome it decodes
/// to, or nothing when the line violates the grammar. Dispatch is on
/// the first character, and unmatched leading characters are a
/// violation, not a default case.
pub open spec fn decode_line_spec(s: Seq<char>) -> Option<OutcomeView> {
    if s.len() == 0 {
        None
    } else if s[0] == '*' {
        Some(OutcomeView::Correct)
    } else if s[0] == '-' {
        Some(OutcomeView::Compound)
    } else if s[0] == '+' {
        if split_ws(s).len() == 2 {
            Some(OutcomeView::RootMatch(split_ws(s)[1]))
        } else {
            None
        }
    } else if s[0] == '#' {
        if ispell_error_ok(s, 3) {
            Some(OutcomeView::NoMatch(ispell_error_view(s, 3)))
        } else {
            None
        }
    } else if s[0] == '&' || s[0] == '?' {
        let parts = split_on(s, ':');
        if parts.len() == 2 && ispell_error_ok(parts[0], 4) {
            let head = ispell_error_view(parts[0], 4);
            let issue = IssueView {
                misspelled: head.misspelled,
                position: head.position,
                suggestions: suggestions_of(parts[1]),
            };
            if s[0] == '&' {
                Some(OutcomeView::NearMiss(issue))
            } else {
                Some(OutcomeView::GuessedAffix(issue))
            }
        } else {
            None
        }
    } else {
        None
    }
}

/// Decodes one non-blank response line into an [`IspellResult`]
/// according to the line grammar; a line that violates the grammar is
/// a protocol error carrying the offending line.
pub fn parse_line(line: &str) -> (r: Result<IspellResult, Error>)
    ensures
        match r {
            Ok(out) => decode_line_spec(line@) == Some(out@),
            Err(e) => decode_line_spec(line@) is None && e.variant == ErrorType::Protocol,
        },
{
    let n = line.unicode_len();
    if n == 0 {
        return Err(protocol_msg("unexpected output: ", line));
    }
    let first = line.get_char(0);
    if first == '*' {
        Ok(IspellResult::Correct)
    } else if first == '-' {
        Ok(IspellResult::Compound)
    } else if first == '+' {
        let words = split_whitespace_tokens(line);
        if words.len() != 2 {
            return Err(protocol_msg("'root' line ill-formatted: ", line));
        }
        proof {
            assert(words.deep_view()[1] == words@[1]@);
        }
        Ok(IspellResult::RootMatch(words[1].clone()))
    } else if first == '#' {
        match get_ispell_error(line, 3) {
            Ok(e) => Ok(IspellResult::NoMatch(e)),
            Err(e) => Err(e),
        }
    } else if first == '&' || first == '?' {
        let parts = split_on_char(line, ':');
        if parts.len() != 2 {
            return Err(protocol_msg("unexpected output from ispell: ", line));
        }
        proof {
            assert(parts.deep_view()[0] == parts@[0]@);
            assert(parts.deep_view()[1] == parts@[1]@);
        }
        let head = match get_ispell_error(parts[0].as_str(), 4) {
            Ok(e) => e,
            Err(e) => {
                return Err(e);
            },
        };
        let raw = split_on_char(parts[1].as_str(), ',');
        let ghost tail = parts@[1]@;
        let mut suggestions: Vec<String> = Vec::new();
        let mut i: usize = 0;
        while i < raw.len()
            invariant
                i <= raw.len(),
                raw.deep_view() == split_on(tail, ','),
                suggestions.deep_view() == suggestions_of(tail).take(i as int),
            decreases raw.len() - i,
        {
            let t = trim_str(raw[i].as_str());
            proof {
                assert(raw.deep_view()[i as int] == raw@[i as int]@);
                assert(suggestions.deep_view().push(t@) =~= suggestions_of(tail).take(i + 1));
            }
            suggestions.push(t);
            i = i + 1;
        }
        proof {
            assert(suggestions_of(tail).take(raw.len() as int) =~= suggestions_of(tail));
        }
        let issue = IspellError {
            misspelled: head.misspelled,
            position: head.position,
            suggestions,
        };
        if first == '&' {
            Ok(IspellResult::NearMiss(issue))
        } else {
            Ok(IspellResult::GuessedAffix(issue))
        }
    } else {
        Err(protocol_msg("unexpected output: ", line))
    }
}

/// Decodes the lines of one frame: blank lines are skipped without
/// counting toward the budget, each other line must decode under the
/// line grammar, and decoding stops once `budget` outcomes have been
/// collected or the lines run out. A malformed line within the budget
/// spoils the whole frame.
pub open spec fn decode_lines_spec(lines: Seq<Seq<char>>, budget: nat) -> Option<Seq<OutcomeView>>
    decreases lines.len(),
{
    if budget == 0 || lines.len() == 0 {
        Some(Seq::empty())
    } else if lines[0].len() == 0 {
        decode_lines_spec(lines.drop_first(), budget)
    } else {
        match decode_line_spec(lines[0]) {
            None => None,
            Some(o) => match decode_lines_spec(lines.drop_first(), (budget - 1) as nat) {
                None => None,
                Some(rest) => Some(seq![o] + rest),
            },
        }
    }
}

/// A frame never yields more outcomes than its budget.
pub proof fn lemma_decode_lines_len(lines: Seq<Seq<char>>, budget: nat)
    ensures
        decode_lines_spec(lines, budget) matches Some(d) ==> d.len() <= budget,
    decreases lines.len(),
{
    if budget == 0 || lines.len() == 0 {
    } else if lines[0].len() == 0 {
        lemma_decode_lines_len(lines.drop_first(), budget);
    } else {
        lemma_decode_lines_len(lines.drop_first(), (budget - 1) as nat);
    }
}

/// The word-count driven accounting of one check call: the submitted
/// text is owed exactly one outcome per whitespace-delimited word, and
/// frames are fed in until that many non-blank response lines have been
/// decoded.
pub struct CheckState {
    words: usize,
    outcomes: Vec<IspellResult>,
}

impl CheckState {
    /// How many outcomes the submitted text is owed: its word count.
    pub closed spec fn goal(self) -> int {
        self.words as int
    }

    /// The outcomes decoded so far, in the order they arrived.
    pub closed spec fn decoded(self) -> Seq<OutcomeView> {
        self.outcomes.deep_view()
    }

    /// There are never more outcomes than words.
    pub open spec fn wf(self) -> bool {
        self.decoded().len() <= self.goal()
    }

    /// Whether every word has its outcome.
    pub open spec fn done(self) -> bool {
        self.decoded().len() == self.goal()
    }

    /// How many outcomes are still owed.
    pub open spec fn budget(self) -> nat {
        if self.decoded().len() <= self.goal() {
            (self.goal() - self.decoded().len()) as nat
        } else {
            0
        }
    }

    /// Starts the accounting for one submitted line of text.
    pub fn begin_check(text: &str) -> (st: CheckState)
        ensures
            st.wf(),
            st.goal() == word_count(text@),
            st.decoded() == Seq::<OutcomeView>::empty(),
    {
        let words = count_words(text);
        let st = CheckState { words, outcomes: Vec::new() };
        proof {
            assert(st.decoded() =~= Seq::<OutcomeView>::empty());
        }
        st
    }

    /// Whether another frame must be received before the call is
    /// answered.
    pub fn needs_more(&self) -> (b: bool)
        ensures
            b == (self.decoded().len() < self.goal()),
    {
        self.outcomes.len() < self.words
    }

    /// Feeds one received frame into the accounting: its lines are
    /// decoded under the frame budget (the outcomes still owed), blank
    /// lines are skipped without counting, and lines beyond the budget
    /// are ignored. A malformed line within the budget aborts the call
    /// with a protocol error and leaves the accounting as it was.
    pub fn feed_frame(&mut self, frame: &str) -> (r: Result<(), Error>)
        ensures
            final(self).goal() == old(self).goal(),
            old(self).wf() ==> final(self).wf(),
            match r {
                Ok(_) => decode_lines_spec(lines_of(frame@), old(self).budget()) matches Some(d)
                    && final(self).decoded() == old(self).decoded() + d,
                Err(e) => decode_lines_spec(lines_of(frame@), old(self).budget()) is None
                    && e.variant == ErrorType::Protocol && *final(self) == *old(self),
            },
    {
        let ghost budget0 = old(self).budget();
        let budget: usize = if self.outcomes.len() >= self.words {
            0
        } else {
            self.words - self.outcomes.len()
        };
        proof {
            assert(budget == budget0);
        }
        let lines = split_lines(frame);
        let ghost lv = lines_of(frame@);
        let mut added: Vec<IspellResult> = Vec::new();
        let mut i: usize = 0;
        proof {
            assert(lv.skip(0) =~= lv);
            assert(added.deep_view() =~= Seq::<OutcomeView>::empty());
            assert(Seq::<OutcomeView>::empty() + decode_lines_spec(lv, budget0)->Some_0
                =~= decode_lines_spec(lv, budget0)->Some_0);
        }
        while i < lines.len() && added.len() < budget
            invariant
                i <= lines.len(),
                lines.deep_view() == lv,
                lv == lines_of(frame@),
                *self == *old(self),
                budget == budget0,
                budget0 == old(self).budget(),
                added@.len() <= budget0,
                added.deep_view().len() == added@.len(),
                match decode_lines_spec(lv.skip(i as int), (budget0 - added@.len()) as nat) {
                    None => decode_lines_spec(lv, budget0) is None,
                    Some(rest) => decode_lines_spec(lv, budget0) == Some(
                        added.deep_view() + rest,
                    ),
                },
            decreases lines.len() - i,
        {
            let ghost rem = (budget0 - added@.len()) as nat;
            proof {
                assert(rem > 0);
                assert(lv[i as int] == lines@[i as int]@);
                assert(lv.skip(i as int)[0] == lv[i as int]);
                assert(lv.skip(i as int).drop_first() =~= lv.skip(i + 1));
            }
            let line = &lines[i];
            if line.as_str().unicode_len() == 0 {
                i = i + 1;
                continue;
            }
            match parse_line(line.as_str()) {
                Err(e) => {
                    proof {
                        assert(decode_lines_spec(lv.skip(i as int), rem) is None);
                    }
                    return Err(e);
                },
                Ok(out) => {
                    proof {
                        let sub = decode_lines_spec(lv.skip(i + 1), (rem - 1) as nat);
                        if sub is Some {
                            assert(decode_lines_spec(lv.skip(i as int), rem) == Some(
                                seq![out@] + sub->Some_0,
                            ));
                            assert(added.deep_view() + (seq![out@] + sub->Some_0) =~= (
                            added.deep_view() + seq![out@]) + sub->Some_0);
                        }
                        assert(added.deep_view().push(out@) =~= added.deep_view() + seq![out@]);
                    }
                    added.push(out);
                    i = i + 1;
                },
            }
        }
        proof {
            let rem = (budget0 - added@.len()) as nat;
            if rem != 0 {
                assert(i == lines.len());
                assert(lv.skip(i as int).len() == 0);
            }
            assert(decode_lines_spec(lv.skip(i as int), rem) == Some(Seq::<OutcomeView>::empty()));
            assert(added.deep_view() + Seq::<OutcomeView>::empty() =~= added.deep_view());
            assert(decode_lines_spec(lv, budget0) == Some(added.deep_view()));
        }
        let ghost before = self.outcomes.deep_view();
        let ghost added_dv = added.deep_view();
        self.outcomes.append(&mut added);
        proof {
            assert(self.outcomes.deep_view() =~= before + added_dv);
            lemma_decode_lines_len(lv, budget0);
        }
        Ok(())
    }

    /// Hands the collected outcomes out, one per word, in order.
    pub fn finish(self) -> (r: Vec<IspellResult>)
        ensures
            r.deep_view() == self.decoded(),
    {
        self.outcomes
    }
}

/// How a whole exchange decodes: every word accounted for, the frames
/// exhausted too early, or a line that violates the grammar.
pub enum FramesDecode {
    /// Every word got its outcome; frames beyond the last one needed
    /// are ignored.
    Done(Seq<OutcomeView>),
    /// The frames ran out before every word was accounted for.
    Incomplete(Seq<OutcomeView>),
    /// A line within the budget violates the line grammar.
    Malformed,
}

/// Decodes a sequence of received frames, frame by frame, against a
/// budget of owed outcomes.
pub open spec fn decode_frames_spec(frames: Seq<Seq<char>>, budget: nat) -> FramesDecode
    decreases frames.len(),
{
    if budget == 0 {
        FramesDecode::Done(Seq::empty())
    } else if frames.len() == 0 {
        FramesDecode::Incomplete(Seq::empty())
    } else {
        match decode_lines_spec(lines_of(frames[0]), budget) {
            None => FramesDecode::Malformed,
            Some(d) => match decode_frames_spec(frames.drop_first(), (budget - d.len()) as nat) {
                FramesDecode::Done(rest) => FramesDecode::Done(d + rest),
                FramesDecode::Incomplete(rest) => FramesDecode::Incomplete(d + rest),
                FramesDecode::Malformed => FramesDecode::Malformed,
            },
        }
    }
}

/// Decodes the frames received in answer to `text`: exactly one
/// outcome per whitespace-delimited word of `text`, in the order the
/// response lines arrived. Exhausting the frames early is a process
/// error (in a live session, a timeout); a line that violates the
/// grammar is a protocol error.
pub fn decode_outcomes(text: &str, frames: &Vec<String>) -> (r: Result<Vec<IspellResult>, Error>)
    ensures
        match r {
            Ok(v) => decode_frames_spec(frames.deep_view(), word_count(text@))
                == FramesDecode::Done(v.deep_view()) && v.deep_view().len() == word_count(text@),
            Err(e) => match decode_frames_spec(frames.deep_view(), word_count(text@)) {
                FramesDecode::Done(_) => false,
                FramesDecode::Incomplete(_) => e.variant == ErrorType::Process,
                FramesDecode::Malformed => e.variant == ErrorType::Protocol,
            },
        },
{
    let ghost fv = frames.deep_view();
    let ghost budget0 = word_count(text@);
    let mut st = CheckState::begin_check(text);
    let mut i: usize = 0;
    proof {
        assert(fv.skip(0) =~= fv);
        assert(Seq::<OutcomeView>::empty() + st.decoded() =~= st.decoded());
    }
    while i < frames.len() && st.needs_more()
        invariant
            i <= frames.len(),
            frames.deep_view() == fv,
            budget0 == word_count(text@),
            st.wf(),
            st.goal() == budget0,
            match decode_frames_spec(fv.skip(i as int), (budget0 - st.decoded().len()) as nat) {
                FramesDecode::Done(rest) => decode_frames_spec(fv, budget0) == FramesDecode::Done(
                    st.decoded() + rest,
                ),
                FramesDecode::Incomplete(rest) => decode_frames_spec(fv, budget0)
                    == FramesDecode::Incomplete(st.decoded() + rest),
                FramesDecode::Malformed => decode_frames_spec(fv, budget0)
                    == FramesDecode::Malformed,
            },
        decreases frames.len() - i,
    {
        let ghost rem = (budget0 - st.decoded().len()) as nat;
        let ghost before = st.decoded();
        proof {
            assert(rem > 0);
            assert(fv[i as int] == frames@[i as int]@);
            assert(fv.skip(i as int)[0] == fv[i as int]);
            assert(fv.skip(i as int).drop_first() =~= fv.skip(i + 1));
        }
        match st.feed_frame(frames[i].as_str()) {
            Err(e) => {
                proof {
                    assert(decode_lines_spec(lines_of(fv[i as int]), rem) is None);
                    assert(decode_frames_spec(fv.skip(i as int), rem) == FramesDecode::Malformed);
                }
                return Err(e);
            },
            Ok(_) => {
                proof {
                    let d = decode_lines_spec(lines_of(fv[i as int]), rem)->Some_0;
                    lemma_decode_lines_len(lines_of(fv[i as int]), rem);
                    assert(st.decoded() == before + d);
                    assert((budget0 - st.decoded().len()) as nat == (rem - d.len()) as nat);
                    match decode_frames_spec(fv.skip(i + 1), (rem - d.len()) as nat) {
                        FramesDecode::Done(rest) => {
                            assert(before + (d + rest) =~= (before + d) + rest);
                        },
                        FramesDecode::Incomplete(rest) => {
                            assert(before + (d + rest) =~= (before + d) + rest);
                        },
                        FramesDecode::Malformed => {},
                    }
                }
                i = i + 1;
            },
        }
    }
    if st.needs_more() {
        proof {
            let rem = (budget0 - st.decoded().len()) as nat;
            assert(rem > 0);
            assert(i == frames.len());
            assert(fv.skip(i as int).len() == 0);
            assert(decode_frames_spec(fv.skip(i as int), rem) == FramesDecode::Incomplete(
                Seq::<OutcomeView>::empty(),
            ));
            assert(st.decoded() + Seq::<OutcomeView>::empty() =~= st.decoded());
        }
        return Err(Error::process("ran out of frames before every word was accounted for"));
    }
    proof {
        assert(decode_frames_spec(fv.skip(i as int), 0) == FramesDecode::Done(
            Seq::<OutcomeView>::empty(),
        ));
        assert(st.decoded() + Seq::<OutcomeView>::empty() =~= st.decoded());
    }
    Ok(st.finish())
}

/// Whether an outcome flags a word: a near miss, a guessed affix, or a
/// word with no match at all.
pub open spec fn is_issue(o: OutcomeView) -> bool {
    ||| o is NearMiss
    ||| o is GuessedAffix
    ||| o is NoMatch
}

/// The issue a flagging outcome carries.
pub open spec fn issue_payload(o: OutcomeView) -> IssueView {
    match o {
        OutcomeView::NearMiss(e) => e,
        OutcomeView::GuessedAffix(e) => e,
        OutcomeView::NoMatch(e) => e,
        _ => arbitrary(),
    }
}

/// The issues among `outcomes`: exactly the outcomes classified as
/// flagging a word, in the order produced, each reduced to its issue.
pub open spec fn issues_of(outcomes: Seq<OutcomeView>) -> Seq<IssueView> {
    outcomes.filter(|o: OutcomeView| is_issue(o)).map_values(|o: OutcomeView| issue_payload(o))
}

/// Law: the issue list of an outcome list contains exactly the
/// outcomes classified as flagging a word, order preserved, each
/// reduced to its issue — an empty list yields nothing, a non-flagging
/// head contributes nothing, and a flagging head contributes its issue
/// in front of the rest.
pub proof fn lemma_issues_of_step(outcomes: Seq<OutcomeView>)
    ensures
        outcomes.len() == 0 ==> issues_of(outcomes) == Seq::<IssueView>::empty(),
        outcomes.len() > 0 && !is_issue(outcomes.first()) ==> issues_of(outcomes) == issues_of(
            outcomes.drop_first(),
        ),
        outcomes.len() > 0 && is_issue(outcomes.first()) ==> issues_of(outcomes) == seq![
            issue_payload(outcomes.first()),
        ] + issues_of(outcomes.drop_first()),
    decreases outcomes.len(),
{
    reveal(Seq::filter);
    if outcomes.len() == 0 {
        assert(issues_of(outcomes) =~= Seq::<IssueView>::empty());
    } else if outcomes.len() == 1 {
        assert(outcomes.drop_last() =~= Seq::<OutcomeView>::empty());
        assert(outcomes.drop_first() =~= Seq::<OutcomeView>::empty());
        assert(issues_of(outcomes.drop_first()) =~= Seq::<IssueView>::empty());
        if is_issue(outcomes.first()) {
            assert(issues_of(outcomes) =~= seq![issue_payload(outcomes.first())] + issues_of(
                outcomes.drop_first(),
            ));
        } else {
            assert(issues_of(outcomes) =~= issues_of(outcomes.drop_first()));
        }
    } else {
        let t = outcomes.drop_last();
        let l = outcomes.last();
        lemma_issues_of_step(t);
        assert(outcomes.first() == t.first());
        assert(outcomes.drop_first().drop_last() =~= t.drop_first());
        assert(outcomes.drop_first().last() == l);
        let pred = |o: OutcomeView| is_issue(o);
        if pred(l) {
            assert(issues_of(outcomes) =~= issues_of(t).push(issue_payload(l)));
            assert(issues_of(outcomes.drop_first()) =~= issues_of(t.drop_first()).push(
                issue_payload(l),
            ));
        } else {
            assert(issues_of(outcomes) =~= issues_of(t));
            assert(issues_of(outcomes.drop_first()) =~= issues_of(t.drop_first()));
        }
        if is_issue(outcomes.first()) {
            assert(issues_of(outcomes) =~= seq![issue_payload(outcomes.first())] + issues_of(
                outcomes.drop_first(),
            ));
        } else {
            assert(issues_of(outcomes) =~= issues_of(outcomes.drop_first()));
        }
    }
}

/// Keeps only the outcomes that flag a word, in order, reduced to
/// their issues; everything else is dropped.
pub fn filter_issues(results: Vec<IspellResult>) -> (r: Vec<IspellError>)
    ensures
        r.deep_view() == issues_of(results.deep_view()),
{
    let ghost full = results.deep_view();
    let mut rest = results;
    let mut errors: Vec<IspellError> = Vec::new();
    proof {
        reveal(Seq::filter);
        assert(full.take(0) =~= Seq::<OutcomeView>::empty());
        assert(errors.deep_view() =~= issues_of(full.take(0)));
        assert(rest.deep_view() =~= full.skip(0));
    }
    while rest.len() > 0
        invariant
            rest@.len() <= full.len(),
            rest.deep_view() == full.skip(full.len() - rest@.len()),
            errors.deep_view() == issues_of(full.take(full.len() - rest@.len())),
        decreases rest.len(),
    {
        let ghost k = full.len() - rest@.len();
        let ghost old_rest = rest.deep_view();
        let ghost old_seq = rest@;
        let head = rest.remove(0);
        proof {
            assert(old_rest[0] == full[k as int]);
            assert(head.deep_view() == full[k as int]);
            assert(forall|j: int|
                0 <= j < rest@.len() ==> rest@[j] == old_seq.remove(0)[j] && old_seq.remove(0)[j]
                    == old_seq[j + 1]);
            assert(forall|j: int|
                0 <= j < rest@.len() ==> #[trigger] rest.deep_view()[j] == old_rest[j + 1]);
            assert(rest.deep_view() =~= full.skip(k + 1));
            reveal(Seq::filter);
            assert(full.take(k + 1).drop_last() =~= full.take(k as int));
            assert(full.take(k + 1).last() == full[k as int]);
        }
        match head {
            IspellResult::NearMiss(e) => {
                proof {
                    assert(errors.deep_view().push(e@) =~= issues_of(full.take(k + 1)));
                }
                errors.push(e);
            },
            IspellResult::GuessedAffix(e) => {
                proof {
                    assert(errors.deep_view().push(e@) =~= issues_of(full.take(k + 1)));
                }
                errors.push(e);
            },
            IspellResult::NoMatch(e) => {
                proof {
                    assert(errors.deep_view().push(e@) =~= issues_of(full.take(k + 1)));
                }
                errors.push(e);
            },
            _ => {
                proof {
                    assert(issues_of(full.take(k + 1)) =~= issues_of(full.take(k as int)));
                }
            },
        }
    }
    proof {
        assert(full.take(full.len() as int) =~= full);
    }
    errors
}

/// Decodes the frames received in answer to `text` and keeps only the
/// flagged words: what a caller that asked for errors alone is shown.
pub fn decode_issues(text: &str, frames: &Vec<String>) -> (r: Result<Vec<IspellError>, Error>)
    ensures
        match r {
            Ok(v) => decode_frames_spec(frames.deep_view(), word_count(text@))
                matches FramesDecode::Done(outs) && v.deep_view() == issues_of(outs),
            Err(e) => match decode_frames_spec(frames.deep_view(), word_count(text@)) {
                FramesDecode::Done(_) => false,
                FramesDecode::Incomplete(_) => e.variant == ErrorType::Process,
                FramesDecode::Malformed => e.variant == ErrorType::Protocol,
            },
        },
{
    match decode_outcomes(text, frames) {
        Ok(outs) => Ok(filter_issues(outs)),
        Err(e) => Err(e),
    }
}

/// The session-scope accept command for `word`: an `@` marker, the
/// word and a newline, valid until the session ends. A word with any
/// non-alphabetic character is refused before a byte is written.
pub fn add_word_command(word: &str) -> (r: Result<String, Error>)
    ensures
        match r {
            Ok(cmd) => (forall|i: int| 0 <= i < word@.len() ==> is_alphabetic_char(word@[i]))
                && cmd@ == seq!['@'] + word@ + seq!['\n'],
            Err(e) => (exists|i: int| 0 <= i < word@.len() && !is_alphabetic_char(word@[i]))
                && e.variant == ErrorType::InvalidWord,
        },
{
    if contains_non_alphabetic(word) {
        let mut m = String::from_str("word '");
        m.append(word);
        m.append("' contains non alphabetic characters");
        return Err(Error::invalid_word(m.as_str()));
    }
    let mut cmd = String::from_str("@");
    cmd.append(word);
    cmd.append("\n");
    proof {
        reveal_strlit("@");
        reveal_strlit("\n");
        assert(cmd@ =~= seq!['@'] + word@ + seq!['\n']);
    }
    Ok(cmd)
}

/// The persisting accept commands for `word`: a `*` line to accept and
/// save the word, then a lone `#` line to write the personal
/// dictionary out. Validation is as for the session-scope command.
pub fn add_word_persist_commands(word: &str) -> (r: Result<(String, String), Error>)
    ensures
        match r {
            Ok(cmds) => (forall|i: int| 0 <= i < word@.len() ==> is_alphabetic_char(word@[i]))
                && cmds.0@ == seq!['*'] + word@ + seq!['\n'] && cmds.1@ == seq!['#', '\n'],
            Err(e) => (exists|i: int| 0 <= i < word@.len() && !is_alphabetic_char(word@[i]))
                && e.variant == ErrorType::InvalidWord,
        },
{
    if contains_non_alphabetic(word) {
        let mut m = String::from_str("word '");
        m.append(word);
        m.append("' contains non alphabetic characters");
        return Err(Error::invalid_word(m.as_str()));
    }
    let mut accept = String::from_str("*");
    accept.append(word);
    accept.append("\n");
    let save = String::from_str("#\n");
    proof {
        reveal_strlit("*");
        reveal_strlit("\n");
        reveal_strlit("#\n");
        assert(accept@ =~= seq!['*'] + word@ + seq!['\n']);
        assert(save@ =~= seq!['#', '\n']);
    }
    Ok((accept, save))
}

} // verus!
