//! Ranking and resolution: sort candidates by path length, dispatch on how
//! many there are, render the numbered prompt, and interpret one line of
//! selection input.

use vstd::prelude::*;

use crate::numeral::{dec_digits, parse_usize, parses_to, usize_to_string};
use crate::strutil::{trim_of, trim_str};
use crate::tree::views_of;

verus! {

/// Path strings in monotonically non-decreasing order of length.
pub open spec fn sorted_by_len(s: Seq<Seq<char>>) -> bool {
    forall|i: int, j: int| 0 <= i < j < s.len() ==> s[i].len() <= s[j].len()
}

/// Every string of `done` is no longer than any string of `pending`.
spec fn all_before(done: Seq<Seq<char>>, pending: Seq<Seq<char>>) -> bool {
    forall|t: int, k: int|
        0 <= t < done.len() && 0 <= k < pending.len() ==> done[t].len() <= pending[k].len()
}

/// Sorts the candidate paths in place, ascending by character count of the
/// path string. Candidates of equal length keep no particular order, but
/// none is lost or invented.
pub fn sort_by_len(v: &mut Vec<String>)
    ensures
        sorted_by_len(views_of(final(v)@)),
        views_of(final(v)@).to_multiset() == views_of(old(v)@).to_multiset(),
{
    let mut out: Vec<String> = Vec::new();
    proof {
        views_of(out@).to_multiset_ensures();
        assert(views_of(Seq::<String>::empty()) =~= Seq::<Seq<char>>::empty());
        assert(views_of(out@).to_multiset().add(views_of(v@).to_multiset()) =~= views_of(
            v@,
        ).to_multiset());
    }
    while v.len() > 0
        invariant
            views_of(out@).to_multiset().add(views_of(v@).to_multiset()) == views_of(
                old(v)@,
            ).to_multiset(),
            sorted_by_len(views_of(out@)),
            all_before(views_of(out@), views_of(v@)),
        decreases v@.len(),
    {
        let mut mi: usize = 0;
        let mut k: usize = 1;
        while k < v.len()
            invariant
                v@.len() > 0,
                mi < k <= v@.len(),
                forall|k0: int| 0 <= k0 < k ==> v@[mi as int]@.len() <= v@[k0]@.len(),
            decreases v@.len() - k,
        {
            if v[k].as_str().unicode_len() < v[mi].as_str().unicode_len() {
                mi = k;
            }
            k = k + 1;
        }
        let ghost vs = views_of(v@);
        let ghost ov = views_of(out@);
        let x = v.remove(mi);
        out.push(x);
        proof {
            vs.to_multiset_ensures();
            ov.to_multiset_ensures();
            assert(views_of(v@) =~= vs.remove(mi as int));
            assert(views_of(out@) =~= ov.push(x@));
            assert(vs.contains(vs[mi as int]));
            assert(vs.remove(mi as int).to_multiset() =~= vs.to_multiset().remove(x@));
            assert(ov.push(x@).to_multiset() =~= ov.to_multiset().insert(x@));
            assert(ov.to_multiset().insert(x@).add(vs.to_multiset().remove(x@)) =~= ov.to_multiset(
            ).add(vs.to_multiset()));
            assert forall|i0: int, j0: int|
                0 <= i0 < j0 < views_of(out@).len() implies views_of(out@)[i0].len() <= views_of(
                out@,
            )[j0].len() by {
                if j0 == ov.len() {
                    assert(ov[i0].len() <= vs[mi as int].len());
                }
            }
            assert forall|t: int, k: int|
                0 <= t < views_of(out@).len() && 0 <= k < views_of(v@).len() implies views_of(
                out@,
            )[t].len() <= views_of(v@)[k].len() by {
                let e = vs.remove(mi as int)[k];
                assert(e == (if k < mi { vs[k] } else { vs[k + 1] }));
                if t < ov.len() {
                    assert(ov[t].len() <= e.len());
                } else {
                    assert(vs[mi as int].len() <= e.len());
                }
            }
        }
    }
    proof {
        assert(views_of(v@) =~= Seq::<Seq<char>>::empty());
        assert(views_of(out@).to_multiset().add(views_of(v@).to_multiset()) =~= views_of(
            out@,
        ).to_multiset());
    }
    *v = out;
}

/// What the candidate count alone decides: no match, a sole survivor, or the
/// need to ask.
pub enum Dispatch {
    /// No directory matched; the caller reports failure.
    NoMatch,
    /// Exactly one directory matched; it is the answer, with no prompt.
    Unique(String),
    /// Two or more matched; the caller must prompt for a selection.
    Ambiguous,
}

/// Decides by the number of candidates: none is a failure, one is answered
/// at once, more call for the numbered prompt.
pub fn dispatch(candidates: &Vec<String>) -> (r: Dispatch)
    ensures
        match r {
            Dispatch::NoMatch => candidates@.len() == 0,
            Dispatch::Unique(p) => candidates@.len() == 1 && p@ == candidates@[0]@,
            Dispatch::Ambiguous => candidates@.len() >= 2,
        },
{
    if candidates.len() == 0 {
        Dispatch::NoMatch
    } else if candidates.len() == 1 {
        Dispatch::Unique(candidates[0].clone())
    } else {
        Dispatch::Ambiguous
    }
}

/// The prompt line at display position `j` (0-based from the top): candidates
/// are numbered 1-based and listed in reverse, index `n` first, index 1 last.
pub open spec fn prompt_line(cands: Seq<Seq<char>>, j: int) -> Seq<char> {
    dec_digits((cands.len() - j) as nat) + seq!['.', ' '] + cands[cands.len() - j - 1]
}

/// Renders the numbered candidate list, one line per candidate, highest
/// index first so that index 1 stands last.
pub fn prompt_lines(candidates: &Vec<String>) -> (lines: Vec<String>)
    ensures
        lines@.len() == candidates@.len(),
        forall|j: int|
            0 <= j < lines@.len() ==> lines@[j]@ == prompt_line(views_of(candidates@), j),
{
    let n: usize = candidates.len();
    let mut lines: Vec<String> = Vec::new();
    let mut j: usize = 0;
    while j < n
        invariant
            j <= n,
            n == candidates@.len(),
            lines@.len() == j,
            forall|j0: int|
                0 <= j0 < j ==> lines@[j0]@ == prompt_line(views_of(candidates@), j0),
        decreases n - j,
    {
        let idx: usize = n - j;
        let mut line = usize_to_string(idx);
        line.append(". ");
        line.append(candidates[idx - 1].as_str());
        proof {
            reveal_strlit(". ");
            assert(". "@ =~= seq!['.', ' ']);
            assert(line@ =~= prompt_line(views_of(candidates@), j as int));
        }
        lines.push(line);
        j = j + 1;
    }
    lines
}

/// The outcome of applying a selection number to the candidate list.
pub enum Selection {
    /// The number named a candidate.
    Chosen(String),
    /// The number was zero or past the end of the list.
    OutOfRange,
}

/// Looks up the 1-based `choice` among the candidates; zero or anything past
/// the end is out of range, never a panic or a silent fallback.
pub fn select(candidates: &Vec<String>, choice: usize) -> (r: Selection)
    ensures
        match r {
            Selection::Chosen(p) => 1 <= choice <= candidates@.len() && p@ == candidates@[
                choice - 1
            ]@,
            Selection::OutOfRange => choice == 0 || choice > candidates@.len(),
        },
{
    if choice >= 1 && choice <= candidates.len() {
        Selection::Chosen(candidates[choice - 1].clone())
    } else {
        Selection::OutOfRange
    }
}

/// What one line of prompt input selects, after trimming: an empty line
/// defaults to the first listed candidate, and otherwise the line must be a
/// decimal numeral.
pub open spec fn selection_of(line: Seq<char>) -> Option<nat> {
    let t = trim_of(line);
    if t.len() == 0 {
        Some(1)
    } else {
        parses_to(t)
    }
}

/// How one line of input is interpreted at the prompt.
pub enum InputParse {
    /// The line selected this 1-based number.
    Choice(usize),
    /// The line was not a numeral; the caller reprompts.
    Malformed,
}

/// Interprets one line of prompt input: trims it, takes an empty line as a
/// default selection of 1, and otherwise parses a decimal numeral. A
/// non-numeral, or a numeral too large for `usize`, is malformed.
pub fn parse_selection(line: &str) -> (r: InputParse)
    ensures
        match r {
            InputParse::Choice(v) => selection_of(line@) == Some(v as nat),
            InputParse::Malformed => match selection_of(line@) {
                Some(v) => v > usize::MAX,
                None => true,
            },
        },
{
    let t = trim_str(line);
    if t.as_str().unicode_len() == 0 {
        InputParse::Choice(1)
    } else {
        match parse_usize(t.as_str()) {
            Some(v) => InputParse::Choice(v),
            None => InputParse::Malformed,
        }
    }
}

/// One step of the disambiguation loop.
pub enum Step {
    /// The line selected this candidate; the caller prints it and stops.
    Selected(String),
    /// The line was a numeral naming no candidate; the caller fails.
    OutOfRange,
    /// The line was not a numeral; the caller reprompts and reads again.
    Reprompt,
}

/// Handles one line of input read at the prompt: the resolver's whole
/// decision for that line.
pub fn handle_line(candidates: &Vec<String>, line: &str) -> (r: Step)
    ensures
        match r {
            Step::Selected(p) => (match selection_of(line@) {
                Some(v) => 1 <= v <= candidates@.len() && p@ == candidates@[v - 1]@,
                None => false,
            }),
            Step::OutOfRange => (match selection_of(line@) {
                Some(v) => v == 0 || (candidates@.len() < v <= usize::MAX),
                None => false,
            }),
            Step::Reprompt => (match selection_of(line@) {
                Some(v) => v > usize::MAX,
                None => true,
            }),
        },
{
    match parse_selection(line) {
        InputParse::Choice(v) => match select(candidates, v) {
            Selection::Chosen(p) => Step::Selected(p),
            Selection::OutOfRange => Step::OutOfRange,
        },
        InputParse::Malformed => Step::Reprompt,
    }
}

} // verus!
