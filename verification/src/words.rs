//! Finding the words of a text.
//!
//! A word is a maximal run of characters of an alphabet. Which characters
//! belong to the alphabet is decided first, character by character; finding
//! the runs works on the outcome alone.

use vstd::prelude::*;
use crate::text::is_alphanumeric_char;

verus! {

/// Which characters make up a word.
#[derive(Debug, Clone, Copy, PartialEq, Eq, Structural)]
pub enum Alphabet {
    /// Alphanumeric characters and `_`: the words of a query.
    Query,
    /// Alphanumeric characters and `_ $ @ # -`: the words of source code.
    Code,
}

/// The character belongs to the alphabet.
pub open spec fn in_alphabet(c: char, alphabet: Alphabet) -> bool {
    is_alphanumeric_char(c) || c == '_' || (alphabet == Alphabet::Code && (c == '$' || c == '@'
        || c == '#' || c == '-'))
}

/// For each character of a text, whether it belongs to the alphabet.
pub open spec fn flags_of(text: Seq<char>, alphabet: Alphabet) -> Seq<bool> {
    Seq::new(text.len(), |i: int| in_alphabet(text[i], alphabet))
}

/// The runs found while reading flags from the start: the ranges of the
/// runs that have ended, and the start of a run that has not.
pub struct Scan {
    pub closed: Seq<(int, int)>,
    pub open: Option<int>,
}

/// Reads flags one by one. A run starts at a set flag that follows none,
/// and ends before the next flag that is not set.
pub open spec fn scan(flags: Seq<bool>) -> Scan
    decreases flags.len(),
{
    if flags.len() == 0 {
        Scan { closed: Seq::empty(), open: None }
    } else {
        let before = scan(flags.drop_last());
        let at = flags.len() - 1;
        if flags.last() {
            match before.open {
                Some(_) => before,
                None => Scan { closed: before.closed, open: Some(at) },
            }
        } else {
            match before.open {
                Some(start) => Scan { closed: before.closed.push((start, at)), open: None },
                None => before,
            }
        }
    }
}

/// The maximal runs of set flags, as half-open ranges of indices, in order.
pub open spec fn runs(flags: Seq<bool>) -> Seq<(int, int)> {
    let end = scan(flags);
    match end.open {
        Some(start) => end.closed.push((start, flags.len() as int)),
        None => end.closed,
    }
}

/// The words of a text: the maximal runs of characters of the alphabet, as
/// half-open ranges of indices, in order.
pub open spec fn words(text: Seq<char>, alphabet: Alphabet) -> Seq<(int, int)> {
    runs(flags_of(text, alphabet))
}

/// A range of indices.
#[derive(Debug, Clone, Copy, PartialEq, Eq, Structural)]
pub struct Span {
    pub start: usize,
    pub end: usize,
}

/// The spans of a list as pairs of mathematical integers.
pub open spec fn span_views(v: Seq<Span>) -> Seq<(int, int)> {
    Seq::new(v.len(), |i: int| (v[i].start as int, v[i].end as int))
}

/// Whether a character belongs to the alphabet.
pub fn is_word_char(c: char, alphabet: Alphabet) -> (r: bool)
    ensures
        r == in_alphabet(c, alphabet),
{
    if c.is_alphanumeric() || c == '_' {
        return true;
    }
    match alphabet {
        Alphabet::Query => false,
        Alphabet::Code => c == '$' || c == '@' || c == '#' || c == '-',
    }
}

/// For each character of a text, whether it belongs to the alphabet.
pub fn classify(text: &[char], alphabet: Alphabet) -> (flags: Vec<bool>)
    ensures
        flags@ == flags_of(text@, alphabet),
{
    let mut flags: Vec<bool> = Vec::new();
    let mut i: usize = 0;
    while i < text.len()
        invariant
            i <= text.len(),
            i == flags@.len(),
            forall|k: int| 0 <= k < i ==> flags@[k] == in_alphabet(text@[k], alphabet),
        decreases text.len() - i,
    {
        flags.push(is_word_char(text[i], alphabet));
        i += 1;
    }
    assert(flags@ =~= flags_of(text@, alphabet));
    flags
}

/// The maximal runs of set flags.
pub fn find_runs(flags: &[bool]) -> (found: Vec<Span>)
    ensures
        span_views(found@) == runs(flags@),
{
    let mut found: Vec<Span> = Vec::new();
    let mut open: Option<usize> = None;
    let mut i: usize = 0;
    assert(flags@.take(0) =~= Seq::<bool>::empty());
    assert(span_views(found@) =~= Seq::<(int, int)>::empty());
    while i < flags.len()
        invariant
            i <= flags.len(),
            span_views(found@) == scan(flags@.take(i as int)).closed,
            match open {
                Some(start) => scan(flags@.take(i as int)).open == Some(start as int),
                None => scan(flags@.take(i as int)).open is None,
            },
        decreases flags.len() - i,
    {
        proof {
            assert(flags@.take(i + 1).drop_last() =~= flags@.take(i as int));
            assert(flags@.take(i + 1).last() == flags@[i as int]);
        }
        let ghost before = span_views(found@);
        if flags[i] {
            if open.is_none() {
                open = Some(i);
            }
        } else {
            match open {
                Some(start) => {
                    found.push(Span { start, end: i });
                    assert(span_views(found@) =~= before.push((start as int, i as int)));
                    open = None;
                },
                None => {},
            }
        }
        i += 1;
    }
    assert(flags@.take(flags@.len() as int) =~= flags@);
    let ghost before = span_views(found@);
    match open {
        Some(start) => {
            found.push(Span { start, end: flags.len() });
            assert(span_views(found@) =~= before.push((start as int, flags@.len() as int)));
        },
        None => {},
    }
    found
}

/// The words of a text.
pub fn find_words(text: &[char], alphabet: Alphabet) -> (found: Vec<Span>)
    ensures
        span_views(found@) == words(text@, alphabet),
{
    let flags = classify(text, alphabet);
    find_runs(&flags)
}

/// The ranges of a scan are nonempty, ordered and apart, and an open run
/// starts behind all of them.
pub proof fn lemma_scan_ordered(flags: Seq<bool>)
    ensures
        forall|i: int|
            0 <= i < scan(flags).closed.len() ==> 0 <= (#[trigger] scan(flags).closed[i]).0 < scan(
                flags,
            ).closed[i].1 < flags.len(),
        forall|i: int, j: int|
            0 <= i < j < scan(flags).closed.len() ==> (#[trigger] scan(flags).closed[i]).1 < (
            #[trigger] scan(flags).closed[j]).0,
        scan(flags).open is Some ==> 0 <= scan(flags).open->0 < flags.len() && forall|i: int|
            0 <= i < scan(flags).closed.len() ==> (#[trigger] scan(flags).closed[i]).1 < scan(
                flags,
            ).open->0,
    decreases flags.len(),
{
    if flags.len() > 0 {
        lemma_scan_ordered(flags.drop_last());
    }
}

/// Every run is a nonempty range inside the flags, and the runs come in
/// order without touching.
pub proof fn lemma_runs_ordered(flags: Seq<bool>)
    ensures
        forall|i: int|
            0 <= i < runs(flags).len() ==> 0 <= (#[trigger] runs(flags)[i]).0 < runs(flags)[i].1
                <= flags.len(),
        forall|i: int, j: int|
            0 <= i < j < runs(flags).len() ==> (#[trigger] runs(flags)[i]).1 < (#[trigger] runs(
                flags,
            )[j]).0,
{
    lemma_scan_ordered(flags);
}

/// Every word is a nonempty range inside the text, and the words come in
/// order without touching.
pub proof fn lemma_words_ordered(text: Seq<char>, alphabet: Alphabet)
    ensures
        forall|i: int|
            0 <= i < words(text, alphabet).len() ==> 0 <= (#[trigger] words(text, alphabet)[i]).0
                < words(text, alphabet)[i].1 <= text.len(),
        forall|i: int, j: int|
            0 <= i < j < words(text, alphabet).len() ==> (#[trigger] words(text, alphabet)[i]).1
                < (#[trigger] words(text, alphabet)[j]).0,
{
    lemma_runs_ordered(flags_of(text, alphabet));
}

/// The ranges moved to the right by `by`.
pub open spec fn shifted(ranges: Seq<(int, int)>, by: int) -> Seq<(int, int)> {
    Seq::new(ranges.len(), |i: int| (ranges[i].0 + by, ranges[i].1 + by))
}

/// The scan of flags that follow flags whose last run has ended: the runs
/// of the first, then those of the second, moved behind them.
pub proof fn lemma_scan_append(a: Seq<bool>, b: Seq<bool>)
    requires
        scan(a).open is None,
    ensures
        scan(a + b).closed == scan(a).closed + shifted(scan(b).closed, a.len() as int),
        scan(a + b).open == match scan(b).open {
            Some(start) => Some(start + a.len()),
            None => None,
        },
    decreases b.len(),
{
    if b.len() == 0 {
        assert(a + b =~= a);
        assert(scan(a).closed + shifted(scan(b).closed, a.len() as int) =~= scan(a).closed);
    } else {
        let rest = b.drop_last();
        lemma_scan_append(a, rest);
        assert((a + b).drop_last() =~= a + rest);
        assert((a + b).last() == b.last());
        let before = scan(rest);
        let moved = shifted(before.closed, a.len() as int);
        if !b.last() && before.open is Some {
            let start = before.open->0;
            assert(shifted(before.closed.push((start, b.len() - 1)), a.len() as int) =~= moved.push(
                (start + a.len(), a.len() + b.len() - 1),
            ));
            assert(scan(a).closed + moved.push((start + a.len(), a.len() + b.len() - 1)) =~= (scan(
                a,
            ).closed + moved).push((start + a.len(), a.len() + b.len() - 1)));
        }
    }
}

/// Two sequences of flags whose runs do not touch where they meet: one is
/// empty, or the first ends, or the second begins, with a flag not set.
pub open spec fn are_apart(a: Seq<bool>, b: Seq<bool>) -> bool {
    a.len() == 0 || b.len() == 0 || !a.last() || !b[0]
}

/// The runs of flags that are apart are the runs of the first, then those
/// of the second, moved behind them.
pub proof fn lemma_runs_append(a: Seq<bool>, b: Seq<bool>)
    requires
        are_apart(a, b),
    ensures
        runs(a + b) == runs(a) + shifted(runs(b), a.len() as int),
{
    let n = a.len() as int;
    if b.len() == 0 {
        assert(a + b =~= a);
        assert(runs(a) + shifted(runs(b), n) =~= runs(a));
    } else if scan(a).open is None {
        lemma_scan_append(a, b);
        let sb = scan(b);
        if sb.open is Some {
            assert(shifted(sb.closed.push((sb.open->0, b.len() as int)), n) =~= shifted(
                sb.closed,
                n,
            ).push((sb.open->0 + n, b.len() + n)));
            assert(scan(a).closed + shifted(sb.closed, n).push((sb.open->0 + n, b.len() + n)) =~= (
            scan(a).closed + shifted(sb.closed, n)).push((sb.open->0 + n, b.len() + n)));
        }
    } else {
        // the first ends inside a run, so the second begins outside one
        assert(a.len() > 0);
        assert(!b[0]);
        let first = seq![b[0]];
        let joined = a.push(b[0]);
        let rest = b.drop_first();
        assert(joined.drop_last() =~= a);
        assert(a + b =~= joined + rest);
        assert(b =~= first + rest);
        assert(first.drop_last() =~= Seq::<bool>::empty());
        assert(first.last() == b[0]);
        assert(scan(Seq::<bool>::empty()).open is None);
        assert(scan(Seq::<bool>::empty()).closed =~= Seq::<(int, int)>::empty());
        assert(scan(first).open is None);
        assert(scan(first).closed =~= Seq::<(int, int)>::empty());
        lemma_scan_append(first, rest);
        lemma_scan_append(joined, rest);
        let sr = scan(rest);
        let start = scan(a).open->0;
        assert(runs(a) == scan(a).closed.push((start, n)));
        assert(scan(joined).closed == runs(a));
        // the runs of the second are those of its rest, moved by one
        assert(runs(b) =~= shifted(runs(rest), 1)) by {
            if sr.open is Some {
                assert(shifted(sr.closed.push((sr.open->0, rest.len() as int)), 1) =~= shifted(
                    sr.closed,
                    1,
                ).push((sr.open->0 + 1, rest.len() as int + 1)));
            }
            assert(Seq::<(int, int)>::empty() + shifted(sr.closed, 1) =~= shifted(sr.closed, 1));
        }
        assert(shifted(shifted(runs(rest), 1), n) =~= shifted(runs(rest), n + 1));
        if sr.open is Some {
            assert(shifted(sr.closed.push((sr.open->0, rest.len() as int)), n + 1) =~= shifted(
                sr.closed,
                n + 1,
            ).push((sr.open->0 + n + 1, rest.len() + n + 1)));
            assert(runs(a) + shifted(sr.closed, n + 1).push(
                (sr.open->0 + n + 1, rest.len() + n + 1),
            ) =~= (runs(a) + shifted(sr.closed, n + 1)).push(
                (sr.open->0 + n + 1, rest.len() + n + 1),
            ));
        }
    }
}

/// The two texts do not run into each other: one is empty, or the first
/// ends, or the second begins, with a character outside the alphabet.
pub open spec fn is_separated(a: Seq<char>, b: Seq<char>, alphabet: Alphabet) -> bool {
    a.len() == 0 || b.len() == 0 || !in_alphabet(a.last(), alphabet) || !in_alphabet(b[0], alphabet)
}

/// The words of two texts that do not run into each other are the words
/// of the first, then those of the second, moved behind it.
pub proof fn lemma_words_append(a: Seq<char>, b: Seq<char>, alphabet: Alphabet)
    requires
        is_separated(a, b, alphabet),
    ensures
        words(a + b, alphabet) == words(a, alphabet) + shifted(words(b, alphabet), a.len() as int),
{
    assert(flags_of(a + b, alphabet) =~= flags_of(a, alphabet) + flags_of(b, alphabet));
    lemma_runs_append(flags_of(a, alphabet), flags_of(b, alphabet));
}

/// Flags of which none is set have no runs.
pub proof fn lemma_no_runs(flags: Seq<bool>)
    requires
        forall|i: int| 0 <= i < flags.len() ==> !flags[i],
    ensures
        scan(flags).closed.len() == 0,
        scan(flags).open is None,
        runs(flags).len() == 0,
    decreases flags.len(),
{
    if flags.len() > 0 {
        let rest = flags.drop_last();
        assert forall|i: int| 0 <= i < rest.len() implies !rest[i] by {
            assert(rest[i] == flags[i]);
        }
        lemma_no_runs(rest);
    }
}

} // verus!
