//! The Counter: it consumes the line events of one text source and returns
//! the number of words, or a classified error.
//!
//! A source is read line by line. Each successful read yields one line; a
//! failed read yields the underlying cause and ends the source. The events
//! of one source are modelled by [`LineResult`]; [`count_words`] folds them
//! into a result, and [`Counter`] is the streaming accumulator underneath,
//! for callers that obtain their lines one at a time.

use vstd::prelude::*;
use crate::text::{
    is_whitespace, join_lines, lemma_count_independent_of_chunking,
    lemma_whitespace_only_has_no_words, total_words, word_count,
};

verus! {

/// Declares `std::io::Error`, the cause that a failed read carries, so that
/// it can stand in fields and signatures. The value is only carried through,
/// never inspected; nothing is assumed of it.
#[verifier::external_type_specification]
#[verifier::external_body]
pub struct ExIoError(std::io::Error);

/// The errors that counting one source can end in.
#[derive(Debug)]
pub enum WordCountError {
    /// The source was read to its end and held no words at all.
    EmptySource,
    /// The source reported an error while a line was being read; `source`
    /// is the underlying cause.
    ReadError { source: std::io::Error },
    /// Any other transport-level failure, with its cause preserved.
    IOError(std::io::Error),
}

/// One read from a source: either the next line, or the error that ended
/// the source.
pub enum LineResult {
    Line(String),
    ReadFailed(std::io::Error),
}

/// The position of the first failed read among the events, or the number of
/// events when every read succeeded.
pub open spec fn first_failure(events: Seq<LineResult>) -> int
    decreases events.len(),
{
    if events.len() == 0 {
        0
    } else if !(events[0] is Line) {
        0
    } else {
        1 + first_failure(events.drop_first())
    }
}

/// The number of words accumulated before the first failed read.
pub open spec fn counted_words(events: Seq<LineResult>) -> nat
    decreases events.len(),
{
    if events.len() == 0 {
        0
    } else if events[0] is Line {
        word_count(events[0]->Line_0@) + counted_words(events.drop_first())
    } else {
        0
    }
}

/// What counting one source returns, as a function of its line events
/// alone: the cause of the first failed read, `EmptySource` for a source
/// that was read to its end without yielding a word, and the word count
/// otherwise.
pub open spec fn outcome(events: Seq<LineResult>) -> Result<u32, WordCountError> {
    if first_failure(events) < events.len() {
        Err(
            WordCountError::ReadError { source: events[first_failure(events)]->ReadFailed_0 },
        )
    } else if counted_words(events) == 0 {
        Err(WordCountError::EmptySource)
    } else {
        Ok(counted_words(events) as u32)
    }
}

/// Whether every read of the source succeeded: the events hold lines only.
pub open spec fn all_reads_ok(events: Seq<LineResult>) -> bool {
    forall|j: int| 0 <= j < events.len() ==> events[j] is Line
}

/// The lines that the events carry, as plain character sequences.
pub open spec fn line_views(events: Seq<LineResult>) -> Seq<Seq<char>> {
    events.map_values(|ev: LineResult| ev->Line_0@)
}

proof fn lemma_ok_events_counted(events: Seq<LineResult>)
    requires
        all_reads_ok(events),
    ensures
        first_failure(events) == events.len(),
        counted_words(events) == total_words(line_views(events)),
    decreases events.len(),
{
    if events.len() > 0 {
        assert(events[0] is Line);
        lemma_ok_events_counted(events.drop_first());
        assert(line_views(events)[0] == events[0]->Line_0@);
        assert(line_views(events).drop_first() =~= line_views(events.drop_first()));
    } else {
        assert(line_views(events) =~= Seq::<Seq<char>>::empty());
    }
}

/// For a fully read source the counted total is the number of words of the
/// text itself: the lines, joined at their newline boundaries, hold exactly
/// as many words as the lines counted one by one.
pub proof fn lemma_count_is_text_word_count(events: Seq<LineResult>)
    requires
        all_reads_ok(events),
    ensures
        first_failure(events) == events.len(),
        counted_words(events) == word_count(join_lines(line_views(events))),
{
    lemma_ok_events_counted(events);
    lemma_count_independent_of_chunking(line_views(events));
}

/// The result of counting does not depend on how the text of a source was
/// chunked into lines: two fully read sources whose lines join to the same
/// text have the same outcome.
pub proof fn lemma_outcome_depends_on_text_alone(a: Seq<LineResult>, b: Seq<LineResult>)
    requires
        all_reads_ok(a),
        all_reads_ok(b),
        join_lines(line_views(a)) == join_lines(line_views(b)),
    ensures
        outcome(a) == outcome(b),
{
    lemma_ok_events_counted(a);
    lemma_ok_events_counted(b);
    lemma_count_independent_of_chunking(line_views(a));
    lemma_count_independent_of_chunking(line_views(b));
}

proof fn lemma_whitespace_only_counts_nothing(events: Seq<LineResult>)
    requires
        all_reads_ok(events),
        forall|j: int, i: int|
            0 <= j < events.len() && 0 <= i < events[j]->Line_0@.len() ==> is_whitespace(
                events[j]->Line_0@[i],
            ),
    ensures
        counted_words(events) == 0,
    decreases events.len(),
{
    if events.len() > 0 {
        assert(events[0] is Line);
        lemma_whitespace_only_has_no_words(events[0]->Line_0@);
        let rest = events.drop_first();
        assert forall|j: int, i: int|
            0 <= j < rest.len() && 0 <= i < rest[j]->Line_0@.len() implies is_whitespace(
            rest[j]->Line_0@[i],
        ) by {
            assert(rest[j] == events[j + 1]);
        }
        lemma_whitespace_only_counts_nothing(rest);
    }
}

/// A source whose lines hold nothing but whitespace ends exactly as an
/// empty source does: in the `EmptySource` error.
pub proof fn lemma_whitespace_only_is_empty(events: Seq<LineResult>)
    requires
        all_reads_ok(events),
        forall|j: int, i: int|
            0 <= j < events.len() && 0 <= i < events[j]->Line_0@.len() ==> is_whitespace(
                events[j]->Line_0@[i],
            ),
    ensures
        outcome(events) == Err::<u32, WordCountError>(WordCountError::EmptySource),
{
    lemma_ok_events_counted(events);
    lemma_whitespace_only_counts_nothing(events);
}

/// Whether two event sequences describe equivalent readings of one source:
/// the same lines with the same characters, and the same cause wherever a
/// read failed. Two fresh readings of one unchanged source are equivalent
/// even though each hands out lines of its own.
pub open spec fn equivalent_events(a: Seq<LineResult>, b: Seq<LineResult>) -> bool {
    &&& a.len() == b.len()
    &&& forall|j: int|
        0 <= j < a.len() ==> {
            &&& (a[j] is Line <==> b[j] is Line)
            &&& (a[j] is Line ==> a[j]->Line_0@ == b[j]->Line_0@)
            &&& (!(a[j] is Line) ==> a[j]->ReadFailed_0 == b[j]->ReadFailed_0)
        }
}

proof fn lemma_first_failure_in_bounds(events: Seq<LineResult>)
    ensures
        0 <= first_failure(events) <= events.len(),
        first_failure(events) < events.len() ==> !(events[first_failure(events)] is Line),
    decreases events.len(),
{
    if events.len() > 0 && events[0] is Line {
        lemma_first_failure_in_bounds(events.drop_first());
        let ff = first_failure(events);
        if ff < events.len() {
            assert(events.drop_first()[ff - 1] == events[ff]);
        }
    }
}

proof fn lemma_equivalent_events_counted(a: Seq<LineResult>, b: Seq<LineResult>)
    requires
        equivalent_events(a, b),
    ensures
        first_failure(a) == first_failure(b),
        counted_words(a) == counted_words(b),
    decreases a.len(),
{
    if a.len() > 0 && a[0] is Line {
        let ra = a.drop_first();
        let rb = b.drop_first();
        assert forall|j: int| 0 <= j < ra.len() implies {
            &&& (ra[j] is Line <==> rb[j] is Line)
            &&& (ra[j] is Line ==> ra[j]->Line_0@ == rb[j]->Line_0@)
            &&& (!(ra[j] is Line) ==> ra[j]->ReadFailed_0 == rb[j]->ReadFailed_0)
        } by {
            assert(ra[j] == a[j + 1]);
            assert(rb[j] == b[j + 1]);
        }
        lemma_equivalent_events_counted(ra, rb);
    }
}

/// Counting is repeatable: the Counter holds no state between invocations,
/// so equivalent readings of one source always end in the same outcome.
pub proof fn lemma_counting_is_repeatable(a: Seq<LineResult>, b: Seq<LineResult>)
    requires
        equivalent_events(a, b),
    ensures
        outcome(a) == outcome(b),
{
    lemma_equivalent_events_counted(a, b);
    lemma_first_failure_in_bounds(a);
}

/// The accumulator of one scan: it starts at zero, takes one line at a
/// time, and is finally folded into a result. It holds no other state, so
/// the result of a scan depends on the lines alone.
pub struct Counter {
    count: u32,
}

impl View for Counter {
    type V = nat;

    /// The number of words accumulated so far.
    closed spec fn view(&self) -> nat {
        self.count as nat
    }
}

impl Counter {
    /// A fresh accumulator, holding no words yet.
    pub fn new() -> (c: Counter)
        ensures
            c@ == 0,
    {
        Counter { count: 0 }
    }

    /// Add the words of one line.
    pub fn add_line(&mut self, line: &str)
        requires
            old(self)@ + word_count(line@) <= u32::MAX,
        ensures
            final(self)@ == old(self)@ + word_count(line@),
    {
        let w = crate::text::line_word_count(line);
        self.count = self.count + (w as u32);
    }

    /// The number of words accumulated so far.
    pub fn count(&self) -> (n: u32)
        ensures
            n == self@,
    {
        self.count
    }

    /// Fold the finished scan into a result: a source whose lines held no
    /// word at all is empty, any other yields its count.
    pub fn finish(self) -> (r: Result<u32, WordCountError>)
        ensures
            self@ == 0 ==> r == Err::<u32, WordCountError>(WordCountError::EmptySource),
            self@ > 0 ==> r == Ok::<u32, WordCountError>(self@ as u32),
    {
        if self.count == 0 {
            Err(WordCountError::EmptySource)
        } else {
            Ok(self.count)
        }
    }
}

/// Count the number of words in the given input.
///
/// The input is the sequence of line events that reading one source
/// produced. The result is exactly [`outcome`] of those events: the cause
/// of the first failed read if there is one (any partial count is
/// discarded), `EmptySource` for a source read to its end without a word,
/// and the word count otherwise.
#[verifier::loop_isolation(false)]
pub fn count_words(input: Vec<LineResult>) -> (r: Result<u32, WordCountError>)
    requires
        counted_words(input@) <= u32::MAX,
    ensures
        r == outcome(input@),
{
    let ghost events = input@;
    let ghost mut k: int = 0;
    let mut input = input;
    let mut counter = Counter::new();
    proof {
        assert(events.subrange(0, events.len() as int) =~= events);
    }
    while input.len() > 0
        invariant
            0 <= k <= events.len(),
            input@ == events.subrange(k, events.len() as int),
            first_failure(events) == k + first_failure(input@),
            counter@ + counted_words(input@) == counted_words(events),
            counted_words(events) <= u32::MAX,
        decreases input.len(),
    {
        let ghost rest = input@;
        proof {
            assert(rest[0] == events[k]);
        }
        let ev = input.remove(0);
        proof {
            assert(input@ =~= rest.drop_first());
            assert(input@ =~= events.subrange(k + 1, events.len() as int));
        }
        match ev {
            LineResult::Line(line) => {
                proof {
                    assert(counted_words(rest) == word_count(line@) + counted_words(input@));
                    assert(first_failure(rest) == 1 + first_failure(input@));
                }
                counter.add_line(line.as_str());
                proof {
                    k = k + 1;
                }
            },
            LineResult::ReadFailed(cause) => {
                proof {
                    assert(first_failure(events) == k);
                    assert(events[k]->ReadFailed_0 == cause);
                }
                return Err(WordCountError::ReadError { source: cause });
            },
        }
    }
    proof {
        assert(k == events.len());
        assert(first_failure(events) == k);
    }
    counter.finish()
}

} // verus!
