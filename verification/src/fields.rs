//! Splitting one line of text into its comma-separated fields.

use vstd::prelude::*;

verus! {

/// The byte that stands between two fields of a line: a comma.
pub const SEPARATOR: u8 = 44;

/// The fields of a line, in order: what stands between its separators.
///
/// A line without a separator is one field, the empty line too. Each
/// separator closes the field before it and opens the next, so a line with
/// `n` separators has `n + 1` fields, some of which may be empty.
pub open spec fn fields(line: Seq<u8>) -> Seq<Seq<u8>>
    decreases line.len(),
{
    if line.len() == 0 {
        seq![Seq::<u8>::empty()]
    } else {
        let before = fields(line.drop_last());
        if line.last() == SEPARATOR {
            before.push(Seq::<u8>::empty())
        } else {
            before.drop_last().push(before.last().push(line.last()))
        }
    }
}

/// A stretch of a line, from `start` up to and without `end`.
#[derive(Clone, Copy, Debug, PartialEq, Eq)]
pub struct Span {
    pub start: usize,
    pub end: usize,
}

impl Span {
    /// The bytes of `line` that the span covers.
    pub open spec fn of(self, line: Seq<u8>) -> Seq<u8> {
        line.subrange(self.start as int, self.end as int)
    }
}

/// The spans lie side by side over the whole line: the first starts at the
/// line's start, the last ends at its end, between two neighbours stands
/// exactly one separator, and no span holds one.
pub open spec fn tiles(line: Seq<u8>, spans: Seq<Span>) -> bool {
    &&& spans.len() >= 1
    &&& spans[0].start == 0
    &&& spans.last().end == line.len()
    &&& forall|i: int|
        0 <= i < spans.len() ==> (#[trigger] spans[i]).start <= spans[i].end <= line.len()
    &&& forall|i: int|
        0 <= i < spans.len() - 1 ==> {
            &&& line[(#[trigger] spans[i]).end as int] == SEPARATOR
            &&& spans[i + 1].start == spans[i].end + 1
        }
    &&& forall|i: int, k: int|
        0 <= i < spans.len() && (#[trigger] spans[i]).start <= k < spans[i].end ==> #[trigger] line[k]
            != SEPARATOR
}

/// Unfolds `fields` by one byte: what the byte at `i` does to the fields of
/// the `i` bytes before it.
proof fn lemma_fields_step(line: Seq<u8>, i: int)
    requires
        0 <= i < line.len(),
    ensures
        fields(line.take(i)).len() >= 1,
        line[i] == SEPARATOR ==> fields(line.take(i + 1)) == fields(line.take(i)).push(
            Seq::<u8>::empty(),
        ),
        line[i] != SEPARATOR ==> fields(line.take(i + 1)) == fields(
            line.take(i),
        ).drop_last().push(fields(line.take(i)).last().push(line[i])),
{
    lemma_fields_len(line.take(i));
    assert(line.take(i + 1).drop_last() =~= line.take(i));
    assert(line.take(i + 1).last() == line[i]);
}

/// A line has at least one field.
proof fn lemma_fields_len(line: Seq<u8>)
    ensures
        fields(line).len() >= 1,
    decreases line.len(),
{
    if line.len() > 0 {
        lemma_fields_len(line.drop_last());
    }
}

/// Finds the fields of a line.
///
/// The spans that come back are the line's fields in order, each given by
/// where it stands in the line.
pub fn split_fields(line: &[u8]) -> (spans: Vec<Span>)
    ensures
        tiles(line@, spans@),
        spans@.len() == fields(line@).len(),
        forall|i: int| 0 <= i < spans@.len() ==> (#[trigger] spans@[i]).of(line@) == fields(line@)[i],
{
    let mut spans: Vec<Span> = Vec::new();
    let mut start: usize = 0;
    let mut i: usize = 0;
    proof {
        assert(line@.take(0) =~= Seq::<u8>::empty());
        assert(line@.subrange(0, 0) =~= Seq::<u8>::empty());
    }
    while i < line.len()
        invariant
            start <= i <= line.len(),
            fields(line@.take(i as int)).len() == spans@.len() + 1,
            forall|j: int|
                0 <= j < spans@.len() ==> (#[trigger] spans@[j]).of(line@) == fields(
                    line@.take(i as int),
                )[j],
            line@.subrange(start as int, i as int) == fields(line@.take(i as int)).last(),
            spans@.len() == 0 ==> start == 0,
            spans@.len() > 0 ==> spans@[0].start == 0 && start == spans@.last().end + 1,
            forall|j: int|
                0 <= j < spans@.len() ==> {
                    &&& (#[trigger] spans@[j]).start <= spans@[j].end < i
                    &&& line@[spans@[j].end as int] == SEPARATOR
                },
            forall|j: int|
                0 <= j < spans@.len() - 1 ==> spans@[j + 1].start == (#[trigger] spans@[j]).end + 1,
            forall|j: int, k: int|
                0 <= j < spans@.len() && (#[trigger] spans@[j]).start <= k < spans@[j].end
                    ==> #[trigger] line@[k] != SEPARATOR,
            forall|k: int| start <= k < i ==> #[trigger] line@[k] != SEPARATOR,
        decreases line.len() - i,
    {
        proof {
            lemma_fields_step(line@, i as int);
        }
        let ghost before = fields(line@.take(i as int));
        if line[i] == SEPARATOR {
            let ghost old_spans = spans@;
            spans.push(Span { start, end: i });
            proof {
                assert(spans@.last().of(line@) == before.last());
                assert forall|j: int| 0 <= j < spans@.len() - 1 implies spans@[j + 1].start == (
                #[trigger] spans@[j]).end + 1 by {
                    if j < old_spans.len() - 1 {
                        assert(spans@[j] == old_spans[j]);
                        assert(spans@[j + 1] == old_spans[j + 1]);
                    }
                }
                assert(line@.subrange(i + 1, i + 1) =~= Seq::<u8>::empty());
            }
            start = i + 1;
        } else {
            proof {
                assert(line@.subrange(start as int, i + 1) =~= before.last().push(line@[i as int]));
            }
        }
        i += 1;
    }
    proof {
        assert(line@.take(i as int) =~= line@);
    }
    spans.push(Span { start, end: i });
    spans
}

} // verus!
