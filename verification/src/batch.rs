//! Partitioning of an ordered document sequence into fixed-size,
//! order-preserving batches. Each document keeps its zero-based input
//! position so that vectors computed per batch can be reassembled in the
//! original order.

use vstd::arithmetic::div_mod::{lemma_div_multiples_vanish_fancy, lemma_div_plus_one};
use vstd::prelude::*;

use crate::document::Document;

verus! {

/// How many batches a sequence of `n` documents yields at batch size
/// `size`: `n / size` rounded up.
pub open spec fn batch_count(n: int, size: int) -> int {
    (n + size - 1) / size
}

/// The length of batch `b` out of `n` documents at batch size `size`:
/// `size` for every batch but possibly the last.
pub open spec fn batch_len(n: int, size: int, b: int) -> int {
    if n - b * size < size {
        n - b * size
    } else {
        size
    }
}

/// The mathematical view of a vector of batches: each batch as its
/// sequence of entries.
pub open spec fn batches_view(batches: Seq<Vec<(usize, Document)>>) -> Seq<
    Seq<(usize, Document)>,
> {
    batches.map_values(|b: Vec<(usize, Document)>| b@)
}

/// Whether `batches` is the batching of `docs` at batch size `size`:
/// the right number of groups, each of the right length, and entry `j`
/// of group `b` carries input position `b * size + j` and the document
/// that stood there.
pub open spec fn is_batching(
    batches: Seq<Seq<(usize, Document)>>,
    docs: Seq<Document>,
    size: int,
) -> bool {
    &&& batches.len() == batch_count(docs.len() as int, size)
    &&& forall|b: int|
        0 <= b < batches.len() ==> (#[trigger] batches[b]).len() == batch_len(
            docs.len() as int,
            size,
            b,
        )
    &&& forall|b: int, j: int|
        0 <= b < batches.len() && 0 <= j < batches[b].len() ==> (#[trigger] batches[b][j]).0
            == b * size + j && batches[b][j].1 == docs[b * size + j]
}

/// Every batch before the last one ends at or before the last full
/// batch's end.
proof fn lemma_batch_end_bound(b: int, full: int, size: int)
    requires
        0 <= b < full,
        1 <= size,
    ensures
        b * size + size <= full * size,
{
    assert(b * size + size <= full * size) by (nonlinear_arith)
        requires
            b < full,
            1 <= size,
    ;
}

/// Splits `docs` into batches of `size` documents, the last possibly
/// smaller, in order and tagged with input positions: no reordering, no
/// loss, no duplication.
pub fn schedule(docs: Vec<Document>, size: usize) -> (batches: Vec<Vec<(usize, Document)>>)
    requires
        size >= 1,
    ensures
        is_batching(batches_view(batches@), docs@, size as int),
{
    let ghost orig: Seq<Document> = docs@;
    let total = docs.len();
    let mut rest = docs;
    let mut batches: Vec<Vec<(usize, Document)>> = Vec::new();
    let mut current: Vec<(usize, Document)> = Vec::new();
    let mut idx: usize = 0;
    proof {
        assert(rest@ =~= orig.skip(0));
        assert(batches@.len() == 0);
        assert(batches@.len() * size == 0) by (nonlinear_arith)
            requires
                batches@.len() == 0,
        ;
    }
    while idx < total
        invariant
            1 <= size,
            idx <= total,
            total == orig.len(),
            rest@ == orig.skip(idx as int),
            current@.len() == idx - batches@.len() * size,
            current@.len() < size,
            forall|j: int|
                0 <= j < current@.len() ==> (#[trigger] current@[j]).0 == batches@.len() * size + j
                    && current@[j].1 == orig[batches@.len() * size + j],
            forall|b: int|
                0 <= b < batches@.len() ==> (#[trigger] batches@[b])@.len() == size,
            forall|b: int, j: int|
                0 <= b < batches@.len() && 0 <= j < size ==> (#[trigger] batches@[b]@[j]).0 == b
                    * size + j && batches@[b]@[j].1 == orig[b * size + j],
        decreases total - idx,
    {
        proof {
            assert(orig.skip(idx as int)[0] == orig[idx as int]);
            assert(orig.skip(idx as int).remove(0) =~= orig.skip(idx + 1));
        }
        let doc = rest.remove(0);
        current.push((idx, doc));
        idx = idx + 1;
        if current.len() == size {
            let ghost full: int = batches@.len() as int;
            batches.push(current);
            current = Vec::new();
            proof {
                assert(batches@.len() == full + 1);
                assert(forall|j: int|
                    0 <= j < size ==> (#[trigger] batches@[full]@[j]).0 == full * size + j
                        && batches@[full]@[j].1 == orig[full * size + j]);
                assert(idx == full * size + size);
                assert((full + 1) * size == full * size + size) by (nonlinear_arith);
            }
        }
    }
    let ghost full: int = batches@.len() as int;
    proof {
        assert(idx == total);
        assert(total == full * size + current@.len());
    }
    if current.len() > 0 {
        let ghost r: int = current@.len() as int;
        batches.push(current);
        proof {
            lemma_div_multiples_vanish_fancy(full + 1, r - 1, size as int);
            assert(total + size - 1 == (size as int) * (full + 1) + (r - 1)) by (nonlinear_arith)
                requires
                    total == full * size + r,
            ;
            assert(batch_count(total as int, size as int) == full + 1);
            assert forall|b: int| 0 <= b < full + 1 implies #[trigger] batch_len(
                total as int,
                size as int,
                b,
            ) == (if b == full {
                r
            } else {
                size as int
            }) by {
                if b < full {
                    lemma_batch_end_bound(b, full, size as int);
                }
            };
            assert(is_batching(batches_view(batches@), orig, size as int));
        }
    } else {
        proof {
            lemma_div_multiples_vanish_fancy(full, size - 1, size as int);
            assert(total + size - 1 == (size as int) * full + (size - 1)) by (nonlinear_arith)
                requires
                    total == full * size,
            ;
            assert(batch_count(total as int, size as int) == full);
            assert forall|b: int| 0 <= b < full implies #[trigger] batch_len(
                total as int,
                size as int,
                b,
            ) == size as int by {
                lemma_batch_end_bound(b, full, size as int);
            };
            assert(is_batching(batches_view(batches@), orig, size as int));
        }
    }
    batches
}

/// The concatenation of a sequence of batches, in order.
pub open spec fn flatten_batches(batches: Seq<Seq<(usize, Document)>>) -> Seq<(usize, Document)>
    decreases batches.len(),
{
    if batches.len() == 0 {
        Seq::<(usize, Document)>::empty()
    } else {
        batches[0] + flatten_batches(batches.drop_first())
    }
}

/// The documents of a sequence, each tagged with its zero-based position.
pub open spec fn enumerated(docs: Seq<Document>) -> Seq<(usize, Document)> {
    Seq::new(docs.len(), |i: int| (i as usize, docs[i]))
}

/// A batching of the part of `docs` from `start` on flattens back to that
/// part, position-tagged: the induction behind `lemma_schedule_round_trip`.
proof fn lemma_flatten_from(
    batches: Seq<Seq<(usize, Document)>>,
    docs: Seq<Document>,
    size: int,
    start: int,
)
    requires
        1 <= size,
        0 <= start <= docs.len(),
        batches.len() == batch_count(docs.len() - start, size),
        forall|b: int|
            0 <= b < batches.len() ==> (#[trigger] batches[b]).len() == batch_len(
                docs.len() - start,
                size,
                b,
            ),
        forall|b: int, j: int|
            0 <= b < batches.len() && 0 <= j < batches[b].len() ==> (#[trigger] batches[b][j]).0
                == start + b * size + j && batches[b][j].1 == docs[start + b * size + j],
    ensures
        flatten_batches(batches).len() == docs.len() - start,
        forall|i: int|
            0 <= i < docs.len() - start ==> (#[trigger] flatten_batches(batches)[i]).0 == start + i
                && flatten_batches(batches)[i].1 == docs[start + i],
    decreases batches.len(),
{
    let n = docs.len() - start;
    if batches.len() == 0 {
        if n > 0 {
            vstd::arithmetic::div_mod::lemma_div_by_self(size);
            vstd::arithmetic::div_mod::lemma_div_is_ordered(size, n + size - 1, size);
            assert(batch_count(n, size) >= 1);
        }
    } else {
        if n == 0 {
            lemma_div_multiples_vanish_fancy(0, size - 1, size);
            assert(batch_count(0, size) == 0);
            assert(false);
        }
        let first = batches[0];
        let rest = batches.drop_first();
        let step = batch_len(n, size, 0);
        assert(first.len() == step);
        lemma_div_plus_one(n - step + size - 1, size);
        assert(batch_count(n - step, size) == batch_count(n, size) - 1) by {
            if n < size {
                lemma_div_multiples_vanish_fancy(0, size - 1, size);
                lemma_div_multiples_vanish_fancy(1, n - 1, size);
            }
        };
        assert forall|b: int| 0 <= b < rest.len() implies (#[trigger] rest[b]).len() == batch_len(
            n - step,
            size,
            b,
        ) by {
            assert(rest[b] == batches[b + 1]);
            assert((b + 1) * size == b * size + size) by (nonlinear_arith);
        };
        assert forall|b: int, j: int|
            0 <= b < rest.len() && 0 <= j < rest[b].len() implies (#[trigger] rest[b][j]).0 == (
        start + step) + b * size + j && rest[b][j].1 == docs[(start + step) + b * size + j] by {
            assert(rest[b] == batches[b + 1]);
            assert((b + 1) * size == b * size + size) by (nonlinear_arith);
        };
        lemma_flatten_from(rest, docs, size, start + step);
        assert forall|i: int| 0 <= i < n implies (#[trigger] flatten_batches(batches)[i]).0 == start
            + i && flatten_batches(batches)[i].1 == docs[start + i] by {
            if i < step {
                assert(flatten_batches(batches)[i] == first[i]);
                assert(first[i].0 == start + 0 * size + i && first[i].1 == docs[start + 0 * size
                    + i]);
            } else {
                assert(flatten_batches(batches)[i] == flatten_batches(rest)[i - step]);
            }
        };
    }
}

/// Entries drawn from a batching of `docs` in batch order stand in input
/// order: entry `k` of the concatenation carries position `k` and the
/// `k`-th input document, however the documents were grouped.
pub proof fn lemma_assembled_in_input_order(
    batches: Seq<Seq<(usize, Document)>>,
    docs: Seq<Document>,
    size: int,
)
    requires
        1 <= size,
        is_batching(batches, docs, size),
    ensures
        flatten_batches(batches).len() == docs.len(),
        forall|k: int|
            0 <= k < docs.len() ==> (#[trigger] flatten_batches(batches)[k]).0 == k
                && flatten_batches(batches)[k].1 == docs[k],
{
    lemma_flatten_from(batches, docs, size, 0);
}

/// Concatenating the batches that `schedule` yields reconstructs the
/// original indexed document sequence exactly once: every document at its
/// zero-based position, no duplication, no loss, no reordering.
pub proof fn lemma_schedule_round_trip(
    batches: Seq<Seq<(usize, Document)>>,
    docs: Seq<Document>,
    size: int,
)
    requires
        1 <= size,
        is_batching(batches, docs, size),
    ensures
        flatten_batches(batches) == enumerated(docs),
{
    lemma_flatten_from(batches, docs, size, 0);
    assert(flatten_batches(batches) =~= enumerated(docs));
}

} // verus!
