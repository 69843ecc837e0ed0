//! Reassembly of per-batch embedding results in input order, and the two
//! output shapes: documents augmented with their vector, and explicit
//! point records.

use vstd::prelude::*;

use crate::batch::{batches_view, flatten_batches};
use crate::document::Document;
use crate::json::JsonValue;

verus! {

/// One embedding vector. The pipeline never looks inside a component:
/// each is carried as the bit pattern of the backend's 32-bit float.
#[derive(Debug, Clone, PartialEq, Eq)]
pub struct Vector {
    pub dims: Vec<u32>,
}

/// One document together with its zero-based input position and its
/// embedding vector.
#[derive(Debug, PartialEq, Eq)]
pub struct EmbeddedDocument {
    pub index: usize,
    pub document: Document,
    pub vector: Vector,
}

/// The vectors of a run, one sequence per batch, concatenated in order.
pub open spec fn flatten_vectors(vectors: Seq<Seq<Vector>>) -> Seq<Vector>
    decreases vectors.len(),
{
    if vectors.len() == 0 {
        Seq::<Vector>::empty()
    } else {
        vectors[0] + flatten_vectors(vectors.drop_first())
    }
}

/// The mathematical view of a vector of per-batch vector lists.
pub open spec fn vectors_view(vectors: Seq<Vec<Vector>>) -> Seq<Seq<Vector>> {
    vectors.map_values(|v: Vec<Vector>| v@)
}

/// Flattening batches distributes over appending one more batch.
proof fn lemma_flatten_batches_push(
    batches: Seq<Seq<(usize, Document)>>,
    batch: Seq<(usize, Document)>,
)
    ensures
        flatten_batches(batches.push(batch)) == flatten_batches(batches) + batch,
    decreases batches.len(),
{
    if batches.len() == 0 {
        assert(batches.push(batch).drop_first() =~= Seq::<Seq<(usize, Document)>>::empty());
        assert(batches.push(batch)[0] == batch);
        assert(flatten_batches(batches.push(batch).drop_first()) =~= Seq::<
            (usize, Document),
        >::empty());
        assert(flatten_batches(batches.push(batch)) =~= flatten_batches(batches) + batch);
    } else {
        assert(batches.push(batch).drop_first() =~= batches.drop_first().push(batch));
        assert(batches.push(batch)[0] == batches[0]);
        lemma_flatten_batches_push(batches.drop_first(), batch);
        assert(batches[0] + (flatten_batches(batches.drop_first()) + batch) =~= (batches[0]
            + flatten_batches(batches.drop_first())) + batch);
    }
}

/// Flattening per-batch vectors distributes over appending one more
/// batch's vectors.
proof fn lemma_flatten_vectors_push(vectors: Seq<Seq<Vector>>, batch: Seq<Vector>)
    ensures
        flatten_vectors(vectors.push(batch)) == flatten_vectors(vectors) + batch,
    decreases vectors.len(),
{
    if vectors.len() == 0 {
        assert(vectors.push(batch).drop_first() =~= Seq::<Seq<Vector>>::empty());
        assert(vectors.push(batch)[0] == batch);
        assert(flatten_vectors(vectors.push(batch).drop_first()) =~= Seq::<Vector>::empty());
        assert(flatten_vectors(vectors.push(batch)) =~= flatten_vectors(vectors) + batch);
    } else {
        assert(vectors.push(batch).drop_first() =~= vectors.drop_first().push(batch));
        assert(vectors.push(batch)[0] == vectors[0]);
        lemma_flatten_vectors_push(vectors.drop_first(), batch);
        assert(vectors[0] + (flatten_vectors(vectors.drop_first()) + batch) =~= (vectors[0]
            + flatten_vectors(vectors.drop_first())) + batch);
    }
}

/// Zips every batch's entries with that batch's vectors and concatenates
/// the results in batch order: entry `k` of the result is the `k`-th
/// scheduled document with the `k`-th returned vector.
pub fn assemble(batches: Vec<Vec<(usize, Document)>>, vectors: Vec<Vec<Vector>>) -> (entries: Vec<
    EmbeddedDocument,
>)
    requires
        vectors@.len() == batches@.len(),
        forall|b: int|
            0 <= b < batches@.len() ==> (#[trigger] vectors@[b])@.len() == batches@[b]@.len(),
    ensures
        ({
            let flat = flatten_batches(batches_view(batches@));
            let flat_vecs = flatten_vectors(vectors_view(vectors@));
            &&& entries@.len() == flat.len()
            &&& forall|k: int|
                0 <= k < flat.len() ==> (#[trigger] entries@[k]).index == flat[k].0
                    && entries@[k].document == flat[k].1 && entries@[k].vector == flat_vecs[k]
        }),
{
    let ghost all_batches: Seq<Vec<(usize, Document)>> = batches@;
    let ghost all_vectors: Seq<Vec<Vector>> = vectors@;
    let total = batches.len();
    let mut batches = batches;
    let mut vectors = vectors;
    let mut entries: Vec<EmbeddedDocument> = Vec::new();
    let mut b: usize = 0;
    proof {
        assert(batches_view(all_batches).take(0) =~= Seq::<Seq<(usize, Document)>>::empty());
        assert(vectors_view(all_vectors).take(0) =~= Seq::<Seq<Vector>>::empty());
        assert(batches@ =~= all_batches.skip(0));
        assert(vectors@ =~= all_vectors.skip(0));
    }
    while b < total
        invariant
            b <= total,
            total == all_batches.len(),
            all_vectors.len() == all_batches.len(),
            forall|c: int|
                0 <= c < all_batches.len() ==> (#[trigger] all_vectors[c])@.len()
                    == all_batches[c]@.len(),
            batches@ == all_batches.skip(b as int),
            vectors@ == all_vectors.skip(b as int),
            ({
                let flat = flatten_batches(batches_view(all_batches.take(b as int)));
                let flat_vecs = flatten_vectors(vectors_view(all_vectors.take(b as int)));
                &&& entries@.len() == flat.len()
                &&& flat.len() == flat_vecs.len()
                &&& forall|k: int|
                    0 <= k < flat.len() ==> (#[trigger] entries@[k]).index == flat[k].0
                        && entries@[k].document == flat[k].1 && entries@[k].vector == flat_vecs[k]
            }),
        decreases total - b,
    {
        proof {
            assert(all_batches.skip(b as int)[0] == all_batches[b as int]);
            assert(all_vectors.skip(b as int)[0] == all_vectors[b as int]);
            assert(all_batches.skip(b as int).remove(0) =~= all_batches.skip(b + 1));
            assert(all_vectors.skip(b as int).remove(0) =~= all_vectors.skip(b + 1));
        }
        let mut batch = batches.remove(0);
        let mut vecs = vectors.remove(0);
        let ghost batch0: Seq<(usize, Document)> = batch@;
        let ghost vecs0: Seq<Vector> = vecs@;
        let m = batch.len();
        let mut j: usize = 0;
        while j < m
            invariant
                j <= m,
                m == batch0.len(),
                vecs0.len() == batch0.len(),
                batch@ == batch0.skip(j as int),
                vecs@ == vecs0.skip(j as int),
                entries@.len() == flatten_batches(batches_view(all_batches.take(b as int))).len()
                    + j,
                ({
                    let flat = flatten_batches(batches_view(all_batches.take(b as int)))
                        + batch0.take(j as int);
                    let flat_vecs = flatten_vectors(vectors_view(all_vectors.take(b as int)))
                        + vecs0.take(j as int);
                    &&& entries@.len() == flat.len()
                    &&& flat.len() == flat_vecs.len()
                    &&& forall|k: int|
                        0 <= k < flat.len() ==> (#[trigger] entries@[k]).index == flat[k].0
                            && entries@[k].document == flat[k].1 && entries@[k].vector
                            == flat_vecs[k]
                }),
            decreases m - j,
        {
            proof {
                assert(batch0.skip(j as int)[0] == batch0[j as int]);
                assert(vecs0.skip(j as int)[0] == vecs0[j as int]);
                assert(batch0.skip(j as int).remove(0) =~= batch0.skip(j + 1));
                assert(vecs0.skip(j as int).remove(0) =~= vecs0.skip(j + 1));
                assert(batch0.take(j + 1) =~= batch0.take(j as int).push(batch0[j as int]));
                assert(vecs0.take(j + 1) =~= vecs0.take(j as int).push(vecs0[j as int]));
            }
            let (index, document) = batch.remove(0);
            let vector = vecs.remove(0);
            entries.push(EmbeddedDocument { index, document, vector });
            j = j + 1;
        }
        proof {
            assert(batch0.take(m as int) =~= batch0);
            assert(vecs0.take(m as int) =~= vecs0);
            assert(all_batches.take(b + 1) =~= all_batches.take(b as int).push(
                all_batches[b as int],
            ));
            assert(all_vectors.take(b + 1) =~= all_vectors.take(b as int).push(
                all_vectors[b as int],
            ));
            assert(batches_view(all_batches.take(b + 1)) =~= batches_view(
                all_batches.take(b as int),
            ).push(batch0));
            assert(vectors_view(all_vectors.take(b + 1)) =~= vectors_view(
                all_vectors.take(b as int),
            ).push(vecs0));
            lemma_flatten_batches_push(batches_view(all_batches.take(b as int)), batch0);
            lemma_flatten_vectors_push(vectors_view(all_vectors.take(b as int)), vecs0);
        }
        b = b + 1;
    }
    proof {
        assert(all_batches.take(total as int) =~= all_batches);
        assert(all_vectors.take(total as int) =~= all_vectors);
    }
    entries
}

/// A document as the augmented-document output style renders it: every
/// original field verbatim, plus the one vector attribute.
#[derive(Debug, PartialEq, Eq)]
pub struct AugmentedDocument {
    pub fields: Vec<(String, JsonValue)>,
    pub vector: Vector,
}

/// Renders entries in the augmented-document style: one output document
/// per entry, in entry order, each keeping every original field verbatim
/// and gaining exactly the one vector attribute.
pub fn render_augmented(entries: Vec<EmbeddedDocument>) -> (out: Vec<AugmentedDocument>)
    ensures
        out@.len() == entries@.len(),
        forall|i: int|
            0 <= i < entries@.len() ==> (#[trigger] out@[i]).fields
                == entries@[i].document.fields && out@[i].vector == entries@[i].vector,
{
    let ghost all: Seq<EmbeddedDocument> = entries@;
    let total = entries.len();
    let mut entries = entries;
    let mut out: Vec<AugmentedDocument> = Vec::new();
    let mut i: usize = 0;
    proof {
        assert(entries@ =~= all.skip(0));
    }
    while i < total
        invariant
            i <= total,
            total == all.len(),
            entries@ == all.skip(i as int),
            out@.len() == i,
            forall|k: int|
                0 <= k < i ==> (#[trigger] out@[k]).fields == all[k].document.fields
                    && out@[k].vector == all[k].vector,
        decreases total - i,
    {
        proof {
            assert(all.skip(i as int)[0] == all[i as int]);
            assert(all.skip(i as int).remove(0) =~= all.skip(i + 1));
        }
        let entry = entries.remove(0);
        out.push(AugmentedDocument { fields: entry.document.fields, vector: entry.vector });
        i = i + 1;
    }
    out
}

/// One point record: the document's zero-based input position as its id,
/// its vector, and the document itself as the payload. Documents never
/// carry a vector attribute of their own — the vector is attached only
/// at output — so the payload holds the original fields and nothing else.
#[derive(Debug, PartialEq, Eq)]
pub struct Point {
    pub id: usize,
    pub vector: Vector,
    pub payload: Document,
}

/// The point-list output style's top-level value.
#[derive(Debug, PartialEq, Eq)]
pub struct PointList {
    pub points: Vec<Point>,
}

/// The two output shapes a run can be rendered into.
#[derive(Debug, Clone, Copy, PartialEq, Eq, Structural)]
pub enum OutputStyle {
    /// A bare array of the input documents, each augmented with its
    /// vector.
    AugmentedDocument,
    /// An object holding explicit point records.
    PointList,
}

/// What rendering a run yields: one value per output style.
#[derive(Debug, PartialEq, Eq)]
pub enum RenderedOutput {
    Documents(Vec<AugmentedDocument>),
    Points(PointList),
}

/// Renders entries in the chosen style: the augmented-document array or
/// the point list, exactly as [`render_augmented`] and [`render_points`]
/// build them.
pub fn render(style: OutputStyle, entries: Vec<EmbeddedDocument>) -> (out: RenderedOutput)
    ensures
        match style {
            OutputStyle::AugmentedDocument => {
                &&& out is Documents
                &&& out->Documents_0@.len() == entries@.len()
                &&& forall|i: int|
                    0 <= i < entries@.len() ==> (#[trigger] out->Documents_0@[i]).fields
                        == entries@[i].document.fields && out->Documents_0@[i].vector
                        == entries@[i].vector
            },
            OutputStyle::PointList => {
                &&& out is Points
                &&& out->Points_0.points@.len() == entries@.len()
                &&& forall|i: int|
                    0 <= i < entries@.len() ==> (#[trigger] out->Points_0.points@[i]).id
                        == entries@[i].index && out->Points_0.points@[i].payload
                        == entries@[i].document && out->Points_0.points@[i].vector
                        == entries@[i].vector
            },
        },
{
    match style {
        OutputStyle::AugmentedDocument => RenderedOutput::Documents(render_augmented(entries)),
        OutputStyle::PointList => RenderedOutput::Points(render_points(entries)),
    }
}

/// Renders entries in the point-list style: one point per entry, in
/// entry order, with the entry's input position as its id, its vector,
/// and the vector-free document as the payload.
pub fn render_points(entries: Vec<EmbeddedDocument>) -> (out: PointList)
    ensures
        out.points@.len() == entries@.len(),
        forall|i: int|
            0 <= i < entries@.len() ==> (#[trigger] out.points@[i]).id == entries@[i].index
                && out.points@[i].payload == entries@[i].document && out.points@[i].vector
                == entries@[i].vector,
{
    let ghost all: Seq<EmbeddedDocument> = entries@;
    let total = entries.len();
    let mut entries = entries;
    let mut points: Vec<Point> = Vec::new();
    let mut i: usize = 0;
    proof {
        assert(entries@ =~= all.skip(0));
    }
    while i < total
        invariant
            i <= total,
            total == all.len(),
            entries@ == all.skip(i as int),
            points@.len() == i,
            forall|k: int|
                0 <= k < i ==> (#[trigger] points@[k]).id == all[k].index && points@[k].payload
                    == all[k].document && points@[k].vector == all[k].vector,
        decreases total - i,
    {
        proof {
            assert(all.skip(i as int)[0] == all[i as int]);
            assert(all.skip(i as int).remove(0) =~= all.skip(i + 1));
        }
        let entry = entries.remove(0);
        points.push(Point { id: entry.index, vector: entry.vector, payload: entry.document });
        i = i + 1;
    }
    PointList { points }
}

} // verus!
