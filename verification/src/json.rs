//! A plain model of JSON values and documents, and the projection of a
//! value onto the single indexable string that the embedding pipeline
//! feeds to a backend.
//!
//! Numbers are carried as their canonical decimal rendering so that the
//! stringification below is exact; the pipeline never does arithmetic on
//! them.

use vstd::prelude::*;

verus! {

/// A JSON value: the unit of data inside a document's fields.
#[derive(Debug, PartialEq, Eq)]
pub enum JsonValue {
    Null,
    Boolean(bool),
    /// A number, held as its canonical decimal text.
    Number(String),
    Text(String),
    List(Vec<JsonValue>),
    Object(Vec<(String, JsonValue)>),
}

/// The indexable fragment of a single JSON value:
/// - a string contributes itself;
/// - a boolean or number contributes its textual form;
/// - a list contributes its elements' fragments joined by single spaces,
///   or nothing when no element contributes;
/// - null and nested objects contribute nothing.
pub open spec fn fragment(v: JsonValue) -> Option<Seq<char>>
    decreases v,
{
    match v {
        JsonValue::Null => None,
        JsonValue::Boolean(b) => Some(if b { "true"@ } else { "false"@ }),
        JsonValue::Number(s) => Some(s@),
        JsonValue::Text(s) => Some(s@),
        JsonValue::List(items) => join_fragments(items@),
        JsonValue::Object(_) => None,
    }
}

/// The fragments of a sequence of values, joined by single spaces;
/// `None` when no element contributes one.
pub open spec fn join_fragments(items: Seq<JsonValue>) -> Option<Seq<char>>
    decreases items,
{
    if items.len() == 0 {
        None
    } else {
        merge_fragments(fragment(items[0]), join_fragments(items.drop_first()))
    }
}

/// Joins two optional fragments with a single space when both are present.
pub open spec fn merge_fragments(a: Option<Seq<char>>, b: Option<Seq<char>>) -> Option<
    Seq<char>,
> {
    match (a, b) {
        (None, r) => r,
        (Some(f), None) => Some(f),
        (Some(f), Some(r)) => Some(f + " "@ + r),
    }
}

/// Joining fragments folds to the left as well as to the right: appending
/// one more value merges its fragment onto the join of the values before it.
proof fn lemma_join_fragments_push(items: Seq<JsonValue>, v: JsonValue)
    ensures
        join_fragments(items.push(v)) == merge_fragments(join_fragments(items), fragment(v)),
    decreases items.len(),
{
    if items.len() == 0 {
        assert(items.push(v).drop_first() =~= Seq::<JsonValue>::empty());
        assert(items.push(v)[0] == v);
        assert(join_fragments(items.push(v)) == merge_fragments(fragment(v), None));
    } else {
        assert(items.push(v).drop_first() =~= items.drop_first().push(v));
        assert(items.push(v)[0] == items[0]);
        lemma_join_fragments_push(items.drop_first(), v);
        let a = fragment(items[0]);
        let b = join_fragments(items.drop_first());
        let c = fragment(v);
        assert(join_fragments(items.push(v)) == merge_fragments(a, merge_fragments(b, c)));
        assert(join_fragments(items) == merge_fragments(a, b));
        if a is Some && b is Some && c is Some {
            assert(a->0 + " "@ + (b->0 + " "@ + c->0) =~= (a->0 + " "@ + b->0) + " "@ + c->0);
        }
        assert(merge_fragments(a, merge_fragments(b, c)) == merge_fragments(
            merge_fragments(a, b),
            c,
        ));
    }
}

/// Turns a JSON value into the string under which it is indexed, exactly
/// the value's fragment; `None` when the value contributes no text.
pub fn json_to_string(value: &JsonValue) -> (r: Option<String>)
    ensures
        match r {
            Some(s) => fragment(*value) == Some(s@),
            None => fragment(*value) is None,
        },
    decreases *value,
{
    match value {
        JsonValue::Null => None,
        JsonValue::Boolean(b) => Some(
            String::from_str(
                if *b {
                    "true"
                } else {
                    "false"
                },
            ),
        ),
        JsonValue::Number(s) => Some(s.clone()),
        JsonValue::Text(s) => Some(s.clone()),
        JsonValue::List(items) => {
            let mut acc: Option<String> = None;
            let mut i: usize = 0;
            while i < items.len()
                invariant
                    i <= items.len(),
                    (*value == JsonValue::List(*items)),
                    match acc {
                        Some(s) => join_fragments(items@.take(i as int)) == Some(s@),
                        None => join_fragments(items@.take(i as int)) is None,
                    },
                decreases items.len() - i,
            {
                proof {
                    assert(decreases_to!(*value => value->List_0));
                    assert(decreases_to!(value->List_0 => value->List_0@[i as int]));
                    assert(value->List_0@[i as int] == items@[i as int]);
                }
                let f = json_to_string(&items[i]);
                proof {
                    lemma_join_fragments_push(items@.take(i as int), items@[i as int]);
                    assert(items@.take(i + 1) =~= items@.take(i as int).push(items@[i as int]));
                }
                acc = match (acc, f) {
                    (None, r) => r,
                    (Some(s), None) => Some(s),
                    (Some(s), Some(g)) => {
                        let mut joined = s;
                        joined.append(" ");
                        joined.append(g.as_str());
                        Some(joined)
                    },
                };
                i = i + 1;
            }
            proof {
                assert(items@.take(items@.len() as int) =~= items@);
            }
            acc
        },
        JsonValue::Object(_) => None,
    }
}

} // verus!
