//! Documents — arbitrary string-keyed JSON mappings — and the projection
//! of a document onto the text that is embedded for it: the stringified
//! values of a caller-chosen, ordered list of field names, each present
//! contribution followed by a single space.

use vstd::prelude::*;

use crate::json::{fragment, json_to_string, JsonValue};

verus! {

/// One input document: an ordered list of field-name / value pairs.
/// A lookup takes the first pair with the asked-for name, so documents
/// whose keys repeat still have a well-defined projection.
#[derive(Debug, PartialEq, Eq)]
pub struct Document {
    pub fields: Vec<(String, JsonValue)>,
}

/// The value under `name` in `fields`: the first pair whose key is `name`.
pub open spec fn lookup_field(fields: Seq<(String, JsonValue)>, name: Seq<char>) -> Option<
    JsonValue,
>
    decreases fields.len(),
{
    if fields.len() == 0 {
        None
    } else if fields[0].0@ == name {
        Some(fields[0].1)
    } else {
        lookup_field(fields.drop_first(), name)
    }
}

/// What one requested field name adds to a document's text: the field's
/// fragment followed by one space, or nothing when the field is absent or
/// contributes no fragment.
pub open spec fn contribution(doc: Document, name: Seq<char>) -> Seq<char> {
    match lookup_field(doc.fields@, name) {
        None => Seq::<char>::empty(),
        Some(v) => match fragment(v) {
            None => Seq::<char>::empty(),
            Some(f) => f + " "@,
        },
    }
}

/// The text extracted from a document for an ordered list of field names:
/// the concatenation, in list order, of each name's contribution.
pub open spec fn extracted(doc: Document, names: Seq<String>) -> Seq<char>
    decreases names.len(),
{
    if names.len() == 0 {
        Seq::<char>::empty()
    } else {
        contribution(doc, names[0]@) + extracted(doc, names.drop_first())
    }
}

/// Extraction folds to the left as well as to the right: one more field
/// name appends its contribution to the text of the names before it.
proof fn lemma_extracted_push(doc: Document, names: Seq<String>, name: String)
    ensures
        extracted(doc, names.push(name)) == extracted(doc, names) + contribution(doc, name@),
    decreases names.len(),
{
    if names.len() == 0 {
        assert(names.push(name).drop_first() =~= Seq::<String>::empty());
        assert(names.push(name)[0] == name);
        assert(extracted(doc, Seq::<String>::empty()) == Seq::<char>::empty());
        assert(extracted(doc, names.push(name)) == contribution(doc, name@) + Seq::<
            char,
        >::empty());
        assert(contribution(doc, name@) + Seq::<char>::empty() =~= contribution(doc, name@));
        assert(extracted(doc, names) + contribution(doc, name@) =~= contribution(doc, name@));
    } else {
        assert(names.push(name).drop_first() =~= names.drop_first().push(name));
        assert(names.push(name)[0] == names[0]);
        lemma_extracted_push(doc, names.drop_first(), name);
        assert(contribution(doc, names[0]@) + (extracted(doc, names.drop_first()) + contribution(
            doc,
            name@,
        )) =~= (contribution(doc, names[0]@) + extracted(doc, names.drop_first())) + contribution(
            doc,
            name@,
        ));
    }
}

/// A field list with no entry present in the document — the empty list
/// among them — extracts the empty string.
pub proof fn lemma_extract_all_absent(doc: Document, names: Seq<String>)
    requires
        forall|i: int|
            0 <= i < names.len() ==> lookup_field(doc.fields@, names[i]@) is None,
    ensures
        extracted(doc, names) == Seq::<char>::empty(),
    decreases names.len(),
{
    if names.len() > 0 {
        assert(lookup_field(doc.fields@, names[0]@) is None);
        lemma_extract_all_absent(doc, names.drop_first());
        assert(extracted(doc, names) =~= Seq::<char>::empty());
    }
}

impl Document {
    /// The value the document holds under `name`, if any.
    pub fn get(&self, name: &String) -> (r: Option<&JsonValue>)
        ensures
            match r {
                Some(v) => lookup_field(self.fields@, name@) == Some(*v),
                None => lookup_field(self.fields@, name@) is None,
            },
    {
        let n = self.fields.len();
        let mut i: usize = 0;
        proof {
            assert(self.fields@.skip(0) =~= self.fields@);
        }
        while i < n
            invariant
                i <= n,
                n == self.fields.len(),
                lookup_field(self.fields@, name@) == lookup_field(
                    self.fields@.skip(i as int),
                    name@,
                ),
            decreases n - i,
        {
            let pair = &self.fields[i];
            proof {
                assert(self.fields@.skip(i as int)[0] == self.fields@[i as int]);
                assert(self.fields@.skip(i as int).drop_first() =~= self.fields@.skip(i + 1));
            }
            if pair.0 == *name {
                return Some(&pair.1);
            }
            i = i + 1;
        }
        proof {
            assert(self.fields@.skip(n as int) =~= Seq::<(String, JsonValue)>::empty());
        }
        None
    }

    /// The text the pipeline embeds for this document: each requested
    /// present field's stringified value in field-list order, every
    /// contribution followed by one space. May be empty.
    pub fn text(&self, names: &Vec<String>) -> (t: String)
        ensures
            t@ == extracted(*self, names@),
    {
        let mut out = String::new();
        let n = names.len();
        let mut i: usize = 0;
        while i < n
            invariant
                i <= n,
                n == names.len(),
                out@ == extracted(*self, names@.take(i as int)),
            decreases n - i,
        {
            let name = &names[i];
            if let Some(v) = self.get(name) {
                if let Some(f) = json_to_string(v) {
                    out.append(f.as_str());
                    out.append(" ");
                }
            }
            proof {
                lemma_extracted_push(*self, names@.take(i as int), names@[i as int]);
                assert(names@.take(i + 1) =~= names@.take(i as int).push(names@[i as int]));
            }
            i = i + 1;
        }
        proof {
            assert(names@.take(n as int) =~= names@);
        }
        out
    }
}

} // verus!
