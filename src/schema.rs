use vstd::prelude::*;
use crate::document::{Document, Field};

verus! {

/// One attribute of a schema with the way it is used.
#[derive(Debug)]
pub struct SchemaAttribute {
    pub name: String,
    pub displayed: bool,
    pub indexed: bool,
}

/// The attribute layout of an index and its identifier attribute.
#[derive(Debug)]
pub struct Schema {
    pub identifier: String,
    pub attributes: Vec<SchemaAttribute>,
}

/// Lower-case form of a text, as Unicode defines it.
pub uninterp spec fn lower_of(s: Seq<char>) -> Seq<char>;

/// Relies on std's `str::to_lowercase`, whose result depends on the characters
/// alone; the characters are collected one for one.
#[verifier::external_body]
fn lowercase(s: &String) -> (r: Vec<char>)
    ensures
        r@ == lower_of(s@),
{
    s.to_lowercase().chars().collect()
}

/// Whether `s` holds the two characters `i`, `d` next to each other.
pub open spec fn has_id(s: Seq<char>) -> bool {
    exists|i: int| 0 <= i && i + 1 < s.len() && #[trigger] s[i] == 'i' && s[i + 1] == 'd'
}

/// Whether the text holds the substring `id`.
pub fn contains_id(s: &Vec<char>) -> (r: bool)
    ensures
        r == has_id(s@),
{
    let mut i: usize = 0;
    while i < s.len() && i + 1 < s.len()
        invariant
            i <= s@.len(),
            forall|j: int| 0 <= j < i && j + 1 < s@.len() ==> !(#[trigger] s@[j] == 'i' && s@[j + 1] == 'd'),
        decreases s.len() - i,
    {
        if s[i] == 'i' && s[i + 1] == 'd' {
            return true;
        }
        i = i + 1;
    }
    false
}

/// The position of the first of the lower-cased names that holds `id`.
pub fn identifier_position(lowered: &Vec<Vec<char>>) -> (r: Option<usize>)
    ensures
        r is None ==> forall|j: int| 0 <= j < lowered@.len() ==> !has_id(#[trigger] lowered@[j]@),
        r is Some ==> r->Some_0 < lowered@.len() && has_id(lowered@[r->Some_0 as int]@) && forall|
            j: int,
        | 0 <= j < r->Some_0 ==> !has_id(#[trigger] lowered@[j]@),
{
    let mut i: usize = 0;
    while i < lowered.len()
        invariant
            i <= lowered@.len(),
            forall|j: int| 0 <= j < i ==> !has_id(#[trigger] lowered@[j]@),
        decreases lowered.len() - i,
    {
        if contains_id(&lowered[i]) {
            return Some(i);
        }
        i = i + 1;
    }
    None
}

/// The lower-cased name of each field.
pub open spec fn lowered_names(fields: Seq<Field>) -> Seq<Seq<char>> {
    fields.map_values(|f: Field| lower_of(f.name@))
}

/// The schema that a first document gives: every attribute displayed and
/// indexed, in the document's order.
pub open spec fn inferred_from(fields: Seq<Field>, s: Schema) -> bool {
    &&& s.attributes@.len() == fields.len()
    &&& forall|j: int|
        0 <= j < fields.len() ==> (#[trigger] s.attributes@[j]).name@ == fields[j].name@
            && s.attributes@[j].displayed && s.attributes@[j].indexed
}

/// Whether some attribute name, lower-cased, holds `id`.
pub open spec fn inferable(fields: Seq<Field>) -> bool {
    exists|j: int| 0 <= j < fields.len() && has_id(#[trigger] lowered_names(fields)[j])
}

/// Whether `s` is the schema inferred from `fields`: its identifier is the
/// first attribute whose lower-cased name holds `id`.
pub open spec fn schema_of(fields: Seq<Field>, s: Schema) -> bool {
    &&& exists|p: int|
        0 <= p < fields.len() && has_id(#[trigger] lowered_names(fields)[p]) && (forall|j: int|
            0 <= j < p ==> !has_id(#[trigger] lowered_names(fields)[j])) && s.identifier@
            == fields[p].name@
    &&& inferred_from(fields, s)
}

/// Infers a schema from a sample document: its identifier is the first
/// attribute whose lower-cased name holds `id`; there is none where no name
/// does.
pub fn infered_schema(document: &Document) -> (r: Option<Schema>)
    ensures
        r is None <==> !inferable(document.fields@),
        r is Some ==> schema_of(document.fields@, r->Some_0),
{
    let fields = &document.fields;
    let mut lowered: Vec<Vec<char>> = Vec::new();
    let mut k: usize = 0;
    while k < fields.len()
        invariant
            k <= fields@.len(),
            lowered@.len() == k,
            forall|j: int| 0 <= j < k ==> (#[trigger] lowered@[j])@ == lower_of(fields@[j].name@),
        decreases fields.len() - k,
    {
        lowered.push(lowercase(&fields[k].name));
        k = k + 1;
    }
    assert(forall|j: int| 0 <= j < fields@.len() ==> lowered_names(fields@)[j] == lowered@[j]@);
    match identifier_position(&lowered) {
        None => None,
        Some(p) => {
            let mut attributes: Vec<SchemaAttribute> = Vec::new();
            let mut i: usize = 0;
            while i < fields.len()
                invariant
                    i <= fields@.len(),
                    attributes@.len() == i,
                    forall|j: int|
                        0 <= j < i ==> (#[trigger] attributes@[j]).name@ == fields@[j].name@
                            && attributes@[j].displayed && attributes@[j].indexed,
                decreases fields.len() - i,
            {
                attributes.push(
                    SchemaAttribute { name: fields[i].name.clone(), displayed: true, indexed: true },
                );
                i = i + 1;
            }
            let schema = Schema { identifier: fields[p].name.clone(), attributes };
            assert(has_id(lowered_names(fields@)[p as int]));
            Some(schema)
        },
    }
}

} // verus!
