use vstd::prelude::*;

verus! {

/// A loosely typed attribute value. A number is held by its decimal text.
#[derive(Debug)]
pub enum Value {
    Null,
    Bool(bool),
    Number(String),
    Str(String),
    Array(Vec<Value>),
    Object(Vec<Field>),
}

/// One attribute of a document: its name and its value.
#[derive(Debug)]
pub struct Field {
    pub name: String,
    pub value: Value,
}

/// A document as it arrives: its attributes in the order given.
#[derive(Debug)]
pub struct Document {
    pub fields: Vec<Field>,
}

/// The text that an identifier value stands for: strings and numbers have one,
/// every other kind of value has none.
pub open spec fn value_text(v: Value) -> Option<Seq<char>> {
    match v {
        Value::Number(n) => Some(n@),
        Value::Str(s) => Some(s@),
        _ => None,
    }
}

/// The internal document-id that the hash of the identifier text gives.
pub uninterp spec fn document_id_of(s: Seq<char>) -> u64;

/// Relies on std's `BuildHasher::hash_one` with the unkeyed `DefaultHasher`:
/// the hash of a string depends on that string alone.
#[verifier::external_body]
fn hash_identifier(s: &String) -> (r: u64)
    ensures
        r == document_id_of(s@),
{
    let b = std::hash::BuildHasherDefault::<std::collections::hash_map::DefaultHasher>::default();
    std::hash::BuildHasher::hash_one(&b, s)
}

/// The text of an identifier value, if it has one.
pub fn value_to_string(v: &Value) -> (r: Option<String>)
    ensures
        r is Some <==> value_text(*v) is Some,
        r is Some ==> r->Some_0@ == value_text(*v)->Some_0,
{
    match v {
        Value::Number(n) => Some(n.clone()),
        Value::Str(s) => Some(s.clone()),
        _ => None,
    }
}

/// The internal document-id of an identifier text.
pub fn compute_document_id(identifier: &String) -> (r: u64)
    ensures
        r == document_id_of(identifier@),
{
    hash_identifier(identifier)
}

/// The position of the last field called `name`, or -1 where there is none.
pub open spec fn field_position(fields: Seq<Field>, name: Seq<char>) -> int
    decreases fields.len(),
{
    if fields.len() == 0 {
        -1
    } else if fields.last().name@ == name {
        fields.len() - 1
    } else {
        field_position(fields.drop_last(), name)
    }
}

/// The document-id of a document under the identifier attribute `ident`: none
/// where the attribute is missing or its value has no text.
pub open spec fn document_key(fields: Seq<Field>, ident: Seq<char>) -> Option<u64> {
    let p = field_position(fields, ident);
    if p < 0 {
        None
    } else {
        match value_text(fields[p].value) {
            Some(t) => Some(document_id_of(t)),
            None => None,
        }
    }
}

/// `field_position` is -1 or the position of a field of that name.
pub proof fn lemma_field_position_bounds(fields: Seq<Field>, name: Seq<char>)
    ensures
        -1 <= field_position(fields, name) < fields.len(),
        field_position(fields, name) >= 0 ==> fields[field_position(fields, name)].name@ == name,
    decreases fields.len(),
{
    if fields.len() > 0 {
        lemma_field_position_bounds(fields.drop_last(), name);
    }
}

/// Finds the last field called `name`.
pub fn find_field(fields: &Vec<Field>, name: &String) -> (r: Option<usize>)
    ensures
        r is None ==> field_position(fields@, name@) == -1,
        r is Some ==> r->Some_0 as int == field_position(fields@, name@),
{
    let mut i: usize = fields.len();
    assert(fields@.subrange(0, i as int) =~= fields@);
    while i > 0
        invariant
            i <= fields.len(),
            field_position(fields@, name@) == field_position(fields@.subrange(0, i as int), name@),
        decreases i,
    {
        assert(fields@.subrange(0, i as int).drop_last() =~= fields@.subrange(0, i - 1));
        if fields[i - 1].name == *name {
            return Some(i - 1);
        }
        i = i - 1;
    }
    None
}

/// The document-id of a document under the identifier attribute `ident`.
pub fn document_key_of(fields: &Vec<Field>, ident: &String) -> (r: Option<u64>)
    ensures
        r == document_key(fields@, ident@),
{
    proof {
        lemma_field_position_bounds(fields@, ident@);
    }
    match find_field(fields, ident) {
        None => None,
        Some(p) => match value_to_string(&fields[p].value) {
            Some(t) => Some(compute_document_id(&t)),
            None => None,
        },
    }
}

} // verus!
