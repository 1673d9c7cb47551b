use vstd::prelude::*;
use crate::acl::{ACL, ApiKeys};
use crate::index::{Index, DocModel, doc_position, ids_unique, lemma_doc_position, find_document};
use crate::document::Field;
use crate::routes::{ResponseError, check_access, refusal};

verus! {

/// Whether the ids are in strictly ascending order.
pub open spec fn strictly_ascending(s: Seq<u64>) -> bool {
    forall|i: int, j: int| 0 <= i < j < s.len() ==> #[trigger] s[i] < #[trigger] s[j]
}

/// Whether some document has id `k`.
pub open spec fn has_doc(docs: Seq<DocModel>, k: u64) -> bool {
    exists|i: int| 0 <= i < docs.len() && #[trigger] docs[i].0 == k
}

/// The ids of the stored documents, in ascending order.
pub fn sorted_document_ids(index: &Index) -> (r: Vec<u64>)
    requires
        index.wf(),
    ensures
        strictly_ascending(r@),
        r@.len() == index.docs().len(),
        forall|k: u64| r@.contains(k) <==> has_doc(index.docs(), k),
{
    let ghost docs = index.docs();
    let mut r: Vec<u64> = Vec::new();
    let mut i: usize = 0;
    while i < index.documents.len()
        invariant
            docs == index.docs(),
            ids_unique(docs),
            i <= docs.len(),
            r@.len() == i,
            strictly_ascending(r@),
            forall|k: u64|
                r@.contains(k) <==> exists|j: int| 0 <= j < i && #[trigger] docs[j].0 == k,
        decreases index.documents.len() - i,
    {
        let k = index.documents[i].id;
        assert(docs[i as int].0 == k);
        assert(!r@.contains(k)) by {
            if r@.contains(k) {
                let j = choose|j: int| 0 <= j < i && #[trigger] docs[j].0 == k;
                assert(docs[j].0 == docs[i as int].0);
            }
        }
        let mut p: usize = 0;
        while p < r.len() && r[p] < k
            invariant
                p <= r@.len(),
                forall|q: int| 0 <= q < p ==> #[trigger] r@[q] < k,
            decreases r.len() - p,
        {
            p = p + 1;
        }
        assert(forall|q: int| p <= q < r@.len() ==> #[trigger] r@[q] > k) by {
            assert forall|q: int| p <= q < r@.len() implies #[trigger] r@[q] > k by {
                if q > p {
                    assert(r@[p as int] < r@[q]);
                }
                assert(r@[q] != k);
                assert(r@[p as int] >= k);
            }
        }
        let ghost before = r@;
        r.insert(p, k);
        assert(r@ == before.insert(p as int, k));
        assert forall|a: int, b: int| 0 <= a < b < r@.len() implies #[trigger] r@[a] < #[trigger] r@[b] by {
            if a < p && b < p {
                assert(before[a] < before[b]);
            } else if a < p && b == p {
            } else if a < p && b > p {
                assert(before[a] < before[b - 1]);
            } else if a == p {
                assert(before[b - 1] > k);
            } else {
                assert(before[a - 1] < before[b - 1]);
            }
        }
        assert forall|x: u64| r@.contains(x) <==> exists|j: int| 0 <= j < i + 1 && #[trigger] docs[j].0 == x by {
            if r@.contains(x) {
                let q = choose|q: int| 0 <= q < r@.len() && r@[q] == x;
                if q < p {
                    assert(before[q] == x);
                    assert(before.contains(x));
                } else if q > p {
                    assert(before[q - 1] == x);
                    assert(before.contains(x));
                } else {
                    assert(docs[i as int].0 == x);
                }
            }
            if exists|j: int| 0 <= j < i + 1 && #[trigger] docs[j].0 == x {
                let j = choose|j: int| 0 <= j < i + 1 && #[trigger] docs[j].0 == x;
                if j < i {
                    assert(before.contains(x));
                    let q = choose|q: int| 0 <= q < before.len() && before[q] == x;
                    if q < p {
                        assert(r@[q] == x);
                    } else {
                        assert(r@[q + 1] == x);
                    }
                } else {
                    assert(r@[p as int] == x);
                }
            }
        }
        i = i + 1;
    }
    r
}


/// Whether `name` is one of `names`.
pub open spec fn named(names: Seq<String>, name: Seq<char>) -> bool {
    exists|i: int| 0 <= i < names.len() && (#[trigger] names[i])@ == name
}

/// The attributes whose name is one of `names`, in stored order.
pub open spec fn kept(fields: Seq<Field>, names: Seq<String>) -> Seq<Field>
    decreases fields.len(),
{
    if fields.len() == 0 {
        Seq::empty()
    } else {
        let before = kept(fields.drop_last(), names);
        if named(names, fields.last().name@) {
            before.push(fields.last())
        } else {
            before
        }
    }
}

fn is_named(names: &Vec<String>, name: &String) -> (r: bool)
    ensures
        r == named(names@, name@),
{
    let mut i: usize = 0;
    while i < names.len()
        invariant
            i <= names@.len(),
            forall|j: int| 0 <= j < i ==> (#[trigger] names@[j])@ != name@,
        decreases names.len() - i,
    {
        if names[i] == *name {
            return true;
        }
        i = i + 1;
    }
    false
}

/// The attributes of a document that are asked for, in stored order.
pub fn retrieved_fields<'a>(fields: &'a Vec<Field>, names: &Vec<String>) -> (r: Vec<&'a Field>)
    ensures
        derefs(r@) == kept(fields@, names@),
{
    let mut r: Vec<&'a Field> = Vec::new();
    let mut i: usize = 0;
    assert(fields@.subrange(0, 0) =~= Seq::<Field>::empty());
    while i < fields.len()
        invariant
            i <= fields@.len(),
            r@.len() == kept(fields@.subrange(0, i as int), names@).len(),
            forall|a: int| 0 <= a < r@.len() ==> *(#[trigger] r@[a]) == kept(fields@.subrange(0, i as int), names@)[a],
        decreases fields.len() - i,
    {
        assert(fields@.subrange(0, i + 1).drop_last() =~= fields@.subrange(0, i as int));
        if is_named(names, &fields[i].name) {
            r.push(&fields[i]);
        }
        i = i + 1;
    }
    assert(fields@.subrange(0, i as int) =~= fields@);
    assert(derefs(r@) =~= kept(fields@, names@));
    r
}

/// The attributes that a document shows: all of them, or those asked for.
pub open spec fn shown(fields: Seq<Field>, attributes: Option<Vec<String>>) -> Seq<Field> {
    match attributes {
        None => fields,
        Some(n) => kept(fields, n@),
    }
}

/// The values behind a sequence of references.
pub open spec fn derefs(s: Seq<&Field>) -> Seq<Field> {
    s.map_values(|f: &Field| *f)
}

/// Every attribute of a document, in stored order.
pub fn all_fields<'a>(fields: &'a Vec<Field>) -> (r: Vec<&'a Field>)
    ensures
        derefs(r@) == fields@,
{
    let mut r: Vec<&'a Field> = Vec::new();
    let mut i: usize = 0;
    while i < fields.len()
        invariant
            i <= fields@.len(),
            r@.len() == i,
            forall|a: int| 0 <= a < i ==> *(#[trigger] r@[a]) == fields@[a],
        decreases fields.len() - i,
    {
        r.push(&fields[i]);
        i = i + 1;
    }
    assert(derefs(r@) =~= fields@);
    r
}

/// The attributes of a document that are shown.
pub fn shown_fields<'a>(fields: &'a Vec<Field>, attributes: &Option<Vec<String>>) -> (r: Vec<&'a Field>)
    ensures
        derefs(r@) == shown(fields@, *attributes),
{
    match attributes {
        None => all_fields(fields),
        Some(names) => retrieved_fields(fields, names),
    }
}

/// The window that `offset` and `limit` select, both counted in documents.
pub open spec fn window(len: nat, offset: nat, limit: nat) -> (int, int) {
    let start = if offset < len { offset as int } else { len as int };
    let end = if start + limit < len { start + limit } else { len as int };
    (start, end)
}

/// Lists the stored documents by ascending document-id, skipping `offset`
/// of them (none by default) and keeping at most `limit` (twenty by
/// default).
pub fn get_all_documents<'a>(
    index: &'a Index,
    keys: &ApiKeys,
    credential: Option<String>,
    offset: Option<usize>,
    limit: Option<usize>,
    attributes_to_retrieve: Option<Vec<String>>,
) -> (r: Result<Vec<Vec<&'a Field>>, ResponseError>)
    requires
        index.wf(),
    ensures
        refusal(*keys, credential, ACL::Public) is Some ==> r == Err::<Vec<Vec<&Field>>, ResponseError>(
            refusal(*keys, credential, ACL::Public)->Some_0,
        ),
        refusal(*keys, credential, ACL::Public) is None ==> r is Ok && ({
            let o = match offset {
                Some(o) => o as nat,
                None => 0,
            };
            let l = match limit {
                Some(l) => l as nat,
                None => 20,
            };
            let (start, end) = window(index.docs().len(), o, l);
            let out = r->Ok_0@;
            exists|ids: Seq<u64>|
                #![trigger strictly_ascending(ids)]
                {
                    &&& strictly_ascending(ids)
                    &&& ids.len() == index.docs().len()
                    &&& forall|k: u64| ids.contains(k) <==> has_doc(index.docs(), k)
                    &&& out.len() == end - start
                    &&& forall|i: int|
                        0 <= i < out.len() ==> derefs((#[trigger] out[i])@) == shown(
                            index.documents@[doc_position(index.docs(), ids[start + i])].fields@,
                            attributes_to_retrieve,
                        )
                }
        }),
{
    if let Err(e) = check_access(keys, credential, ACL::Public) {
        return Err(e);
    }
    let o: usize = match offset {
        Some(o) => o,
        None => 0,
    };
    let l: usize = match limit {
        Some(l) => l,
        None => 20,
    };
    let ids = sorted_document_ids(index);
    let start: usize = if o < ids.len() { o } else { ids.len() };
    let end: usize = if l < ids.len() - start { start + l } else { ids.len() };
    let mut out: Vec<Vec<&'a Field>> = Vec::new();
    let mut i: usize = start;
    while i < end
        invariant
            start <= i <= end <= ids@.len(),
            forall|k: u64| ids@.contains(k) <==> has_doc(index.docs(), k),
            out@.len() == i - start,
            forall|a: int| 0 <= a < out@.len() ==> derefs((#[trigger] out@[a])@) == shown(
                index.documents@[doc_position(index.docs(), ids@[start + a])].fields@,
                attributes_to_retrieve,
            ),
        decreases end - i,
    {
        let k = ids[i];
        assert(ids@.contains(k));
        proof {
            lemma_doc_position(index.docs(), k);
            let j = choose|j: int| 0 <= j < index.docs().len() && #[trigger] index.docs()[j].0 == k;
        }
        match find_document(&index.documents, k) {
            Some(p) => {
                out.push(shown_fields(&index.documents[p].fields, &attributes_to_retrieve));
            },
            None => {
                assert(false);
            },
        }
        i = i + 1;
    }
    assert(strictly_ascending(ids@));
    Ok(out)
}

} // verus!
