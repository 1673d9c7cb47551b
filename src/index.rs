use vstd::prelude::*;
use crate::document::{
    Document, Field, field_position, document_key, find_field, document_key_of,
    lemma_field_position_bounds,
};
use crate::schema::{Schema, infered_schema, inferable, schema_of};

verus! {

/// A stored document: its internal document-id and its attributes.
#[derive(Debug)]
pub struct StoredDocument {
    pub id: u64,
    pub fields: Vec<Field>,
}

/// The lifecycle of an accepted update.
#[derive(Clone, Copy, Debug, PartialEq, Eq, Structural)]
pub enum UpdateStatus {
    Enqueued,
    Processed,
    Failed,
}

/// What the engine reports once it is done with an update.
#[derive(Clone, Copy, Debug, PartialEq, Eq, Structural)]
pub enum ProcessingOutcome {
    Processed,
    Failed,
}

/// A staged mutation batch, waiting to be applied.
#[derive(Debug)]
pub enum StagedUpdate {
    DocumentsAddition(Vec<Document>),
    DocumentsPartialAddition(Vec<Document>),
    DocumentsDeletion(Vec<u64>),
    ClearAll,
}

/// Why the pipeline refused a mutation.
#[derive(Clone, Copy, Debug, PartialEq, Eq, Structural)]
pub enum PipelineError {
    /// The index has no schema and none can be inferred from the batch.
    SchemaInferenceFailed,
    /// Every update-id has been handed out.
    UpdateIdsExhausted,
}

/// A named collection of documents with its schema and its sequence of
/// updates. The update-id of the `i`-th accepted update is `i`; the last
/// `pending.len()` of them are still waiting to be applied, in order.
#[derive(Debug)]
pub struct Index {
    pub schema: Option<Schema>,
    pub documents: Vec<StoredDocument>,
    pub statuses: Vec<UpdateStatus>,
    pub pending: Vec<StagedUpdate>,
}

/// A document as the model sees it: its document-id and its attributes.
pub type DocModel = (u64, Seq<Field>);

pub open spec fn docs_view(docs: Seq<StoredDocument>) -> Seq<DocModel> {
    docs.map_values(|d: StoredDocument| (d.id, d.fields@))
}

/// The position of the last document with id `k`, or -1 where there is none.
pub open spec fn doc_position(docs: Seq<DocModel>, k: u64) -> int
    decreases docs.len(),
{
    if docs.len() == 0 {
        -1
    } else if docs.last().0 == k {
        docs.len() - 1
    } else {
        doc_position(docs.drop_last(), k)
    }
}

/// No two stored documents share a document-id.
pub open spec fn ids_unique(docs: Seq<DocModel>) -> bool {
    forall|i: int, j: int| 0 <= i < j < docs.len() ==> #[trigger] docs[i].0 != #[trigger] docs[j].0
}

/// Sets one attribute: replaces the value of an attribute of that name, or
/// appends it.
pub open spec fn set_field(fields: Seq<Field>, f: Field) -> Seq<Field> {
    let p = field_position(fields, f.name@);
    if p < 0 {
        fields.push(f)
    } else {
        fields.update(p, f)
    }
}

/// Merges incoming attributes into existing ones, one after the other.
pub open spec fn merge_fields(old: Seq<Field>, new: Seq<Field>) -> Seq<Field>
    decreases new.len(),
{
    if new.len() == 0 {
        old
    } else {
        set_field(merge_fields(old, new.drop_last()), new.last())
    }
}

/// Writes a document under id `k`: a new id is appended; an existing one is
/// replaced wholesale, or merged into where `partial` holds.
pub open spec fn upsert(docs: Seq<DocModel>, k: u64, fields: Seq<Field>, partial: bool) -> Seq<
    DocModel,
> {
    let p = doc_position(docs, k);
    if p < 0 {
        docs.push((k, fields))
    } else if partial {
        docs.update(p, (k, merge_fields(docs[p].1, fields)))
    } else {
        docs.update(p, (k, fields))
    }
}

/// Writes each document of a batch in turn; a document without an identifier
/// is skipped.
pub open spec fn write_batch(
    docs: Seq<DocModel>,
    batch: Seq<Document>,
    ident: Option<Seq<char>>,
    partial: bool,
) -> Seq<DocModel>
    decreases batch.len(),
{
    if batch.len() == 0 {
        docs
    } else {
        let before = write_batch(docs, batch.drop_last(), ident, partial);
        let d = batch.last();
        match ident {
            None => before,
            Some(id) => match document_key(d.fields@, id) {
                None => before,
                Some(k) => upsert(before, k, d.fields@, partial),
            },
        }
    }
}

/// Removes the document with id `k`, if there is one.
pub open spec fn remove_doc(docs: Seq<DocModel>, k: u64) -> Seq<DocModel> {
    let p = doc_position(docs, k);
    if p < 0 {
        docs
    } else {
        docs.remove(p)
    }
}

/// Removes the documents of each id in turn.
pub open spec fn remove_all(docs: Seq<DocModel>, ids: Seq<u64>) -> Seq<DocModel>
    decreases ids.len(),
{
    if ids.len() == 0 {
        docs
    } else {
        remove_doc(remove_all(docs, ids.drop_last()), ids.last())
    }
}

/// The documents after a staged update has been applied.
pub open spec fn apply_update(docs: Seq<DocModel>, u: StagedUpdate, ident: Option<Seq<char>>) -> Seq<
    DocModel,
> {
    match u {
        StagedUpdate::DocumentsAddition(b) => write_batch(docs, b@, ident, false),
        StagedUpdate::DocumentsPartialAddition(b) => write_batch(docs, b@, ident, true),
        StagedUpdate::DocumentsDeletion(ids) => remove_all(docs, ids@),
        StagedUpdate::ClearAll => Seq::empty(),
    }
}

/// The text of an optional string.
pub open spec fn text_of(o: Option<String>) -> Option<Seq<char>> {
    match o {
        Some(s) => Some(s@),
        None => None,
    }
}

pub open spec fn schema_ident(s: Option<Schema>) -> Option<Seq<char>> {
    match s {
        Some(s) => Some(s.identifier@),
        None => None,
    }
}

/// `doc_position` is -1 exactly where no document has the id, else a
/// position of that id.
pub proof fn lemma_doc_position(docs: Seq<DocModel>, k: u64)
    ensures
        -1 <= doc_position(docs, k) < docs.len(),
        doc_position(docs, k) >= 0 ==> docs[doc_position(docs, k)].0 == k,
        doc_position(docs, k) == -1 ==> forall|i: int| 0 <= i < docs.len() ==> #[trigger] docs[i].0 != k,
    decreases docs.len(),
{
    if docs.len() > 0 {
        lemma_doc_position(docs.drop_last(), k);
        if doc_position(docs, k) == -1 {
            assert forall|i: int| 0 <= i < docs.len() implies #[trigger] docs[i].0 != k by {
                if i < docs.len() - 1 {
                    assert(docs.drop_last()[i] == docs[i]);
                }
            }
        }
    }
}

/// Where ids are unique, the position of an id is the one document that
/// holds it.
pub proof fn lemma_doc_position_unique(docs: Seq<DocModel>, k: u64, i: int)
    requires
        ids_unique(docs),
        0 <= i < docs.len(),
        docs[i].0 == k,
    ensures
        doc_position(docs, k) == i,
{
    lemma_doc_position(docs, k);
}

/// Writing a document keeps ids unique.
pub proof fn lemma_upsert_unique(docs: Seq<DocModel>, k: u64, fields: Seq<Field>, partial: bool)
    requires
        ids_unique(docs),
    ensures
        ids_unique(upsert(docs, k, fields, partial)),
{
    lemma_doc_position(docs, k);
}

/// Removing a document keeps ids unique and leaves none of that id.
pub proof fn lemma_remove_unique(docs: Seq<DocModel>, k: u64)
    requires
        ids_unique(docs),
    ensures
        ids_unique(remove_doc(docs, k)),
        doc_position(remove_doc(docs, k), k) == -1,
{
    lemma_doc_position(docs, k);
    let r = remove_doc(docs, k);
    lemma_doc_position(r, k);
    if doc_position(r, k) >= 0 {
        let q = doc_position(r, k);
        let p = doc_position(docs, k);
        if q < p {
            assert(r[q] == docs[q]);
        } else {
            assert(r[q] == docs[q + 1]);
        }
    }
    assert forall|i: int, j: int| 0 <= i < j < r.len() implies #[trigger] r[i].0 != #[trigger] r[j].0 by {
        let p = doc_position(docs, k);
        if p >= 0 {
            let ii = if i < p { i } else { i + 1 };
            let jj = if j < p { j } else { j + 1 };
            assert(r[i] == docs[ii]);
            assert(r[j] == docs[jj]);
        }
    }
}


/// Finds the last stored document with id `k`.
pub fn find_document(docs: &Vec<StoredDocument>, k: u64) -> (r: Option<usize>)
    ensures
        r is None ==> doc_position(docs_view(docs@), k) == -1,
        r is Some ==> r->Some_0 as int == doc_position(docs_view(docs@), k),
{
    let ghost v = docs_view(docs@);
    let mut i: usize = docs.len();
    assert(v.subrange(0, i as int) =~= v);
    while i > 0
        invariant
            i <= docs@.len(),
            v == docs_view(docs@),
            doc_position(v, k) == doc_position(v.subrange(0, i as int), k),
        decreases i,
    {
        assert(v.subrange(0, i as int).drop_last() =~= v.subrange(0, i - 1));
        if docs[i - 1].id == k {
            return Some(i - 1);
        }
        i = i - 1;
    }
    None
}

/// Sets one attribute of a document.
pub fn put_field(fields: &mut Vec<Field>, f: Field)
    ensures
        final(fields)@ == set_field(old(fields)@, f),
{
    proof {
        lemma_field_position_bounds(fields@, f.name@);
    }
    match find_field(fields, &f.name) {
        None => fields.push(f),
        Some(p) => {
            fields.remove(p);
            fields.insert(p, f);
            assert(fields@ =~= set_field(old(fields)@, f));
        },
    }
}

/// Merges incoming attributes into a document's attributes.
pub fn merge_into(fields: &mut Vec<Field>, new: Vec<Field>)
    ensures
        final(fields)@ == merge_fields(old(fields)@, new@),
{
    let ghost orig = new@;
    let ghost start = fields@;
    let mut new = new;
    let n = new.len();
    let mut k: usize = 0;
    assert(orig.subrange(0, 0) =~= Seq::<Field>::empty());
    assert(new@ =~= orig.subrange(0, orig.len() as int));
    while new.len() > 0
        invariant
            k + new@.len() == orig.len(),
            orig.len() == n,
            new@ =~= orig.subrange(k as int, orig.len() as int),
            fields@ == merge_fields(start, orig.subrange(0, k as int)),
        decreases new.len(),
    {
        let f = new.remove(0);
        assert(orig.subrange(0, k + 1).drop_last() =~= orig.subrange(0, k as int));
        put_field(fields, f);
        k = k + 1;
        assert(new@ =~= orig.subrange(k as int, orig.len() as int));
    }
    assert(orig.subrange(0, k as int) =~= orig);
}

/// Writes one document under id `k`.
pub fn upsert_document(docs: &mut Vec<StoredDocument>, k: u64, fields: Vec<Field>, partial: bool)
    ensures
        docs_view(final(docs)@) == upsert(docs_view(old(docs)@), k, fields@, partial),
{
    proof {
        lemma_doc_position(docs_view(docs@), k);
    }
    let ghost fv = fields@;
    match find_document(docs, k) {
        None => {
            docs.push(StoredDocument { id: k, fields });
            assert(docs_view(docs@) =~= docs_view(old(docs)@).push((k, fv)));
        },
        Some(p) => {
            let d = docs.remove(p);
            let mut f = d.fields;
            if partial {
                merge_into(&mut f, fields);
            } else {
                f = fields;
            }
            let ghost nv = f@;
            docs.insert(p, StoredDocument { id: k, fields: f });
            assert(docs_view(docs@) =~= docs_view(old(docs)@).update(p as int, (k, nv)));
        },
    }
}

/// Removes the document with id `k`, if there is one.
pub fn remove_document(docs: &mut Vec<StoredDocument>, k: u64)
    ensures
        docs_view(final(docs)@) == remove_doc(docs_view(old(docs)@), k),
{
    proof {
        lemma_doc_position(docs_view(docs@), k);
    }
    match find_document(docs, k) {
        None => {},
        Some(p) => {
            docs.remove(p);
            assert(docs_view(docs@) =~= docs_view(old(docs)@).remove(p as int));
        },
    }
}

/// Writes each document of a batch in turn under the identifier attribute
/// `ident`.
pub fn write_documents(
    docs: &mut Vec<StoredDocument>,
    batch: Vec<Document>,
    ident: &Option<String>,
    partial: bool,
)
    requires
        ids_unique(docs_view(old(docs)@)),
    ensures
        ids_unique(docs_view(final(docs)@)),
        docs_view(final(docs)@) == write_batch(
            docs_view(old(docs)@),
            batch@,
            text_of(*ident),
            partial,
        ),
{
    let ghost id = text_of(*ident);
    let ghost orig = batch@;
    let ghost start = docs_view(docs@);
    let mut batch = batch;
    let n = batch.len();
    let mut k: usize = 0;
    assert(orig.subrange(0, 0) =~= Seq::<Document>::empty());
    assert(batch@ =~= orig.subrange(0, orig.len() as int));
    while batch.len() > 0
        invariant
            k + batch@.len() == orig.len(),
            orig.len() == n,
            id == text_of(*ident),
            batch@ =~= orig.subrange(k as int, orig.len() as int),
            docs_view(docs@) == write_batch(start, orig.subrange(0, k as int), id, partial),
            ids_unique(docs_view(docs@)),
        decreases batch.len(),
    {
        let d = batch.remove(0);
        let ghost before = docs_view(docs@);
        let ghost dv = d;
        assert(orig.subrange(0, k + 1).drop_last() =~= orig.subrange(0, k as int));
        assert(orig.subrange(0, k + 1).last() == d);
        assert(write_batch(start, orig.subrange(0, k + 1), id, partial) == match id {
            None => before,
            Some(i) => match document_key(dv.fields@, i) {
                None => before,
                Some(key) => upsert(before, key, dv.fields@, partial),
            },
        });
        match ident {
            None => {
                assert(id is None);
            },
            Some(name) => {
                assert(id == Some(name@));
                match document_key_of(&d.fields, name) {
                    None => {},
                    Some(key) => {
                        proof {
                            lemma_upsert_unique(docs_view(docs@), key, d.fields@, partial);
                        }
                        upsert_document(docs, key, d.fields, partial);
                        assert(docs_view(docs@) == upsert(before, key, dv.fields@, partial));
                    },
                }
            },
        }
        assert(docs_view(docs@) == write_batch(start, orig.subrange(0, k + 1), id, partial));
        k = k + 1;
        assert(batch@ =~= orig.subrange(k as int, orig.len() as int));
    }
    assert(orig.subrange(0, k as int) =~= orig);
}

/// Removes the documents of each id in turn.
pub fn remove_documents(docs: &mut Vec<StoredDocument>, ids: &Vec<u64>)
    requires
        ids_unique(docs_view(old(docs)@)),
    ensures
        ids_unique(docs_view(final(docs)@)),
        docs_view(final(docs)@) == remove_all(docs_view(old(docs)@), ids@),
{
    let ghost start = docs_view(docs@);
    let mut i: usize = 0;
    assert(ids@.subrange(0, 0) =~= Seq::<u64>::empty());
    while i < ids.len()
        invariant
            i <= ids@.len(),
            docs_view(docs@) == remove_all(start, ids@.subrange(0, i as int)),
            ids_unique(docs_view(docs@)),
        decreases ids.len() - i,
    {
        assert(ids@.subrange(0, i + 1).drop_last() =~= ids@.subrange(0, i as int));
        proof {
            lemma_remove_unique(docs_view(docs@), ids@[i as int]);
        }
        remove_document(docs, ids[i]);
        i = i + 1;
    }
    assert(ids@.subrange(0, i as int) =~= ids@);
}

/// An accepted update was appended to the index's log under the next id.
pub open spec fn accepted(pre: Index, post: Index, id: u64) -> bool {
    &&& id == pre.next_update_id()
    &&& post.statuses@ == pre.statuses@.push(UpdateStatus::Enqueued)
    &&& post.pending@.len() == pre.pending@.len() + 1
    &&& post.pending@.drop_last() == pre.pending@
    &&& post.documents == pre.documents
}

/// Accepted updates receive consecutive ids in the order in which they are
/// accepted: where each acceptance starts from the log that the previous one
/// left (applying updates and recording their results in between does not
/// change its length), the `i`-th id is the first plus `i`, so the ids are
/// strictly increasing and leave no gap.
pub proof fn lemma_update_ids_follow_acceptance(pre: Seq<Index>, post: Seq<Index>, ids: Seq<u64>)
    requires
        pre.len() == ids.len(),
        post.len() == ids.len(),
        forall|i: int| 0 <= i < ids.len() ==> accepted(#[trigger] pre[i], post[i], ids[i]),
        forall|i: int|
            0 <= i < ids.len() - 1 ==> (#[trigger] post[i]).next_update_id() == pre[i
                + 1].next_update_id(),
    ensures
        forall|i: int| 0 <= i < ids.len() ==> #[trigger] ids[i] == ids[0] + i,
        forall|i: int, j: int| 0 <= i < j < ids.len() ==> #[trigger] ids[i] < #[trigger] ids[j],
    decreases ids.len(),
{
    if ids.len() > 0 {
        let n = ids.len() - 1;
        lemma_update_ids_follow_acceptance(pre.drop_last(), post.drop_last(), ids.drop_last());
        assert forall|i: int| 0 <= i < ids.len() implies #[trigger] ids[i] == ids[0] + i by {
            if i < n {
                assert(ids.drop_last()[i] == ids[i]);
                assert(accepted(pre.drop_last()[i], post.drop_last()[i], ids.drop_last()[i]));
            } else if n > 0 {
                assert(ids.drop_last()[n - 1] == ids[n - 1]);
                assert(accepted(pre[n - 1], post[n - 1], ids[n - 1]));
                assert(accepted(pre[n], post[n], ids[n]));
                assert(post[n - 1].next_update_id() == pre[n].next_update_id());
            }
        }
    }
}

/// Two acceptances one after the other never share an id: the second
/// receives the first's id plus one.
pub proof fn lemma_successive_acceptances(s0: Index, s1: Index, s2: Index, a: u64, b: u64)
    requires
        accepted(s0, s1, a),
        accepted(s1, s2, b),
    ensures
        b == a + 1,
{
}

/// Removing documents of ids that were never written leaves the documents as
/// they were.
pub proof fn lemma_delete_unknown_is_noop(docs: Seq<DocModel>, ids: Seq<u64>)
    requires
        forall|i: int| 0 <= i < ids.len() ==> doc_position(docs, #[trigger] ids[i]) == -1,
    ensures
        remove_all(docs, ids) == docs,
    decreases ids.len(),
{
    if ids.len() > 0 {
        assert forall|i: int| 0 <= i < ids.drop_last().len() implies doc_position(
            docs,
            #[trigger] ids.drop_last()[i],
        ) == -1 by {
            assert(ids.drop_last()[i] == ids[i]);
        }
        lemma_delete_unknown_is_noop(docs, ids.drop_last());
        assert(doc_position(docs, ids[ids.len() - 1]) == -1);
    }
}

/// `field_position` reads the names alone.
pub proof fn lemma_field_position_names(a: Seq<Field>, b: Seq<Field>, name: Seq<char>)
    requires
        a.len() == b.len(),
        forall|i: int| 0 <= i < a.len() ==> (#[trigger] a[i]).name@ == b[i].name@,
    ensures
        field_position(a, name) == field_position(b, name),
    decreases a.len(),
{
    if a.len() > 0 {
        assert forall|i: int| 0 <= i < a.drop_last().len() implies (#[trigger] a.drop_last()[i]).name@
            == b.drop_last()[i].name@ by {
            assert(a.drop_last()[i] == a[i]);
            assert(b.drop_last()[i] == b[i]);
        }
        lemma_field_position_names(a.drop_last(), b.drop_last(), name);
    }
}

/// Setting an attribute leaves every attribute of another name as it was.
pub proof fn lemma_set_field_keeps(fields: Seq<Field>, f: Field, name: Seq<char>)
    requires
        f.name@ != name,
    ensures
        field_position(set_field(fields, f), name) == field_position(fields, name),
        field_position(fields, name) >= 0 ==> set_field(fields, f)[field_position(fields, name)]
            == fields[field_position(fields, name)],
{
    lemma_field_position_bounds(fields, f.name@);
    lemma_field_position_bounds(fields, name);
    let p = field_position(fields, f.name@);
    if p < 0 {
        assert(fields.push(f).drop_last() =~= fields);
    } else {
        lemma_field_position_names(fields.update(p, f), fields, name);
    }
}

/// Merging keeps every attribute that the incoming ones do not name.
pub proof fn lemma_merge_keeps(old: Seq<Field>, new: Seq<Field>, name: Seq<char>)
    requires
        field_position(new, name) == -1,
    ensures
        field_position(merge_fields(old, new), name) == field_position(old, name),
        field_position(old, name) >= 0 ==> merge_fields(old, new)[field_position(old, name)]
            == old[field_position(old, name)],
    decreases new.len(),
{
    if new.len() > 0 {
        lemma_merge_keeps(old, new.drop_last(), name);
        lemma_set_field_keeps(merge_fields(old, new.drop_last()), new.last(), name);
    }
}

/// Writing a document, then another with the same identifier value, leaves
/// one document of that id: the second wholesale, or, through the partial
/// path, the first merged with the second, so that an attribute of the first
/// that the second does not name keeps its value.
pub proof fn lemma_same_identifier_twice(
    docs: Seq<DocModel>,
    ident: Seq<char>,
    d1: Document,
    d2: Document,
    partial: bool,
)
    requires
        ids_unique(docs),
        document_key(d1.fields@, ident) is Some,
        document_key(d2.fields@, ident) == document_key(d1.fields@, ident),
    ensures
        ({
            let k = document_key(d1.fields@, ident)->Some_0;
            let once = write_batch(docs, seq![d1], Some(ident), partial);
            let twice = write_batch(once, seq![d2], Some(ident), partial);
            let p = doc_position(twice, k);
            &&& ids_unique(twice)
            &&& twice.len() == once.len()
            &&& p >= 0
            &&& forall|i: int| 0 <= i < twice.len() && #[trigger] twice[i].0 == k ==> i == p
            &&& !partial ==> twice[p].1 == d2.fields@
            &&& partial && doc_position(docs, k) == -1 ==> twice[p].1 == merge_fields(
                d1.fields@,
                d2.fields@,
            )
            &&& partial && doc_position(docs, k) == -1 ==> forall|name: Seq<char>|
                #![trigger field_position(d1.fields@, name)]
                field_position(d2.fields@, name) == -1 && field_position(d1.fields@, name) >= 0
                    ==> field_position(twice[p].1, name) == field_position(d1.fields@, name)
                    && twice[p].1[field_position(d1.fields@, name)] == d1.fields@[field_position(
                    d1.fields@,
                    name,
                )]
        }),
{
    let k = document_key(d1.fields@, ident)->Some_0;
    assert(seq![d1].drop_last() =~= Seq::<Document>::empty());
    assert(seq![d2].drop_last() =~= Seq::<Document>::empty());
    assert(seq![d1].last() == d1);
    assert(seq![d2].last() == d2);
    assert(seq![d1].len() == 1);
    assert(seq![d2].len() == 1);
    assert(write_batch(docs, Seq::<Document>::empty(), Some(ident), partial) == docs);
    let once = write_batch(docs, seq![d1], Some(ident), partial);
    assert(write_batch(once, Seq::<Document>::empty(), Some(ident), partial) == once);
    assert(once == upsert(docs, k, d1.fields@, partial));
    let twice = write_batch(once, seq![d2], Some(ident), partial);
    assert(twice == upsert(once, k, d2.fields@, partial));
    lemma_doc_position(docs, k);
    lemma_upsert_unique(docs, k, d1.fields@, partial);
    lemma_doc_position(once, k);
    lemma_upsert_unique(once, k, d2.fields@, partial);
    lemma_doc_position(twice, k);
    if doc_position(docs, k) == -1 {
        assert(once.drop_last() =~= docs);
        assert(doc_position(once, k) == docs.len());
    }
    let j = if doc_position(docs, k) == -1 {
        docs.len() as int
    } else {
        doc_position(docs, k)
    };
    assert(once[j].0 == k);
    lemma_doc_position_unique(once, k, j);
    let p = doc_position(once, k);
    assert(twice[p].0 == k);
    lemma_doc_position_unique(twice, k, p);
    assert forall|i: int| 0 <= i < twice.len() && #[trigger] twice[i].0 == k implies i == p by {
        if i != p {
            assert(twice[p].0 == k);
        }
    }
    if doc_position(docs, k) == -1 {
        assert(once[p] == (k, d1.fields@));
    }
    if partial && doc_position(docs, k) == -1 {
        assert forall|name: Seq<char>|
            #![trigger field_position(d1.fields@, name)]
            field_position(d2.fields@, name) == -1 && field_position(d1.fields@, name) >= 0
                implies field_position(twice[doc_position(twice, k)].1, name) == field_position(
                d1.fields@,
                name,
            ) && twice[doc_position(twice, k)].1[field_position(d1.fields@, name)]
                == d1.fields@[field_position(d1.fields@, name)] by {
            lemma_merge_keeps(d1.fields@, d2.fields@, name);
        }
    }
}

/// A document written to an index without documents is stored alone, under
/// the document-id of its identifier value, with its attributes as given.
pub proof fn lemma_first_write_reads_back(ident: Seq<char>, d: Document, partial: bool)
    requires
        document_key(d.fields@, ident) is Some,
    ensures
        ({
            let k = document_key(d.fields@, ident)->Some_0;
            let w = write_batch(Seq::<DocModel>::empty(), seq![d], Some(ident), partial);
            &&& w == seq![(k, d.fields@)]
            &&& doc_position(w, k) == 0
        }),
{
    let k = document_key(d.fields@, ident)->Some_0;
    let e = Seq::<DocModel>::empty();
    assert(seq![d].drop_last() =~= Seq::<Document>::empty());
    assert(seq![d].last() == d);
    assert(write_batch(e, Seq::<Document>::empty(), Some(ident), partial) == e);
    assert(doc_position(e, k) == -1);
    let w = write_batch(e, seq![d], Some(ident), partial);
    assert(w == e.push((k, d.fields@)));
    assert(w =~= seq![(k, d.fields@)]);
    assert(w.drop_last() =~= e);
}

impl Index {
    /// The update-id that the next accepted update receives.
    pub open spec fn next_update_id(&self) -> nat {
        self.statuses@.len()
    }

    /// The documents as the model sees them.
    pub open spec fn docs(&self) -> Seq<DocModel> {
        docs_view(self.documents@)
    }

    pub open spec fn wf(&self) -> bool {
        &&& self.pending@.len() <= self.statuses@.len()
        &&& ids_unique(self.docs())
        &&& forall|i: int|
            0 <= i < self.first_pending_id() ==> #[trigger] self.statuses@[i]
                != UpdateStatus::Enqueued
    }

    /// The update-id of the first update still waiting to be applied.
    pub open spec fn first_pending_id(&self) -> int {
        self.statuses@.len() - self.pending@.len()
    }

    /// An index with no schema, no document and no update.
    pub fn new() -> (r: Index)
        ensures
            r.wf(),
            r.schema is None,
            r.docs().len() == 0,
            r.statuses@.len() == 0,
            r.pending@.len() == 0,
    {
        let r = Index { schema: None, documents: Vec::new(), statuses: Vec::new(), pending: Vec::new() };
        assert(r.docs() =~= Seq::<DocModel>::empty());
        r
    }

    /// Accepts a staged update: it receives the next update-id and waits, as
    /// `Enqueued`, behind those accepted before it. Nothing changes when the
    /// ids are exhausted.
    pub fn enqueue(&mut self, u: StagedUpdate) -> (r: Result<u64, PipelineError>)
        requires
            old(self).wf(),
        ensures
            final(self).wf(),
            old(self).next_update_id() < u64::MAX ==> r == Ok::<u64, PipelineError>(
                old(self).next_update_id() as u64,
            ) && final(self).statuses@ == old(self).statuses@.push(UpdateStatus::Enqueued)
                && final(self).pending@ == old(self).pending@.push(u) && final(self).documents
                == old(self).documents && final(self).schema == old(self).schema,
            old(self).next_update_id() >= u64::MAX ==> r == Err::<u64, PipelineError>(
                PipelineError::UpdateIdsExhausted,
            ) && *final(self) == *old(self),
    {
        if self.statuses.len() as u64 >= u64::MAX {
            return Err(PipelineError::UpdateIdsExhausted);
        }
        let id = self.statuses.len() as u64;
        self.statuses.push(UpdateStatus::Enqueued);
        self.pending.push(u);
        Ok(id)
    }

    /// Accepts a batch of documents to write, wholesale or merged where
    /// `is_partial` holds. An index without a schema first infers one from
    /// the batch's first document and sets it as part of the same step; a
    /// batch from which none can be inferred is refused and nothing changes.
    pub fn update_multiple_documents(&mut self, batch: Vec<Document>, is_partial: bool) -> (r:
        Result<u64, PipelineError>)
        requires
            old(self).wf(),
        ensures
            final(self).wf(),
            r is Err ==> *final(self) == *old(self),
            old(self).schema is None && (batch@.len() == 0 || !inferable(batch@[0].fields@))
                ==> r == Err::<u64, PipelineError>(PipelineError::SchemaInferenceFailed),
            (old(self).schema is Some || (batch@.len() > 0 && inferable(batch@[0].fields@))) ==> (
            r is Ok <==> old(self).next_update_id() < u64::MAX),
            (old(self).schema is Some || (batch@.len() > 0 && inferable(batch@[0].fields@)))
                && r is Err ==> r == Err::<u64, PipelineError>(PipelineError::UpdateIdsExhausted),
            r is Ok ==> r->Ok_0 == old(self).next_update_id() && final(self).statuses@ == old(self).statuses@.push(UpdateStatus::Enqueued) && final(self).documents == old(self).documents && final(self).pending@ == old(self).pending@.push(
                if is_partial {
                    StagedUpdate::DocumentsPartialAddition(batch)
                } else {
                    StagedUpdate::DocumentsAddition(batch)
                },
            ),
            r is Ok && old(self).schema is Some ==> final(self).schema == old(self).schema,
            r is Ok && old(self).schema is None ==> final(self).schema is Some && schema_of(
                batch@[0].fields@,
                final(self).schema->Some_0,
            ),
    {
        let mut inferred: Option<Schema> = None;
        if self.schema.is_none() {
            if batch.len() == 0 {
                return Err(PipelineError::SchemaInferenceFailed);
            }
            match infered_schema(&batch[0]) {
                Some(s) => {
                    inferred = Some(s);
                },
                None => {
                    return Err(PipelineError::SchemaInferenceFailed);
                },
            }
        }
        if self.statuses.len() as u64 >= u64::MAX {
            return Err(PipelineError::UpdateIdsExhausted);
        }
        let ghost b = batch;
        let u = if is_partial {
            StagedUpdate::DocumentsPartialAddition(batch)
        } else {
            StagedUpdate::DocumentsAddition(batch)
        };
        if inferred.is_some() {
            self.schema = inferred;
        }
        self.enqueue(u)
    }

    /// Accepts the removal of the documents with the given ids; an id with
    /// no document is a no-op when the update is applied.
    pub fn delete_documents(&mut self, ids: Vec<u64>) -> (r: Result<u64, PipelineError>)
        requires
            old(self).wf(),
        ensures
            final(self).wf(),
            r is Err ==> *final(self) == *old(self) && r == Err::<u64, PipelineError>(
                PipelineError::UpdateIdsExhausted,
            ),
            r is Ok <==> old(self).next_update_id() < u64::MAX,
            r is Ok ==> r->Ok_0 == old(self).next_update_id() && final(self).statuses@ == old(self).statuses@.push(UpdateStatus::Enqueued) && final(self).documents == old(self).documents && final(self).schema == old(self).schema && final(self).pending@ == old(self).pending@.push(StagedUpdate::DocumentsDeletion(ids)),
    {
        self.enqueue(StagedUpdate::DocumentsDeletion(ids))
    }

    /// Accepts the removal of every document.
    pub fn clear_all(&mut self) -> (r: Result<u64, PipelineError>)
        requires
            old(self).wf(),
        ensures
            final(self).wf(),
            r is Err ==> *final(self) == *old(self) && r == Err::<u64, PipelineError>(
                PipelineError::UpdateIdsExhausted,
            ),
            r is Ok <==> old(self).next_update_id() < u64::MAX,
            r is Ok ==> r->Ok_0 == old(self).next_update_id() && final(self).statuses@ == old(self).statuses@.push(UpdateStatus::Enqueued) && final(self).documents == old(self).documents && final(self).schema == old(self).schema && final(self).pending@ == old(self).pending@.push(StagedUpdate::ClearAll),
    {
        self.enqueue(StagedUpdate::ClearAll)
    }

    /// Applies the oldest update still waiting and returns its id. One whose
    /// status was already set to failed is passed over without effect.
    pub fn apply_next(&mut self) -> (r: Option<u64>)
        requires
            old(self).wf(),
        ensures
            final(self).wf(),
            old(self).pending@.len() == 0 ==> r is None && *final(self) == *old(self),
            old(self).pending@.len() > 0 ==> {
                let first = old(self).first_pending_id();
                &&& r == Some(first as u64)
                &&& final(self).pending@ == old(self).pending@.subrange(
                    1,
                    old(self).pending@.len() as int,
                )
                &&& final(self).schema == old(self).schema
                &&& old(self).statuses@[first] == UpdateStatus::Enqueued ==> final(self).statuses@ == old(self).statuses@.update(first, UpdateStatus::Processed)
                    && final(self).docs() == apply_update(
                    old(self).docs(),
                    old(self).pending@[0],
                    schema_ident(old(self).schema),
                )
                &&& old(self).statuses@[first] != UpdateStatus::Enqueued ==> final(self).statuses
                    == old(self).statuses && final(self).docs() == old(self).docs()
            },
    {
        if self.pending.len() == 0 {
            return None;
        }
        let first = self.statuses.len() - self.pending.len();
        let u = self.pending.remove(0);
        let ghost gu = u;
        assert(self.pending@ =~= old(self).pending@.subrange(1, old(self).pending@.len() as int));
        if self.statuses[first] != UpdateStatus::Enqueued {
            return Some(first as u64);
        }
        let ident: Option<String> = match &self.schema {
            Some(s) => Some(s.identifier.clone()),
            None => None,
        };
        assert(text_of(ident) == schema_ident(self.schema));
        match u {
            StagedUpdate::DocumentsAddition(b) => {
                write_documents(&mut self.documents, b, &ident, false);
            },
            StagedUpdate::DocumentsPartialAddition(b) => {
                write_documents(&mut self.documents, b, &ident, true);
            },
            StagedUpdate::DocumentsDeletion(ids) => {
                remove_documents(&mut self.documents, &ids);
            },
            StagedUpdate::ClearAll => {
                self.documents = Vec::new();
                assert(self.docs() =~= Seq::<DocModel>::empty());
            },
        }
        self.statuses.set(first, UpdateStatus::Processed);
        Some(first as u64)
    }

    /// Records what the engine reports for an update. Only an update still
    /// `Enqueued` changes; any later report for it is ignored.
    pub fn record_result(&mut self, update_id: u64, outcome: ProcessingOutcome)
        requires
            old(self).wf(),
        ensures
            final(self).wf(),
            (update_id < old(self).statuses@.len() && old(self).statuses@[update_id as int]
                == UpdateStatus::Enqueued) ==> final(self).statuses@ == old(self).statuses@.update(
                update_id as int,
                status_after(outcome),
            ) && final(self).documents == old(self).documents && final(self).pending == old(self).pending && final(self).schema == old(self).schema,
            !(update_id < old(self).statuses@.len() && old(self).statuses@[update_id as int]
                == UpdateStatus::Enqueued) ==> *final(self) == *old(self),
    {
        if update_id >= self.statuses.len() as u64 {
            return;
        }
        let i = update_id as usize;
        if self.statuses[i] != UpdateStatus::Enqueued {
            return;
        }
        let s = match outcome {
            ProcessingOutcome::Processed => UpdateStatus::Processed,
            ProcessingOutcome::Failed => UpdateStatus::Failed,
        };
        self.statuses.set(i, s);
    }

    /// The status of an update, if it was ever accepted.
    pub fn status_of(&self, update_id: u64) -> (r: Option<UpdateStatus>)
        ensures
            update_id < self.statuses@.len() ==> r == Some(self.statuses@[update_id as int]),
            update_id >= self.statuses@.len() ==> r is None,
    {
        if update_id >= self.statuses.len() as u64 {
            None
        } else {
            Some(self.statuses[update_id as usize])
        }
    }

    /// The stored document with id `k`, if there is one.
    pub fn document(&self, k: u64) -> (r: Option<&StoredDocument>)
        ensures
            r is None <==> doc_position(self.docs(), k) == -1,
            r is Some ==> doc_position(self.docs(), k) >= 0 && *r->Some_0 == self.documents@[doc_position(
                self.docs(),
                k,
            )],
    {
        proof {
            lemma_doc_position(self.docs(), k);
        }
        match find_document(&self.documents, k) {
            None => None,
            Some(p) => Some(&self.documents[p]),
        }
    }
}

/// The status that an engine's report sets.
pub open spec fn status_after(o: ProcessingOutcome) -> UpdateStatus {
    match o {
        ProcessingOutcome::Processed => UpdateStatus::Processed,
        ProcessingOutcome::Failed => UpdateStatus::Failed,
    }
}

} // verus!
