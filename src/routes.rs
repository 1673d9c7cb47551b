use vstd::prelude::*;
use crate::acl::{ACL, ApiKeys, AuthError, grants, is_allowed};
use crate::document::{Document, Value, value_text, document_id_of, value_to_string, compute_document_id};
use crate::index::{Index, StagedUpdate, StoredDocument, PipelineError, doc_position, accepted};
use crate::acl::key_is;
use crate::schema::{inferable, schema_of};

verus! {

/// A refusal as the caller sees it; the four kinds of failure stay apart.
#[derive(Debug)]
pub enum ResponseError {
    /// No credential was presented.
    MissingCredential,
    /// The credential does not allow the operation.
    InvalidToken(String),
    /// No index has the name asked for.
    IndexNotFound(String),
    /// No document has the identifier asked for.
    DocumentNotFound(String),
    /// No schema could be inferred from the batch.
    SchemaInferenceFailed,
    /// The server could not perform the operation.
    Internal,
    /// The server is under maintenance.
    Maintenance,
}

/// The answer to an accepted mutation.
#[derive(Debug)]
pub struct IndexUpdateResponse {
    pub update_id: u64,
}

/// The error with which a credential is refused, if it is.
pub open spec fn refusal(keys: ApiKeys, credential: Option<String>, acl: ACL) -> Option<
    ResponseError,
> {
    match credential {
        None => Some(ResponseError::MissingCredential),
        Some(k) => if grants(keys, k@, acl) {
            None
        } else {
            Some(ResponseError::InvalidToken(k))
        },
    }
}

/// Checks a credential and turns its refusal into a response error.
pub fn check_access(keys: &ApiKeys, credential: Option<String>, acl: ACL) -> (r: Result<
    (),
    ResponseError,
>)
    ensures
        refusal(*keys, credential, acl) is None ==> r is Ok,
        refusal(*keys, credential, acl) is Some ==> r == Err::<(), ResponseError>(
            refusal(*keys, credential, acl)->Some_0,
        ),
{
    match is_allowed(keys, credential, acl) {
        Ok(()) => Ok(()),
        Err(AuthError::MissingCredential) => Err(ResponseError::MissingCredential),
        Err(AuthError::InvalidCredential(k)) => Err(ResponseError::InvalidToken(k)),
    }
}

/// The response error for a refused mutation.
pub open spec fn pipeline_error(e: PipelineError) -> ResponseError {
    match e {
        PipelineError::SchemaInferenceFailed => ResponseError::SchemaInferenceFailed,
        PipelineError::UpdateIdsExhausted => ResponseError::Internal,
    }
}

fn from_pipeline(e: PipelineError) -> (r: ResponseError)
    ensures
        r == pipeline_error(e),
{
    match e {
        PipelineError::SchemaInferenceFailed => ResponseError::SchemaInferenceFailed,
        PipelineError::UpdateIdsExhausted => ResponseError::Internal,
    }
}

/// Whether a staged update removes exactly the documents of `ids`.
pub open spec fn deletes(u: StagedUpdate, ids: Seq<u64>) -> bool {
    match u {
        StagedUpdate::DocumentsDeletion(v) => v@ == ids,
        _ => false,
    }
}

/// The document-ids of the identifier values that have a text, in order.
pub open spec fn deletion_ids(values: Seq<Value>) -> Seq<u64>
    decreases values.len(),
{
    if values.len() == 0 {
        Seq::empty()
    } else {
        let before = deletion_ids(values.drop_last());
        match value_text(values.last()) {
            Some(t) => before.push(document_id_of(t)),
            None => before,
        }
    }
}

/// Reads the document with the given identifier. A stored document with no
/// attribute counts as not found.
pub fn get_document<'a>(
    index: &'a Index,
    keys: &ApiKeys,
    credential: Option<String>,
    identifier: &String,
) -> (r: Result<&'a StoredDocument, ResponseError>)
    ensures
        refusal(*keys, credential, ACL::Public) is Some ==> r == Err::<&StoredDocument, ResponseError>(
            refusal(*keys, credential, ACL::Public)->Some_0,
        ),
        refusal(*keys, credential, ACL::Public) is None ==> ({
            let p = doc_position(index.docs(), document_id_of(identifier@));
            &&& (p >= 0 && index.documents@[p].fields@.len() > 0) ==> r == Ok::<
                &StoredDocument,
                ResponseError,
            >(&index.documents@[p])
            &&& !(p >= 0 && index.documents@[p].fields@.len() > 0) ==> r == Err::<
                &StoredDocument,
                ResponseError,
            >(ResponseError::DocumentNotFound(*identifier))
        }),
{
    if let Err(e) = check_access(keys, credential, ACL::Public) {
        return Err(e);
    }
    let document_id = compute_document_id(identifier);
    match index.document(document_id) {
        None => Err(ResponseError::DocumentNotFound(identifier.clone())),
        Some(d) => {
            if d.fields.len() == 0 {
                Err(ResponseError::DocumentNotFound(identifier.clone()))
            } else {
                Ok(d)
            }
        },
    }
}

/// Accepts the removal of the document with the given identifier.
pub fn delete_document(
    index: &mut Index,
    keys: &ApiKeys,
    credential: Option<String>,
    identifier: &String,
) -> (r: Result<IndexUpdateResponse, ResponseError>)
    requires
        old(index).wf(),
    ensures
        final(index).wf(),
        r is Err ==> *final(index) == *old(index),
        refusal(*keys, credential, ACL::Private) is Some ==> r == Err::<
            IndexUpdateResponse,
            ResponseError,
        >(refusal(*keys, credential, ACL::Private)->Some_0),
        refusal(*keys, credential, ACL::Private) is None ==> (r is Ok <==> old(
            index,
        ).next_update_id() < u64::MAX),
        refusal(*keys, credential, ACL::Private) is None && r is Err ==> r == Err::<
            IndexUpdateResponse,
            ResponseError,
        >(ResponseError::Internal),
        r is Ok ==> accepted(*old(index), *final(index), r->Ok_0.update_id) && final(index).schema
            == old(index).schema && deletes(
            final(index).pending@.last(),
            seq![document_id_of(identifier@)],
        ),
{
    if let Err(e) = check_access(keys, credential, ACL::Private) {
        return Err(e);
    }
    let document_id = compute_document_id(identifier);
    let mut ids: Vec<u64> = Vec::new();
    ids.push(document_id);
    match index.delete_documents(ids) {
        Ok(update_id) => {
            assert(final(index).pending@.drop_last() =~= old(index).pending@);
            Ok(IndexUpdateResponse { update_id })
        },
        Err(e) => Err(from_pipeline(e)),
    }
}

/// The document-ids of the identifier values that have a text.
pub fn deletion_ids_of(data: &Vec<Value>) -> (r: Vec<u64>)
    ensures
        r@ == deletion_ids(data@),
{
    let mut ids: Vec<u64> = Vec::new();
    let mut i: usize = 0;
    assert(data@.subrange(0, 0) =~= Seq::<Value>::empty());
    while i < data.len()
        invariant
            i <= data@.len(),
            ids@ == deletion_ids(data@.subrange(0, i as int)),
        decreases data.len() - i,
    {
        assert(data@.subrange(0, i + 1).drop_last() =~= data@.subrange(0, i as int));
        if let Some(identifier) = value_to_string(&data[i]) {
            ids.push(compute_document_id(&identifier));
        }
        i = i + 1;
    }
    assert(data@.subrange(0, i as int) =~= data@);
    ids
}

/// Accepts the removal of the documents with the given identifier values;
/// a value with no text is left out.
pub fn delete_multiple_documents(
    index: &mut Index,
    keys: &ApiKeys,
    credential: Option<String>,
    data: Vec<Value>,
) -> (r: Result<IndexUpdateResponse, ResponseError>)
    requires
        old(index).wf(),
    ensures
        final(index).wf(),
        r is Err ==> *final(index) == *old(index),
        refusal(*keys, credential, ACL::Private) is Some ==> r == Err::<
            IndexUpdateResponse,
            ResponseError,
        >(refusal(*keys, credential, ACL::Private)->Some_0),
        refusal(*keys, credential, ACL::Private) is None ==> (r is Ok <==> old(
            index,
        ).next_update_id() < u64::MAX),
        refusal(*keys, credential, ACL::Private) is None && r is Err ==> r == Err::<
            IndexUpdateResponse,
            ResponseError,
        >(ResponseError::Internal),
        r is Ok ==> accepted(*old(index), *final(index), r->Ok_0.update_id) && final(index).schema
            == old(index).schema && deletes(final(index).pending@.last(), deletion_ids(data@)),
{
    if let Err(e) = check_access(keys, credential, ACL::Private) {
        return Err(e);
    }
    let ids = deletion_ids_of(&data);
    match index.delete_documents(ids) {
        Ok(update_id) => {
            assert(final(index).pending@.drop_last() =~= old(index).pending@);
            Ok(IndexUpdateResponse { update_id })
        },
        Err(e) => Err(from_pipeline(e)),
    }
}

/// Accepts the removal of every document.
pub fn clear_all_documents(index: &mut Index, keys: &ApiKeys, credential: Option<String>) -> (r:
    Result<IndexUpdateResponse, ResponseError>)
    requires
        old(index).wf(),
    ensures
        final(index).wf(),
        r is Err ==> *final(index) == *old(index),
        refusal(*keys, credential, ACL::Private) is Some ==> r == Err::<
            IndexUpdateResponse,
            ResponseError,
        >(refusal(*keys, credential, ACL::Private)->Some_0),
        refusal(*keys, credential, ACL::Private) is None ==> (r is Ok <==> old(
            index,
        ).next_update_id() < u64::MAX),
        refusal(*keys, credential, ACL::Private) is None && r is Err ==> r == Err::<
            IndexUpdateResponse,
            ResponseError,
        >(ResponseError::Internal),
        r is Ok ==> accepted(*old(index), *final(index), r->Ok_0.update_id) && final(index).schema
            == old(index).schema && final(index).pending@.last() is ClearAll,
{
    if let Err(e) = check_access(keys, credential, ACL::Private) {
        return Err(e);
    }
    match index.clear_all() {
        Ok(update_id) => {
            assert(final(index).pending@.drop_last() =~= old(index).pending@);
            Ok(IndexUpdateResponse { update_id })
        },
        Err(e) => Err(from_pipeline(e)),
    }
}

/// Whether a staged update writes exactly the batch `b`, merged where
/// `partial` holds.
pub open spec fn writes(u: StagedUpdate, b: Seq<Document>, partial: bool) -> bool {
    match u {
        StagedUpdate::DocumentsAddition(v) => !partial && v@ == b,
        StagedUpdate::DocumentsPartialAddition(v) => partial && v@ == b,
        _ => false,
    }
}

/// Accepts a batch of documents to write, wholesale or merged.
fn update_multiple_documents(
    index: &mut Index,
    keys: &ApiKeys,
    credential: Option<String>,
    data: Vec<Document>,
    is_partial: bool,
) -> (r: Result<IndexUpdateResponse, ResponseError>)
    requires
        old(index).wf(),
    ensures
        final(index).wf(),
        r is Err ==> *final(index) == *old(index),
        refusal(*keys, credential, ACL::Private) is Some ==> r == Err::<
            IndexUpdateResponse,
            ResponseError,
        >(refusal(*keys, credential, ACL::Private)->Some_0),
        refusal(*keys, credential, ACL::Private) is None && old(index).schema is None && (data@.len()
            == 0 || !inferable(data@[0].fields@)) ==> r == Err::<IndexUpdateResponse, ResponseError>(
            ResponseError::SchemaInferenceFailed,
        ),
        refusal(*keys, credential, ACL::Private) is None && (old(index).schema is Some || (
        data@.len() > 0 && inferable(data@[0].fields@))) ==> (r is Ok <==> old(
            index,
        ).next_update_id() < u64::MAX),
        refusal(*keys, credential, ACL::Private) is None && (old(index).schema is Some || (
        data@.len() > 0 && inferable(data@[0].fields@))) && r is Err ==> r == Err::<
            IndexUpdateResponse,
            ResponseError,
        >(ResponseError::Internal),
        r is Ok ==> accepted(*old(index), *final(index), r->Ok_0.update_id) && writes(
            final(index).pending@.last(),
            data@,
            is_partial,
        ),
        r is Ok && old(index).schema is Some ==> final(index).schema == old(index).schema,
        r is Ok && old(index).schema is None ==> final(index).schema is Some && schema_of(
            data@[0].fields@,
            final(index).schema->Some_0,
        ),
{
    if let Err(e) = check_access(keys, credential, ACL::Private) {
        return Err(e);
    }
    match index.update_multiple_documents(data, is_partial) {
        Ok(update_id) => {
            assert(final(index).pending@.drop_last() =~= old(index).pending@);
            Ok(IndexUpdateResponse { update_id })
        },
        Err(e) => Err(from_pipeline(e)),
    }
}

/// Accepts a batch of documents that replace stored ones of the same
/// identifier wholesale.
pub fn add_or_replace_multiple_documents(
    index: &mut Index,
    keys: &ApiKeys,
    credential: Option<String>,
    data: Vec<Document>,
) -> (r: Result<IndexUpdateResponse, ResponseError>)
    requires
        old(index).wf(),
    ensures
        final(index).wf(),
        r is Err ==> *final(index) == *old(index),
        refusal(*keys, credential, ACL::Private) is Some ==> r == Err::<
            IndexUpdateResponse,
            ResponseError,
        >(refusal(*keys, credential, ACL::Private)->Some_0),
        refusal(*keys, credential, ACL::Private) is None && old(index).schema is None && (data@.len()
            == 0 || !inferable(data@[0].fields@)) ==> r == Err::<IndexUpdateResponse, ResponseError>(
            ResponseError::SchemaInferenceFailed,
        ),
        refusal(*keys, credential, ACL::Private) is None && (old(index).schema is Some || (
        data@.len() > 0 && inferable(data@[0].fields@))) ==> (r is Ok <==> old(index).next_update_id() < u64::MAX),
        refusal(*keys, credential, ACL::Private) is None && (old(index).schema is Some || (
        data@.len() > 0 && inferable(data@[0].fields@))) && r is Err ==> r == Err::<
            IndexUpdateResponse,
            ResponseError,
        >(ResponseError::Internal),
        r is Ok ==> accepted(*old(index), *final(index), r->Ok_0.update_id) && writes(
            final(index).pending@.last(),
            data@,
            false,
        ),
        r is Ok && old(index).schema is Some ==> final(index).schema == old(index).schema,
        r is Ok && old(index).schema is None ==> final(index).schema is Some && schema_of(
            data@[0].fields@,
            final(index).schema->Some_0,
        ),
{
    update_multiple_documents(index, keys, credential, data, false)
}

/// Accepts a batch of documents whose attributes are merged into stored
/// ones of the same identifier.
pub fn add_or_update_multiple_documents(
    index: &mut Index,
    keys: &ApiKeys,
    credential: Option<String>,
    data: Vec<Document>,
) -> (r: Result<IndexUpdateResponse, ResponseError>)
    requires
        old(index).wf(),
    ensures
        final(index).wf(),
        r is Err ==> *final(index) == *old(index),
        refusal(*keys, credential, ACL::Private) is Some ==> r == Err::<
            IndexUpdateResponse,
            ResponseError,
        >(refusal(*keys, credential, ACL::Private)->Some_0),
        refusal(*keys, credential, ACL::Private) is None && old(index).schema is None && (data@.len()
            == 0 || !inferable(data@[0].fields@)) ==> r == Err::<IndexUpdateResponse, ResponseError>(
            ResponseError::SchemaInferenceFailed,
        ),
        refusal(*keys, credential, ACL::Private) is None && (old(index).schema is Some || (
        data@.len() > 0 && inferable(data@[0].fields@))) ==> (r is Ok <==> old(index).next_update_id() < u64::MAX),
        refusal(*keys, credential, ACL::Private) is None && (old(index).schema is Some || (
        data@.len() > 0 && inferable(data@[0].fields@))) && r is Err ==> r == Err::<
            IndexUpdateResponse,
            ResponseError,
        >(ResponseError::Internal),
        r is Ok ==> accepted(*old(index), *final(index), r->Ok_0.update_id) && writes(
            final(index).pending@.last(),
            data@,
            true,
        ),
        r is Ok && old(index).schema is Some ==> final(index).schema == old(index).schema,
        r is Ok && old(index).schema is None ==> final(index).schema is Some && schema_of(
            data@[0].fields@,
            final(index).schema->Some_0,
        ),
{
    update_multiple_documents(index, keys, credential, data, true)
}

/// The administrative capability is granted to the exact master key alone:
/// never without a credential, and never to a private or public key that
/// differs from the master key.
pub proof fn lemma_admin_only_master(keys: ApiKeys, credential: Option<String>)
    ensures
        refusal(keys, credential, ACL::Admin) is None <==> (credential is Some && key_is(
            keys.master,
            credential->Some_0@,
        )),
        credential is None ==> refusal(keys, credential, ACL::Admin) is Some,
{
}

} // verus!
