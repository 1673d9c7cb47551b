use meilisearch_http::acl::{is_allowed, ApiKeys, AuthError, ACL};
use meilisearch_http::document::{compute_document_id, value_to_string, Document, Field, Value};
use meilisearch_http::health::{change_healthyness, get_health, set_unhealthy};
use meilisearch_http::index::{Index, ProcessingOutcome, UpdateStatus};
use meilisearch_http::option::{list, Opt, OptError};
use meilisearch_http::routes::{
    add_or_replace_multiple_documents, add_or_update_multiple_documents, clear_all_documents,
    delete_document, delete_multiple_documents, get_document, ResponseError,
};
use meilisearch_http::schema::{contains_id, identifier_position, infered_schema};
use meilisearch_http::browse::get_all_documents;
use meilisearch_http::database::Database;

fn keys() -> ApiKeys {
    ApiKeys {
        master: Some("master-key".to_string()),
        private: Some("private-key".to_string()),
        public: Some("public-key".to_string()),
    }
}

fn cred(s: &str) -> Option<String> {
    Some(s.to_string())
}

fn text(name: &str, v: &str) -> Field {
    Field { name: name.to_string(), value: Value::Str(v.to_string()) }
}

fn doc(fields: Vec<Field>) -> Document {
    Document { fields }
}

fn names(d: &[Field]) -> Vec<String> {
    d.iter().map(|f| f.name.clone()).collect()
}

fn value_of<'a>(d: &'a [Field], name: &str) -> Option<&'a Value> {
    d.iter().rev().find(|f| f.name == name).map(|f| &f.value)
}

fn as_str(v: Option<&Value>) -> Option<String> {
    match v {
        Some(Value::Str(s)) => Some(s.clone()),
        _ => None,
    }
}

#[test]
fn admin_granted_to_master_only() {
    let k = keys();
    assert!(is_allowed(&k, cred("master-key"), ACL::Admin).is_ok());
    assert!(matches!(is_allowed(&k, cred("private-key"), ACL::Admin), Err(AuthError::InvalidCredential(s)) if s == "private-key"));
    assert!(matches!(is_allowed(&k, cred("public-key"), ACL::Admin), Err(AuthError::InvalidCredential(_))));
    assert!(matches!(is_allowed(&k, None, ACL::Admin), Err(AuthError::MissingCredential)));
}

#[test]
fn tiers_imply_looser_tiers() {
    let k = keys();
    assert!(is_allowed(&k, cred("master-key"), ACL::Private).is_ok());
    assert!(is_allowed(&k, cred("private-key"), ACL::Private).is_ok());
    assert!(is_allowed(&k, cred("public-key"), ACL::Private).is_err());
    assert!(is_allowed(&k, cred("public-key"), ACL::Public).is_ok());
    assert!(is_allowed(&k, cred("other"), ACL::Public).is_err());
}

#[test]
fn absent_tier_is_satisfied_by_nothing() {
    let k = ApiKeys { master: None, private: None, public: None };
    assert!(is_allowed(&k, cred(""), ACL::Public).is_err());
    assert!(is_allowed(&k, cred("x"), ACL::Admin).is_err());
}

#[test]
fn schema_identifier_is_first_attribute_with_id() {
    let d = doc(vec![text("name", "n"), text("productId", "p"), text("price", "3")]);
    let s = infered_schema(&d).unwrap();
    assert_eq!(s.identifier, "productId");
    let attrs: Vec<String> = s.attributes.iter().map(|a| a.name.clone()).collect();
    assert_eq!(attrs, vec!["name", "productId", "price"]);
    assert!(s.attributes.iter().all(|a| a.displayed && a.indexed));
}

#[test]
fn schema_inference_ignores_case() {
    let d = doc(vec![text("title", "t"), text("ProductID", "p")]);
    assert_eq!(infered_schema(&d).unwrap().identifier, "ProductID");
}

#[test]
fn schema_inference_fails_without_id() {
    let d = doc(vec![text("name", "n"), text("price", "3")]);
    assert!(infered_schema(&d).is_none());
}

#[test]
fn identifier_position_on_lowered_names() {
    let lowered: Vec<Vec<char>> = vec!["name".chars().collect(), "productid".chars().collect(), "uid".chars().collect()];
    assert_eq!(identifier_position(&lowered), Some(1));
    let none: Vec<Vec<char>> = vec!["i d".chars().collect(), "di".chars().collect()];
    assert_eq!(identifier_position(&none), None);
    assert!(contains_id(&"idx".chars().collect()));
    assert!(!contains_id(&"i".chars().collect()));
}

#[test]
fn update_ids_are_consecutive() {
    let k = keys();
    let mut idx = Index::new();
    let a = add_or_replace_multiple_documents(&mut idx, &k, cred("private-key"), vec![doc(vec![text("id", "1")])]).unwrap();
    let b = add_or_update_multiple_documents(&mut idx, &k, cred("private-key"), vec![doc(vec![text("id", "2")])]).unwrap();
    let c = delete_document(&mut idx, &k, cred("master-key"), &"1".to_string()).unwrap();
    let d = clear_all_documents(&mut idx, &k, cred("private-key")).unwrap();
    assert_eq!((a.update_id, b.update_id, c.update_id, d.update_id), (0, 1, 2, 3));
    assert_eq!(idx.status_of(3), Some(UpdateStatus::Enqueued));
    assert_eq!(idx.status_of(4), None);
}

#[test]
fn two_batches_get_successive_ids() {
    let k = keys();
    let mut idx = Index::new();
    let first = add_or_replace_multiple_documents(&mut idx, &k, cred("private-key"), vec![doc(vec![text("id", "a")])]).unwrap();
    let second = add_or_replace_multiple_documents(&mut idx, &k, cred("private-key"), vec![doc(vec![text("id", "b")])]).unwrap();
    assert_eq!(second.update_id, first.update_id + 1);
    assert_eq!(idx.apply_next(), Some(first.update_id));
    assert_eq!(idx.apply_next(), Some(second.update_id));
    assert_eq!(idx.apply_next(), None);
}

#[test]
fn refused_batch_allocates_no_id() {
    let k = keys();
    let mut idx = Index::new();
    let r = add_or_replace_multiple_documents(&mut idx, &k, cred("private-key"), vec![doc(vec![text("name", "x")])]);
    assert!(matches!(r, Err(ResponseError::SchemaInferenceFailed)));
    let r = add_or_replace_multiple_documents(&mut idx, &k, cred("private-key"), vec![]);
    assert!(matches!(r, Err(ResponseError::SchemaInferenceFailed)));
    let r = add_or_replace_multiple_documents(&mut idx, &k, cred("public-key"), vec![doc(vec![text("id", "1")])]);
    assert!(matches!(r, Err(ResponseError::InvalidToken(_))));
    let r = add_or_replace_multiple_documents(&mut idx, &k, None, vec![doc(vec![text("id", "1")])]);
    assert!(matches!(r, Err(ResponseError::MissingCredential)));
    assert!(idx.schema.is_none());
    let ok = add_or_replace_multiple_documents(&mut idx, &k, cred("private-key"), vec![doc(vec![text("id", "1")])]).unwrap();
    assert_eq!(ok.update_id, 0);
}

#[test]
fn empty_batch_accepted_once_schema_exists() {
    let k = keys();
    let mut idx = Index::new();
    add_or_replace_multiple_documents(&mut idx, &k, cred("private-key"), vec![doc(vec![text("id", "1")])]).unwrap();
    let r = add_or_replace_multiple_documents(&mut idx, &k, cred("private-key"), vec![]).unwrap();
    assert_eq!(r.update_id, 1);
    idx.apply_next();
    assert_eq!(idx.apply_next(), Some(1));
    assert_eq!(idx.status_of(1), Some(UpdateStatus::Processed));
    assert_eq!(idx.documents.len(), 1);
}

#[test]
fn upsert_same_identifier_replaces() {
    let k = keys();
    let mut idx = Index::new();
    add_or_replace_multiple_documents(&mut idx, &k, cred("private-key"), vec![doc(vec![text("id", "1"), text("title", "a"), text("color", "red")])]).unwrap();
    add_or_replace_multiple_documents(&mut idx, &k, cred("private-key"), vec![doc(vec![text("id", "1"), text("title", "b")])]).unwrap();
    idx.apply_next();
    idx.apply_next();
    assert_eq!(idx.documents.len(), 1);
    assert_eq!(names(&idx.documents[0].fields), vec!["id", "title"]);
    assert_eq!(as_str(value_of(&idx.documents[0].fields, "title")), Some("b".to_string()));
}

#[test]
fn partial_update_same_identifier_merges() {
    let k = keys();
    let mut idx = Index::new();
    add_or_update_multiple_documents(&mut idx, &k, cred("private-key"), vec![doc(vec![text("id", "1"), text("title", "a"), text("color", "red")])]).unwrap();
    add_or_update_multiple_documents(&mut idx, &k, cred("private-key"), vec![doc(vec![text("id", "1"), text("title", "b")])]).unwrap();
    idx.apply_next();
    idx.apply_next();
    assert_eq!(idx.documents.len(), 1);
    let f = &idx.documents[0].fields;
    assert_eq!(names(f), vec!["id", "title", "color"]);
    assert_eq!(as_str(value_of(f, "title")), Some("b".to_string()));
    assert_eq!(as_str(value_of(f, "color")), Some("red".to_string()));
}

#[test]
fn document_without_identifier_is_skipped() {
    let k = keys();
    let mut idx = Index::new();
    add_or_replace_multiple_documents(&mut idx, &k, cred("private-key"), vec![doc(vec![text("id", "1")]), doc(vec![text("title", "x")]), doc(vec![Field { name: "id".to_string(), value: Value::Bool(true) }])]).unwrap();
    idx.apply_next();
    assert_eq!(idx.documents.len(), 1);
}

#[test]
fn delete_unknown_identifier_is_noop() {
    let k = keys();
    let mut idx = Index::new();
    add_or_replace_multiple_documents(&mut idx, &k, cred("private-key"), vec![doc(vec![text("id", "a")])]).unwrap();
    idx.apply_next();
    let r = delete_document(&mut idx, &k, cred("private-key"), &"never".to_string()).unwrap();
    assert_eq!(r.update_id, 1);
    assert_eq!(idx.apply_next(), Some(1));
    assert_eq!(idx.status_of(1), Some(UpdateStatus::Processed));
    assert_eq!(idx.documents.len(), 1);
}

#[test]
fn delete_multiple_by_values() {
    let k = keys();
    let mut idx = Index::new();
    add_or_replace_multiple_documents(&mut idx, &k, cred("private-key"), vec![doc(vec![text("id", "a")]), doc(vec![Field { name: "id".to_string(), value: Value::Number("7".to_string()) }]), doc(vec![text("id", "c")])]).unwrap();
    idx.apply_next();
    assert_eq!(idx.documents.len(), 3);
    let vals = vec![Value::Str("a".to_string()), Value::Number("7".to_string()), Value::Null, Value::Bool(false)];
    delete_multiple_documents(&mut idx, &k, cred("private-key"), vals).unwrap();
    idx.apply_next();
    assert_eq!(idx.documents.len(), 1);
    assert_eq!(idx.documents[0].id, compute_document_id(&"c".to_string()));
}

#[test]
fn clear_all_removes_everything() {
    let k = keys();
    let mut idx = Index::new();
    add_or_replace_multiple_documents(&mut idx, &k, cred("private-key"), vec![doc(vec![text("id", "a")]), doc(vec![text("id", "b")])]).unwrap();
    clear_all_documents(&mut idx, &k, cred("private-key")).unwrap();
    idx.apply_next();
    assert_eq!(idx.documents.len(), 2);
    idx.apply_next();
    assert_eq!(idx.documents.len(), 0);
    assert!(idx.schema.is_some());
}

#[test]
fn round_trip_single_document() {
    let k = keys();
    let mut idx = Index::new();
    add_or_replace_multiple_documents(&mut idx, &k, cred("private-key"), vec![doc(vec![text("id", "a"), text("title", "x")])]).unwrap();
    assert_eq!(idx.schema.as_ref().unwrap().identifier, "id");
    idx.apply_next();
    let got = get_document(&idx, &k, cred("public-key"), &"a".to_string()).ok().unwrap();
    assert_eq!(got.id, compute_document_id(&"a".to_string()));
    assert_eq!(compute_document_id(&"a".to_string()), compute_document_id(&"a".to_string()));
    assert_eq!(names(&got.fields), vec!["id", "title"]);
    assert_eq!(as_str(value_of(&got.fields, "title")), Some("x".to_string()));
}

#[test]
fn get_missing_document_is_not_found() {
    let k = keys();
    let idx = Index::new();
    let r = get_document(&idx, &k, cred("public-key"), &"zz".to_string());
    assert!(matches!(r, Err(ResponseError::DocumentNotFound(s)) if s == "zz"));
    let r = get_document(&idx, &k, None, &"zz".to_string());
    assert!(matches!(r, Err(ResponseError::MissingCredential)));
}

#[test]
fn failed_status_is_terminal() {
    let k = keys();
    let mut idx = Index::new();
    add_or_replace_multiple_documents(&mut idx, &k, cred("private-key"), vec![doc(vec![text("id", "a")])]).unwrap();
    idx.record_result(0, ProcessingOutcome::Failed);
    idx.record_result(0, ProcessingOutcome::Processed);
    assert_eq!(idx.status_of(0), Some(UpdateStatus::Failed));
    assert_eq!(idx.apply_next(), Some(0));
    assert_eq!(idx.documents.len(), 0);
    assert_eq!(idx.status_of(0), Some(UpdateStatus::Failed));
    idx.record_result(9, ProcessingOutcome::Processed);
    assert_eq!(idx.status_of(9), None);
}

#[test]
fn identifier_text_of_values() {
    assert_eq!(value_to_string(&Value::Number("42".to_string())), Some("42".to_string()));
    assert_eq!(value_to_string(&Value::Str("x".to_string())), Some("x".to_string()));
    assert_eq!(value_to_string(&Value::Null), None);
    assert_eq!(value_to_string(&Value::Array(vec![])), None);
    assert_ne!(compute_document_id(&"a".to_string()), compute_document_id(&"b".to_string()));
}

#[test]
fn health_flag_admin_only() {
    let k = keys();
    let mut unhealthy = false;
    assert!(get_health(unhealthy).is_ok());
    assert!(matches!(set_unhealthy(&mut unhealthy, &k, cred("private-key")), Err(ResponseError::InvalidToken(_))));
    assert!(!unhealthy);
    set_unhealthy(&mut unhealthy, &k, cred("master-key")).unwrap();
    assert!(matches!(get_health(unhealthy), Err(ResponseError::Maintenance)));
    change_healthyness(&mut unhealthy, &k, cred("master-key"), true).unwrap();
    assert!(get_health(unhealthy).is_ok());
}

#[test]
fn key_list_for_admin() {
    let k = keys();
    let l = list(&k, cred("master-key")).ok().unwrap();
    assert_eq!(l.private, Some("private-key".to_string()));
    assert_eq!(l.public, Some("public-key".to_string()));
    assert!(list(&k, cred("public-key")).is_err());
}

#[test]
fn options_environment() {
    let o = Opt { db_path: "./data.ms".to_string(), http_addr: "127.0.0.1:7700".to_string(), master_key: None, env: "production".to_string() };
    assert!(matches!(o.checked(), Err(OptError::MasterKeyRequired)));
    let o = Opt { db_path: "./data.ms".to_string(), http_addr: "127.0.0.1:7700".to_string(), master_key: None, env: "staging".to_string() };
    assert_eq!(o.checked().ok().unwrap().env, "development");
}

fn loaded(n: usize) -> (Index, ApiKeys) {
    let k = keys();
    let mut idx = Index::new();
    let batch = (0..n).map(|i| doc(vec![text("id", &i.to_string()), text("title", "t"), text("color", "c")])).collect();
    add_or_replace_multiple_documents(&mut idx, &k, cred("private-key"), batch).unwrap();
    idx.apply_next();
    (idx, k)
}

fn ids_of(docs: &[Vec<&Field>]) -> Vec<u64> {
    docs.iter()
        .map(|d| match &d.iter().find(|f| f.name == "id").unwrap().value {
            Value::Str(s) => compute_document_id(s),
            _ => panic!("identifier is a string"),
        })
        .collect()
}

#[test]
fn browse_defaults_to_twenty_in_id_order() {
    let (idx, k) = loaded(25);
    let docs = get_all_documents(&idx, &k, cred("public-key"), None, None, None).ok().unwrap();
    assert_eq!(docs.len(), 20);
    let mut all: Vec<u64> = (0..25).map(|i| compute_document_id(&i.to_string())).collect();
    all.sort();
    assert_eq!(ids_of(&docs), all[..20].to_vec());
    assert!(docs.iter().all(|d| d.len() == 3));
}

#[test]
fn browse_offset_and_limit() {
    let (idx, k) = loaded(25);
    let mut all: Vec<u64> = (0..25).map(|i| compute_document_id(&i.to_string())).collect();
    all.sort();
    let docs = get_all_documents(&idx, &k, cred("public-key"), Some(22), Some(10), None).ok().unwrap();
    assert_eq!(ids_of(&docs), all[22..].to_vec());
    let docs = get_all_documents(&idx, &k, cred("public-key"), Some(5), Some(2), None).ok().unwrap();
    assert_eq!(ids_of(&docs), all[5..7].to_vec());
    let docs = get_all_documents(&idx, &k, cred("public-key"), Some(30), None, None).ok().unwrap();
    assert!(docs.is_empty());
    assert!(get_all_documents(&idx, &k, None, None, None, None).is_err());
}

#[test]
fn browse_selected_attributes() {
    let (idx, k) = loaded(3);
    let attrs = Some(vec!["color".to_string(), "id".to_string()]);
    let docs = get_all_documents(&idx, &k, cred("public-key"), None, None, attrs).ok().unwrap();
    assert_eq!(docs.len(), 3);
    for d in &docs {
        let n: Vec<&str> = d.iter().map(|f| f.name.as_str()).collect();
        assert_eq!(n, vec!["id", "color"]);
    }
}

#[test]
fn unknown_index_is_not_found() {
    let mut db = Database::new();
    assert!(matches!(db.index_position(&"movies".to_string()), Err(ResponseError::IndexNotFound(n)) if n == "movies"));
    assert!(db.create_index("movies".to_string()));
    assert!(!db.create_index("movies".to_string()));
    assert!(db.create_index("books".to_string()));
    assert_eq!(db.index_position(&"movies".to_string()).ok(), Some(0));
    assert_eq!(db.index_position(&"books".to_string()).ok(), Some(1));
    assert_eq!(db.indexes.len(), 2);
}
