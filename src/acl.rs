use vstd::prelude::*;

verus! {

/// The capability an operation requires, from the strictest to the loosest.
#[derive(Debug)]
pub enum ACL {
    Admin,
    Private,
    Public,
}

/// The three optional secrets configured once at start-up.
#[derive(Debug)]
pub struct ApiKeys {
    pub master: Option<String>,
    pub private: Option<String>,
    pub public: Option<String>,
}

/// Why a credential was refused.
#[derive(Debug)]
pub enum AuthError {
    /// No credential was presented.
    MissingCredential,
    /// The credential presented does not satisfy the required capability.
    InvalidCredential(String),
}

/// Whether `key` is present and equal to `k`.
pub open spec fn key_is(key: Option<String>, k: Seq<char>) -> bool {
    match key {
        Some(s) => s@ == k,
        None => false,
    }
}

/// Whether the credential `k` satisfies `acl` under `keys`: `Admin` needs the
/// master key, `Private` the master or private key, `Public` any of the three.
pub open spec fn grants(keys: ApiKeys, k: Seq<char>, acl: ACL) -> bool {
    match acl {
        ACL::Admin => key_is(keys.master, k),
        ACL::Private => key_is(keys.master, k) || key_is(keys.private, k),
        ACL::Public => key_is(keys.master, k) || key_is(keys.private, k) || key_is(
            keys.public,
            k,
        ),
    }
}

fn matches_key(key: &Option<String>, k: &String) -> (r: bool)
    ensures
        r == key_is(*key, k@),
{
    match key {
        Some(s) => *s == *k,
        None => false,
    }
}

/// Decides whether the presented credential may perform an operation that
/// requires `acl`.
pub fn is_allowed(keys: &ApiKeys, credential: Option<String>, acl: ACL) -> (r: Result<(), AuthError>)
    ensures
        credential is None ==> r == Err::<(), AuthError>(AuthError::MissingCredential),
        credential is Some ==> (r is Ok <==> grants(*keys, credential->Some_0@, acl)),
        credential is Some && r is Err ==> r == Err::<(), AuthError>(
            AuthError::InvalidCredential(credential->Some_0),
        ),
{
    let k = match credential {
        Some(k) => k,
        None => return Err(AuthError::MissingCredential),
    };
    let ok = match acl {
        ACL::Admin => matches_key(&keys.master, &k),
        ACL::Private => matches_key(&keys.master, &k) || matches_key(&keys.private, &k),
        ACL::Public => matches_key(&keys.master, &k) || matches_key(&keys.private, &k)
            || matches_key(&keys.public, &k),
    };
    if ok {
        Ok(())
    } else {
        Err(AuthError::InvalidCredential(k))
    }
}

/// Only the exact master key is granted the administrative capability: the
/// private and public keys, when they differ from it, are refused.
pub proof fn lemma_admin_needs_master(keys: ApiKeys, k: Seq<char>)
    ensures
        grants(keys, k, ACL::Admin) <==> key_is(keys.master, k),
        !key_is(keys.master, k) ==> !grants(keys, k, ACL::Admin),
        grants(keys, k, ACL::Admin) ==> grants(keys, k, ACL::Private) && grants(
            keys,
            k,
            ACL::Public,
        ),
        grants(keys, k, ACL::Private) ==> grants(keys, k, ACL::Public),
{
}

} // verus!
