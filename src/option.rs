use vstd::prelude::*;
use crate::acl::{ACL, ApiKeys};
use crate::routes::{ResponseError, check_access, refusal};

verus! {

/// The launch options of the server.
#[derive(Debug)]
pub struct Opt {
    /// Where the database lives.
    pub db_path: String,
    /// The address the server listens on.
    pub http_addr: String,
    /// The key that allows everything.
    pub master_key: Option<String>,
    /// `production` or `development`.
    pub env: String,
}

/// Why launch options are refused.
#[derive(Debug)]
pub enum OptError {
    /// Production mode needs a master key.
    MasterKeyRequired,
}

impl Opt {
    /// Settles the environment: production needs a master key and is kept;
    /// anything else becomes `development`.
    pub fn checked(self) -> (r: Result<Opt, OptError>)
        ensures
            self.env@ == "production"@ && self.master_key is None ==> r is Err,
            self.env@ == "production"@ && self.master_key is Some ==> r == Ok::<Opt, OptError>(self),
            self.env@ != "production"@ ==> r is Ok && r->Ok_0.env@ == "development"@
                && r->Ok_0.db_path == self.db_path && r->Ok_0.http_addr == self.http_addr
                && r->Ok_0.master_key == self.master_key,
    {
        let production = "production".to_owned();
        if self.env == production {
            if self.master_key.is_none() {
                return Err(OptError::MasterKeyRequired);
            }
            Ok(self)
        } else {
            Ok(Opt {
                db_path: self.db_path,
                http_addr: self.http_addr,
                master_key: self.master_key,
                env: "development".to_owned(),
            })
        }
    }
}

/// The private and public keys, as an administrator sees them.
#[derive(Debug)]
pub struct KeyList {
    pub private: Option<String>,
    pub public: Option<String>,
}

fn clone_key(k: &Option<String>) -> (r: Option<String>)
    ensures
        r == *k,
{
    match k {
        Some(s) => Some(s.clone()),
        None => None,
    }
}

/// Lists the private and public keys; administrators only.
pub fn list(keys: &ApiKeys, credential: Option<String>) -> (r: Result<KeyList, ResponseError>)
    ensures
        refusal(*keys, credential, ACL::Admin) is Some ==> r == Err::<KeyList, ResponseError>(
            refusal(*keys, credential, ACL::Admin)->Some_0,
        ),
        refusal(*keys, credential, ACL::Admin) is None ==> r == Ok::<KeyList, ResponseError>(
            KeyList { private: keys.private, public: keys.public },
        ),
{
    if let Err(e) = check_access(keys, credential, ACL::Admin) {
        return Err(e);
    }
    Ok(KeyList { private: clone_key(&keys.private), public: clone_key(&keys.public) })
}

} // verus!
