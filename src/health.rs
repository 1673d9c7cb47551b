use vstd::prelude::*;
use crate::acl::{ACL, ApiKeys};
use crate::routes::{ResponseError, check_access, refusal};

verus! {

/// Reports maintenance while the server is marked unhealthy.
pub fn get_health(unhealthy: bool) -> (r: Result<(), ResponseError>)
    ensures
        unhealthy ==> r == Err::<(), ResponseError>(ResponseError::Maintenance),
        !unhealthy ==> r is Ok,
{
    if unhealthy {
        Err(ResponseError::Maintenance)
    } else {
        Ok(())
    }
}

/// Clears the maintenance mark; administrators only.
pub fn set_healthy(unhealthy: &mut bool, keys: &ApiKeys, credential: Option<String>) -> (r: Result<
    (),
    ResponseError,
>)
    ensures
        refusal(*keys, credential, ACL::Admin) is Some ==> r == Err::<(), ResponseError>(
            refusal(*keys, credential, ACL::Admin)->Some_0,
        ) && *final(unhealthy) == *old(unhealthy),
        refusal(*keys, credential, ACL::Admin) is None ==> r is Ok && !*final(unhealthy),
{
    if let Err(e) = check_access(keys, credential, ACL::Admin) {
        return Err(e);
    }
    *unhealthy = false;
    Ok(())
}

/// Sets the maintenance mark; administrators only.
pub fn set_unhealthy(unhealthy: &mut bool, keys: &ApiKeys, credential: Option<String>) -> (r:
    Result<(), ResponseError>)
    ensures
        refusal(*keys, credential, ACL::Admin) is Some ==> r == Err::<(), ResponseError>(
            refusal(*keys, credential, ACL::Admin)->Some_0,
        ) && *final(unhealthy) == *old(unhealthy),
        refusal(*keys, credential, ACL::Admin) is None ==> r is Ok && *final(unhealthy),
{
    if let Err(e) = check_access(keys, credential, ACL::Admin) {
        return Err(e);
    }
    *unhealthy = true;
    Ok(())
}

/// Marks the server healthy where `health` holds, unhealthy otherwise;
/// administrators only.
pub fn change_healthyness(
    unhealthy: &mut bool,
    keys: &ApiKeys,
    credential: Option<String>,
    health: bool,
) -> (r: Result<(), ResponseError>)
    ensures
        refusal(*keys, credential, ACL::Admin) is Some ==> r == Err::<(), ResponseError>(
            refusal(*keys, credential, ACL::Admin)->Some_0,
        ) && *final(unhealthy) == *old(unhealthy),
        refusal(*keys, credential, ACL::Admin) is None ==> r is Ok && *final(unhealthy) == !health,
{
    if health {
        set_healthy(unhealthy, keys, credential)
    } else {
        set_unhealthy(unhealthy, keys, credential)
    }
}

} // verus!
