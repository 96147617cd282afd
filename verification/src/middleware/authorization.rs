//! The ownership check: restrict a route to the owner of a named group.
//!
//! Only valid composed after session authentication: the resolved
//! identity must already be established. This middleware loads the group
//! by name and compares its owner with the caller — it implements no
//! other permission model.

use vstd::prelude::*;

use crate::account::Directory;
use crate::errors::AppError;
use crate::middleware::auth::AuthenticatedUser;

verus! {

/// Admits the caller exactly when the named group exists and the caller
/// owns it: `NotFound` for an absent group, `Forbidden` for anyone but
/// the owner.
pub fn auth_middleware(dir: &Directory, user: &AuthenticatedUser, group_name: &str) -> (r: Result<
    (),
    AppError,
>)
    requires
        dir.wf(),
    ensures
        !dir.has_group(group_name@) <==> r == Result::<(), AppError>::Err(AppError::NotFound),
        dir.has_group(group_name@) ==> (r is Ok <==> exists|i: int|
            0 <= i < dir.groups().len() && dir.groups()[i].name@ == group_name@
                && dir.groups()[i].owner_id == user.id),
        r is Err ==> r->Err_0 == AppError::NotFound || r->Err_0 == AppError::Forbidden,
{
    let group = match dir.find_group_by_name(group_name) {
        Option::Some(g) => g,
        Option::None => {
            return Result::Err(AppError::NotFound);
        },
    };
    if group.owner_id.hi == user.id.hi && group.owner_id.lo == user.id.lo {
        proof {
            assert(group.owner_id == user.id);
        }
        Result::Ok(())
    } else {
        proof {
            let gs = dir.groups();
            assert forall|i: int|
                0 <= i < gs.len() && gs[i].name@ == group_name@ implies gs[i].owner_id
                != user.id by {
                let j = choose|j: int| 0 <= j < gs.len() && gs[j] == *group;
                if i < j {
                    assert(gs[i].name@ != gs[j].name@);
                } else if j < i {
                    assert(gs[j].name@ != gs[i].name@);
                }
            }
        }
        Result::Err(AppError::Forbidden)
    }
}

} // verus!
