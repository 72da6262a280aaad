use vstd::prelude::*;
use crate::json::{Json, member};

verus! {

/// Why a payload cannot be stored as a plan.
#[derive(Debug, PartialEq, Eq)]
pub enum PlanError {
    /// The payload has no `objectType` member.
    MissingObjectType,
    /// The payload's `objectType` is not the string `plan`.
    NotAPlan,
    /// The payload has no `objectId` member.
    MissingObjectId,
    /// The payload's `objectId` is not a string.
    ObjectIdNotText,
}

/// The key under which a plan payload is stored: its `objectId`, where its `objectType` is
/// `plan` and its `objectId` is a string.
pub open spec fn plan_key(payload: Json) -> Result<String, PlanError> {
    match member(payload, "objectType"@) {
        None => Err(PlanError::MissingObjectType),
        Some(t) => if t matches Json::Str(s) && s@ == "plan"@ {
            match member(payload, "objectId"@) {
                None => Err(PlanError::MissingObjectId),
                Some(Json::Str(id)) => Ok(id),
                Some(_) => Err(PlanError::ObjectIdNotText),
            }
        } else {
            Err(PlanError::NotAPlan)
        },
    }
}

/// Reads the storage key of a plan payload.
pub fn plan_object_id(payload: &Json) -> (r: Result<String, PlanError>)
    ensures
        r == plan_key(*payload),
{
    let object_type = match payload.get("objectType") {
        Some(t) => t,
        None => {
            return Err(PlanError::MissingObjectType);
        },
    };
    let plan = "plan".to_owned();
    let is_plan = match object_type {
        Json::Str(s) => *s == plan,
        _ => false,
    };
    if !is_plan {
        return Err(PlanError::NotAPlan);
    }
    match payload.get("objectId") {
        None => Err(PlanError::MissingObjectId),
        Some(Json::Str(id)) => Ok(id.clone()),
        Some(_) => Err(PlanError::ObjectIdNotText),
    }
}

} // verus!
