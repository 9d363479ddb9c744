use vstd::prelude::*;

use crate::text::{is_blank, is_blank_text};
use crate::{Error, Result};

verus! {

/// The outcome of reading a required variable called `name` whose value is `value` (`None` when
/// it is not set, or not valid Unicode): a missing or blank value is an error.
pub open spec fn required_outcome(name: Seq<char>, value: Option<Seq<char>>, r: Result<String>) -> bool {
    match value {
        None => r matches Err(Error::MissingVariable { name: n }) && n@ == name,
        Some(v) => if is_blank_text(v) {
            r matches Err(Error::EmptyVariable { name: n }) && n@ == name
        } else {
            r matches Ok(s) && s@ == v
        },
    }
}

/// The view of an optional string.
pub open spec fn option_text(value: Option<String>) -> Option<Seq<char>> {
    match value {
        Some(v) => Some(v@),
        None => None,
    }
}

/// The value of the required variable `name`, given what the environment holds for it.
pub fn required_string(name: &str, value: Option<String>) -> (r: Result<String>)
    ensures
        required_outcome(name@, option_text(value), r),
{
    match value {
        None => Err(Error::MissingVariable { name: String::from_str(name) }),
        Some(v) => {
            if is_blank(v.as_str()) {
                Err(Error::EmptyVariable { name: String::from_str(name) })
            } else {
                Ok(v)
            }
        },
    }
}

/// The path held by the required variable `name`, given what the environment holds for it.
pub fn required_path(name: &str, value: Option<String>) -> (r: Result<String>)
    ensures
        required_outcome(name@, option_text(value), r),
{
    required_string(name, value)
}

/// The path held by an optional variable, given what the environment holds for it: a blank
/// value counts as unset.
pub fn optional_path(value: Option<String>) -> (r: Option<String>)
    ensures
        match value {
            Some(v) => if is_blank_text(v@) {
                r is None
            } else {
                r == Some(v)
            },
            None => r is None,
        },
{
    match value {
        Some(v) => {
            if is_blank(v.as_str()) {
                None
            } else {
                Some(v)
            }
        },
        None => None,
    }
}

} // verus!
