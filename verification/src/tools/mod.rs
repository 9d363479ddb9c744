pub mod trim_silence;

use vstd::prelude::*;

use crate::env::required_string;
use crate::text::is_blank_text;
use crate::{Error, Result};

verus! {

/// The tools that this crate offers.
#[derive(Clone, Copy, Debug, PartialEq, Eq, Structural)]
pub enum Tool {
    TrimSilence,
}

/// The tool whose name is `name`, if there is one.
pub open spec fn tool_named(name: Seq<char>) -> Option<Tool> {
    if name == "trim-silence"@ {
        Some(Tool::TrimSilence)
    } else {
        None
    }
}

/// The names of the tools, in the order in which they are listed.
pub open spec fn tool_names() -> Seq<Seq<char>> {
    seq!["trim-silence"@]
}

impl Tool {
    /// The environment variable that selects the tool.
    pub const ENV_KEY: &'static str = "MOVIOLA_TOOL";

    /// The tool that the environment selects, given what it holds for `ENV_KEY` (`None` when the
    /// variable is not set).
    pub fn from_env(value: Option<String>) -> (r: Result<Tool>)
        ensures
            match value {
                None => r matches Err(Error::MissingVariable { name: n }) && n@ == Self::ENV_KEY@,
                Some(v) => if is_blank_text(v@) {
                    r matches Err(Error::EmptyVariable { name: n }) && n@ == Self::ENV_KEY@
                } else {
                    match tool_named(v@) {
                        Some(tool) => r == Ok::<Tool, Error>(tool),
                        None => r matches Err(Error::UnknownTool { name: n }) && n@ == v@,
                    }
                },
            },
    {
        let name = required_string(Self::ENV_KEY, value)?;
        Self::from_name(name.as_str())
    }

    /// The tool named `name`; an unknown name is an error.
    pub fn from_name(name: &str) -> (r: Result<Tool>)
        ensures
            match tool_named(name@) {
                Some(tool) => r == Ok::<Tool, Error>(tool),
                None => r matches Err(Error::UnknownTool { name: n }) && n@ == name@,
            },
    {
        let given = String::from_str(name);
        if given == String::from_str("trim-silence") {
            Ok(Tool::TrimSilence)
        } else {
            Err(Error::UnknownTool { name: given })
        }
    }

    /// The names of the tools.
    pub fn available_tools() -> (names: &'static [&'static str])
        ensures
            names@.map_values(|s: &str| s@) == tool_names(),
    {
        let names: &'static [&'static str] = &["trim-silence"];
        assert(names@.map_values(|s: &str| s@) =~= tool_names());
        names
    }
}

/// A name selects a tool exactly when it is one of the listed tool names.
pub proof fn lemma_listed_names_are_the_known_tools(name: Seq<char>)
    ensures
        tool_named(name) is Some <==> tool_names().contains(name),
{
    if tool_named(name) is Some {
        assert(tool_names()[0] == name);
    }
}

} // verus!
