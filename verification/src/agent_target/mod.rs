//! The target agent: it configures and starts the target on request.

pub mod shared;
pub mod xml_parser;
pub mod conf_handler;
pub mod messages;

use vstd::prelude::*;

verus! {

/// Where a parameter takes effect: in the environment of the target, in its
/// service configuration files, or when it is built.
#[derive(Debug, Clone, Copy)]
pub enum ParameterLevel {
    Runtime,
    ServiceConfig,
    Compile,
}

impl ParameterLevel {
    /// The variant named by `s`, if any.
    pub open spec fn spec_from_name(s: Seq<char>) -> Option<ParameterLevel> {
        if s == "runtime"@ {
            Some(ParameterLevel::Runtime)
        } else if s == "service-config"@ {
            Some(ParameterLevel::ServiceConfig)
        } else if s == "compile"@ {
            Some(ParameterLevel::Compile)
        } else {
            None
        }
    }

    pub fn from_name(s: &str) -> (r: Option<ParameterLevel>)
        ensures
            r == Self::spec_from_name(s@),
    {
        if crate::text::str_eq(s, "runtime") {
            Some(ParameterLevel::Runtime)
        } else if crate::text::str_eq(s, "service-config") {
            Some(ParameterLevel::ServiceConfig)
        } else if crate::text::str_eq(s, "compile") {
            Some(ParameterLevel::Compile)
        } else {
            None
        }
    }
}

impl std::str::FromStr for ParameterLevel {
    type Err = &'static str;

    fn from_str(s: &str) -> (r: Result<Self, Self::Err>)
        ensures
            match ParameterLevel::spec_from_name(s@) {
                Some(v) => r == Ok::<ParameterLevel, &'static str>(v),
                None => r matches Err(e) && e@ == "Parameter Level - not a valid value"@,
            },
    {
        match ParameterLevel::from_name(s) {
            Some(v) => Ok(v),
            None => Err("Parameter Level - not a valid value"),
        }
    }
}

} // verus!
