//! Output format selection for the raw-dump commands. The serialization
//! itself happens in the process layer; the library only names the format.

use vstd::prelude::*;

use crate::text::str_eq;

verus! {

/// A structured-output format.
#[derive(Clone, Copy, PartialEq, Eq, Structural, Debug)]
pub enum SerdePrinter {
    Yaml,
    Json,
}

impl SerdePrinter {
    /// The format a command-line argument names, if any.
    pub fn of_str(s: &str) -> (r: Option<SerdePrinter>)
        ensures
            match r {
                Some(SerdePrinter::Json) => s@ == "json"@,
                Some(SerdePrinter::Yaml) => s@ == "yaml"@,
                None => s@ != "json"@ && s@ != "yaml"@,
            },
    {
        if str_eq(s, "json") {
            Some(SerdePrinter::Json)
        } else if str_eq(s, "yaml") {
            Some(SerdePrinter::Yaml)
        } else {
            None
        }
    }
}

impl std::str::FromStr for SerdePrinter {
    type Err = String;

    fn from_str(s: &str) -> Result<Self, Self::Err> {
        match Self::of_str(s) {
            Some(v) => Ok(v),
            None => Err("Unknown printer variant".to_owned()),
        }
    }
}

} // verus!
