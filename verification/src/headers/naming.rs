//! How the names of the exported functions are spelled in the header.

use vstd::prelude::*;
use vstd::string::*;

verus! {

/// A transform of names that the user of the library brings along.
///
/// Nothing is known of what it returns.
pub trait NameTransform {
    fn transform(&self, name: &str) -> String;
}

/// Allow user to specify how the generated functions are named.
pub enum NamingConvention {
    /// The name as it is.
    Default,
    /// The name followed by a fixed suffix.
    Suffix(String),
    /// The name behind a fixed prefix.
    Prefix(String),
    /// Whatever the transform makes of the name.
    Custom(Box<dyn NameTransform>),
}

impl NamingConvention {
    /// Whether `formatted` may stand for `name` under this convention. The
    /// three fixed conventions admit one spelling each; a custom transform
    /// decides for itself.
    pub open spec fn admits(&self, name: Seq<char>, formatted: Seq<char>) -> bool {
        match self {
            NamingConvention::Default => formatted == name,
            NamingConvention::Suffix(suffix) => formatted == name + suffix@,
            NamingConvention::Prefix(prefix) => formatted == prefix@ + name,
            NamingConvention::Custom(_) => true,
        }
    }

    /// Whether the convention fixes the spelling of every name.
    pub open spec fn is_fixed(&self) -> bool {
        !(self is Custom)
    }

    /// The spelling of `name` under a fixed convention.
    pub open spec fn fixed(&self, name: Seq<char>) -> Seq<char> {
        match self {
            NamingConvention::Suffix(suffix) => name + suffix@,
            NamingConvention::Prefix(prefix) => prefix@ + name,
            _ => name,
        }
    }

    /// Spells `name` as the convention asks.
    pub fn apply(&self, name: &str) -> (formatted: String)
        ensures
            self.admits(name@, formatted@),
    {
        match self {
            NamingConvention::Default => String::from_str(name),
            NamingConvention::Suffix(suffix) => String::from_str(name).concat(suffix.as_str()),
            NamingConvention::Prefix(prefix) => prefix.clone().concat(name),
            NamingConvention::Custom(transform) => transform.transform(name),
        }
    }
}

} // verus!
