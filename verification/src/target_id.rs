//! Names of targets.
use vstd::prelude::*;
use vstd::string::*;

verus! {

/// Stable identity of a target, chosen by the caller.
#[derive(Debug, PartialEq, Eq, PartialOrd, Ord, Hash)]
pub struct TargetId {
    value: String,
}

impl View for TargetId {
    type V = Seq<char>;

    closed spec fn view(&self) -> Seq<char> {
        self.value@
    }
}

impl TargetId {
    pub fn new(value: String) -> (result: TargetId)
        ensures
            result@ == value@,
    {
        TargetId { value }
    }

    pub fn as_str(&self) -> (result: &str)
        ensures
            result@ == self@,
    {
        self.value.as_str()
    }

    /// Whether both name the same target.
    pub fn same(&self, other: &TargetId) -> (result: bool)
        ensures
            result == (self@ == other@),
    {
        self.value == other.value
    }
}

impl Clone for TargetId {
    fn clone(&self) -> (result: TargetId)
        ensures
            result == *self,
    {
        TargetId { value: self.value.clone() }
    }
}

impl From<&str> for TargetId {
    fn from(value: &str) -> (result: TargetId)
        ensures
            result@ == value@,
    {
        TargetId { value: String::from_str(value) }
    }
}

impl vstd::std_specs::convert::FromSpecImpl<&str> for TargetId {
    open spec fn obeys_from_spec() -> bool {
        false
    }

    open spec fn from_spec(value: &str) -> TargetId {
        arbitrary()
    }
}

impl From<String> for TargetId {
    fn from(value: String) -> (result: TargetId)
        ensures
            result@ == value@,
    {
        TargetId { value }
    }
}

impl vstd::std_specs::convert::FromSpecImpl<String> for TargetId {
    open spec fn obeys_from_spec() -> bool {
        true
    }

    closed spec fn from_spec(value: String) -> TargetId {
        TargetId { value }
    }
}

} // verus!
