//! What `==` means on names, data, handles and values. Blob names can
//! always be compared. Tree names can be compared only if both are
//! comparable: a name that is not equals nothing, not even itself.

use vstd::prelude::*;
use vstd::std_specs::cmp::PartialEqSpecImpl;
use crate::names::{BlobName, Data, Handle, Ref, TreeName, Value};

verus! {

impl PartialEq for BlobName {
    fn eq(&self, other: &Self) -> (r: bool) {
        self.same(other)
    }
}

impl PartialEqSpecImpl for BlobName {
    open spec fn obeys_eq_spec() -> bool {
        true
    }

    open spec fn eq_spec(&self, other: &Self) -> bool {
        *self == *other
    }
}

impl PartialEq for TreeName {
    fn eq(&self, other: &Self) -> (r: bool) {
        if self.tag != other.tag {
            return false;
        }
        match (self.eq, other.eq) {
            (true, true) => self.name.same(&other.name),
            _ => false,
        }
    }
}

impl PartialEqSpecImpl for TreeName {
    open spec fn obeys_eq_spec() -> bool {
        true
    }

    open spec fn eq_spec(&self, other: &Self) -> bool {
        self.matches(*other)
    }
}

impl PartialEq for Data {
    fn eq(&self, other: &Self) -> (r: bool) {
        match (self.lower(), other.lower()) {
            (Ref::Blob(x), Ref::Blob(y)) => x == y,
            (Ref::Tree(x), Ref::Tree(y)) => x == y,
            _ => false,
        }
    }
}

impl PartialEqSpecImpl for Data {
    open spec fn obeys_eq_spec() -> bool {
        true
    }

    open spec fn eq_spec(&self, other: &Self) -> bool {
        self.matches(*other)
    }
}

impl PartialEq for Handle {
    fn eq(&self, other: &Self) -> (r: bool) {
        match (self, other) {
            (Handle::Data(x), Handle::Data(y)) => x == y,
            _ => false,
        }
    }
}

impl PartialEqSpecImpl for Handle {
    open spec fn obeys_eq_spec() -> bool {
        true
    }

    open spec fn eq_spec(&self, other: &Self) -> bool {
        self.matches(*other)
    }
}

impl PartialEq for Value {
    fn eq(&self, other: &Self) -> (r: bool) {
        self.relax() == other.relax()
    }
}

impl PartialEqSpecImpl for Value {
    open spec fn obeys_eq_spec() -> bool {
        true
    }

    open spec fn eq_spec(&self, other: &Self) -> bool {
        self.widened().matches(other.widened())
    }
}

} // verus!
