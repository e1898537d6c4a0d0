use vstd::prelude::*;

verus! {

/// A single versioned unit of SQL work.
///
/// Ordering and equality throughout this crate are defined solely by
/// `version`; the statement body is never compared. Within any one
/// [`OrderedArray`](crate::ordered::OrderedArray) all versions are expected
/// to be distinct.
#[derive(Clone, Debug)]
pub struct Migration {
    pub version: u64,
    pub sql: String,
}

impl PartialEq for Migration {
    fn eq(&self, other: &Migration) -> (r: bool) {
        self.version == other.version
    }
}

impl vstd::std_specs::cmp::PartialEqSpecImpl for Migration {
    open spec fn obeys_eq_spec() -> bool {
        true
    }

    open spec fn eq_spec(&self, other: &Migration) -> bool {
        self.version == other.version
    }
}

impl PartialOrd for Migration {
    fn partial_cmp(&self, other: &Migration) -> (r: Option<core::cmp::Ordering>) {
        if self.version < other.version {
            Some(core::cmp::Ordering::Less)
        } else if self.version == other.version {
            Some(core::cmp::Ordering::Equal)
        } else {
            Some(core::cmp::Ordering::Greater)
        }
    }
}

impl vstd::std_specs::cmp::PartialOrdSpecImpl for Migration {
    open spec fn obeys_partial_cmp_spec() -> bool {
        true
    }

    open spec fn partial_cmp_spec(&self, other: &Migration) -> Option<core::cmp::Ordering> {
        if self.version < other.version {
            Some(core::cmp::Ordering::Less)
        } else if self.version == other.version {
            Some(core::cmp::Ordering::Equal)
        } else {
            Some(core::cmp::Ordering::Greater)
        }
    }
}

} // verus!
