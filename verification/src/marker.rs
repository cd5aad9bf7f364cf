//! The kinds of marker file that declare a service root, and their precedence.

use core::cmp::Ordering;
use vstd::prelude::*;
use vstd::std_specs::cmp::PartialOrdSpec;

verus! {

/// The kind of a marker file. Where several markers share a directory the
/// kind of lowest rank takes precedence.
#[derive(Debug, Clone, Copy, PartialEq, Eq, Structural, Hash)]
pub enum DepsfileType {
    Depsfile,
    Buildfile,
    Justfile,
    Makefile,
}

impl DepsfileType {
    /// Position in the order of precedence; lower wins.
    pub open spec fn rank_of(self) -> nat {
        match self {
            DepsfileType::Depsfile => 0,
            DepsfileType::Buildfile => 1,
            DepsfileType::Justfile => 2,
            DepsfileType::Makefile => 3,
        }
    }

    /// Position in the order of precedence; lower wins.
    pub fn rank(&self) -> (r: u8)
        ensures
            r == self.rank_of(),
    {
        match self {
            DepsfileType::Depsfile => 0,
            DepsfileType::Buildfile => 1,
            DepsfileType::Justfile => 2,
            DepsfileType::Makefile => 3,
        }
    }

    /// Whether this kind takes precedence over `other`.
    pub fn precedes(&self, other: &DepsfileType) -> (r: bool)
        ensures
            r == (self.rank_of() < other.rank_of()),
    {
        *self < *other
    }
}

impl PartialOrd for DepsfileType {
    fn partial_cmp(&self, other: &DepsfileType) -> (r: Option<Ordering>) {
        let a = self.rank();
        let b = other.rank();
        if a < b {
            Some(Ordering::Less)
        } else if a == b {
            Some(Ordering::Equal)
        } else {
            Some(Ordering::Greater)
        }
    }
}

impl vstd::std_specs::cmp::PartialOrdSpecImpl for DepsfileType {
    open spec fn obeys_partial_cmp_spec() -> bool {
        true
    }

    open spec fn partial_cmp_spec(&self, other: &DepsfileType) -> Option<Ordering> {
        if self.rank_of() < other.rank_of() {
            Some(Ordering::Less)
        } else if self.rank_of() == other.rank_of() {
            Some(Ordering::Equal)
        } else {
            Some(Ordering::Greater)
        }
    }
}

/// Precedence is a strict total order on the four kinds:
/// `Depsfile < Buildfile < Justfile < Makefile`. Two kinds of equal rank are
/// the same kind, any two distinct kinds are ordered one way, and the order
/// is transitive.
pub proof fn lemma_precedence_total_order(a: DepsfileType, b: DepsfileType, c: DepsfileType)
    ensures
        DepsfileType::Depsfile.partial_cmp_spec(&DepsfileType::Buildfile) == Some(Ordering::Less),
        DepsfileType::Buildfile.partial_cmp_spec(&DepsfileType::Justfile) == Some(Ordering::Less),
        DepsfileType::Justfile.partial_cmp_spec(&DepsfileType::Makefile) == Some(Ordering::Less),
        a.partial_cmp_spec(&b) == Some(Ordering::Equal) <==> a == b,
        a.partial_cmp_spec(&b) == Some(Ordering::Less) <==> b.partial_cmp_spec(&a) == Some(
            Ordering::Greater,
        ),
        a.partial_cmp_spec(&b) == Some(Ordering::Less) && b.partial_cmp_spec(&c) == Some(
            Ordering::Less,
        ) ==> a.partial_cmp_spec(&c) == Some(Ordering::Less),
        a.partial_cmp_spec(&b) is Some,
{
}

} // verus!
