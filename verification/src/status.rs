//! Vulnerability statuses a CSAF advisory can assert for a product, with the
//! fixed precedence order used to resolve conflicting assertions.

use vstd::prelude::*;

verus! {

/// Status a CSAF vulnerability statement assigns to a product.
#[derive(Clone, Copy, Debug, PartialEq, Eq, Structural)]
pub enum ProductCveStatus {
    Fixed,
    FirstFixed,
    FirstAffected,
    KnownAffected,
    LastAffected,
    KnownNotAffected,
    Recommended,
    UnderInvestigation,
}

/// Display colour for a status; mirrors the closed set of label colours the
/// result tables use.
#[derive(Clone, Copy, Debug, PartialEq, Eq, Structural)]
pub enum StatusColor {
    Green,
    Red,
    Blue,
    Orange,
    Grey,
}

/// Rank of a status in the fixed conflict-resolution order: when two
/// relationship paths assert different statuses for the same product, the
/// status with the higher rank wins. Most-resolved outcomes rank above
/// unresolved ones, so remediation is reported over alarm.
pub open spec fn spec_precedence(s: ProductCveStatus) -> int {
    match s {
        ProductCveStatus::Fixed => 7,
        ProductCveStatus::FirstFixed => 6,
        ProductCveStatus::KnownNotAffected => 5,
        ProductCveStatus::Recommended => 4,
        ProductCveStatus::LastAffected => 3,
        ProductCveStatus::KnownAffected => 2,
        ProductCveStatus::FirstAffected => 1,
        ProductCveStatus::UnderInvestigation => 0,
    }
}

/// Two distinct statuses never share a rank, so "the status of highest
/// precedence" in a set of candidates is unique.
pub proof fn lemma_precedence_injective(a: ProductCveStatus, b: ProductCveStatus)
    ensures
        spec_precedence(a) == spec_precedence(b) ==> a == b,
{
}

impl ProductCveStatus {
    /// Rank of this status in the fixed precedence order.
    pub fn precedence(&self) -> (r: u8)
        ensures
            r as int == spec_precedence(*self),
    {
        match self {
            ProductCveStatus::Fixed => 7,
            ProductCveStatus::FirstFixed => 6,
            ProductCveStatus::KnownNotAffected => 5,
            ProductCveStatus::Recommended => 4,
            ProductCveStatus::LastAffected => 3,
            ProductCveStatus::KnownAffected => 2,
            ProductCveStatus::FirstAffected => 1,
            ProductCveStatus::UnderInvestigation => 0,
        }
    }

    /// Whether this status beats `other` under the fixed precedence order.
    pub fn stronger_than(&self, other: &ProductCveStatus) -> (r: bool)
        ensures
            r == (spec_precedence(*self) > spec_precedence(*other)),
    {
        self.precedence() > other.precedence()
    }

    /// Human-readable label for the status.
    pub fn label(&self) -> (r: &'static str)
        ensures
            r@ == spec_label(*self),
    {
        match self {
            ProductCveStatus::Fixed => "Fixed",
            ProductCveStatus::FirstFixed => "First fixed",
            ProductCveStatus::FirstAffected => "First Affected",
            ProductCveStatus::KnownAffected => "Known affected",
            ProductCveStatus::LastAffected => "Last affected",
            ProductCveStatus::KnownNotAffected => "Knwon not affected",
            ProductCveStatus::Recommended => "Recommended",
            ProductCveStatus::UnderInvestigation => "Under investigation",
        }
    }

    /// Display colour for the status: affected states are red, fixed states
    /// green, "not affected" blue, recommendations orange, open
    /// investigations grey.
    pub fn color(&self) -> (r: StatusColor)
        ensures
            r == spec_color(*self),
    {
        match self {
            ProductCveStatus::Fixed => StatusColor::Green,
            ProductCveStatus::FirstFixed => StatusColor::Green,
            ProductCveStatus::FirstAffected => StatusColor::Red,
            ProductCveStatus::KnownAffected => StatusColor::Red,
            ProductCveStatus::LastAffected => StatusColor::Red,
            ProductCveStatus::KnownNotAffected => StatusColor::Blue,
            ProductCveStatus::Recommended => StatusColor::Orange,
            ProductCveStatus::UnderInvestigation => StatusColor::Grey,
        }
    }
}

/// Label text of each status.
pub open spec fn spec_label(s: ProductCveStatus) -> Seq<char> {
    match s {
        ProductCveStatus::Fixed => "Fixed"@,
        ProductCveStatus::FirstFixed => "First fixed"@,
        ProductCveStatus::FirstAffected => "First Affected"@,
        ProductCveStatus::KnownAffected => "Known affected"@,
        ProductCveStatus::LastAffected => "Last affected"@,
        ProductCveStatus::KnownNotAffected => "Knwon not affected"@,
        ProductCveStatus::Recommended => "Recommended"@,
        ProductCveStatus::UnderInvestigation => "Under investigation"@,
    }
}

/// Colour of each status.
pub open spec fn spec_color(s: ProductCveStatus) -> StatusColor {
    match s {
        ProductCveStatus::Fixed => StatusColor::Green,
        ProductCveStatus::FirstFixed => StatusColor::Green,
        ProductCveStatus::FirstAffected => StatusColor::Red,
        ProductCveStatus::KnownAffected => StatusColor::Red,
        ProductCveStatus::LastAffected => StatusColor::Red,
        ProductCveStatus::KnownNotAffected => StatusColor::Blue,
        ProductCveStatus::Recommended => StatusColor::Orange,
        ProductCveStatus::UnderInvestigation => StatusColor::Grey,
    }
}

} // verus!
