use vstd::prelude::*;

verus! {

/// The kind of the joint that attaches a link to its parent.
///
/// Only `Fixed` and `Revolute` take part in the kinematics; every other kind is
/// recognised but moves nothing.
#[derive(Clone, Copy, Debug, PartialEq, Eq, Structural)]
pub enum JointKind {
    Fixed,
    Revolute,
    Continuous,
    Prismatic,
    Floating,
    Planar,
    Spherical,
}

/// A joint is active when it is not fixed: it owns a logical joint index.
pub open spec fn is_active_kind(k: JointKind) -> bool {
    k != JointKind::Fixed
}

/// A joint turns its link only when it is revolute.
pub open spec fn has_axis_kind(k: JointKind) -> bool {
    k == JointKind::Revolute
}

impl JointKind {
    /// Whether this joint is addressed by a logical joint index.
    pub fn is_active(&self) -> (r: bool)
        ensures
            r == is_active_kind(*self),
    {
        match self {
            JointKind::Fixed => false,
            _ => true,
        }
    }

    /// Whether the joint's rotation axis is kept; for every other kind the
    /// axis is the zero vector.
    pub fn keeps_axis(&self) -> (r: bool)
        ensures
            r == has_axis_kind(*self),
    {
        match self {
            JointKind::Revolute => true,
            _ => false,
        }
    }
}

} // verus!
