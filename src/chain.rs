use vstd::prelude::*;

use crate::joint::{is_active_kind, JointKind};

verus! {

/// How many of the first `n` links of a chain carry an active joint.
pub open spec fn active_before(kinds: Seq<JointKind>, n: int) -> nat
    decreases n,
{
    if n <= 0 {
        0
    } else {
        active_before(kinds, n - 1) + if is_active_kind(kinds[n - 1]) {
            1nat
        } else {
            0nat
        }
    }
}

/// The number of active joints of a chain.
pub open spec fn active_count(kinds: Seq<JointKind>) -> nat {
    active_before(kinds, kinds.len() as int)
}

/// What one link does during a chain update.
#[derive(Clone, Copy, Debug, PartialEq, Eq, Structural)]
pub enum LinkStep {
    /// The link is left as it is.
    Rest,
    /// The link turns by the angle of logical joint `joint`, with no parent
    /// orientation and a fresh pivot correction.
    Root { joint: usize },
    /// The link turns by the angle of logical joint `joint`, composed after the
    /// orientation returned by the previous turning link.
    Successor { joint: usize },
    /// The link takes on the orientation of the joint being updated, with no
    /// turn of its own.
    Follow,
}

/// Why a chain update was refused.
#[derive(Clone, Copy, Debug, PartialEq, Eq, Structural)]
pub enum ChainError {
    /// The angle vector does not hold one angle per active joint.
    AngleCountMismatch { expected: usize, found: usize },
    /// The logical joint index names no active joint.
    JointOutOfRange { joint: usize, count: usize },
}

/// The step of link `i` when every joint angle is set at once: fixed links
/// rest, the first active link turns as the root, every later active link
/// turns after its predecessor.
pub open spec fn whole_chain_step(kinds: Seq<JointKind>, i: int) -> LinkStep {
    if !is_active_kind(kinds[i]) {
        LinkStep::Rest
    } else if active_before(kinds, i) == 0 {
        LinkStep::Root { joint: 0 }
    } else {
        LinkStep::Successor { joint: active_before(kinds, i) as usize }
    }
}

/// The step of link `i` when only logical joint `target` is set: the links
/// before it rest, it turns as the root, and every link after it, fixed or
/// not, follows it.
pub open spec fn single_joint_step(kinds: Seq<JointKind>, target: int, i: int) -> LinkStep {
    if active_before(kinds, i) > target {
        LinkStep::Follow
    } else if active_before(kinds, i) == target && is_active_kind(kinds[i]) {
        LinkStep::Root { joint: target as usize }
    } else {
        LinkStep::Rest
    }
}

/// The joint kinds of a chain, base to tip, with the table from logical joint
/// index to chain position.
pub struct ChainLayout {
    kinds: Vec<JointKind>,
    joints: Vec<usize>,
}

impl ChainLayout {
    pub closed spec fn kinds(&self) -> Seq<JointKind> {
        self.kinds@
    }

    /// The chain position of each logical joint.
    pub closed spec fn joints(&self) -> Seq<usize> {
        self.joints@
    }

    /// The table holds, in order, exactly the positions of the active links.
    pub open spec fn wf(&self) -> bool {
        &&& self.joints().len() == active_count(self.kinds())
        &&& forall|j: int|
            0 <= j < self.joints().len() ==> {
                &&& #[trigger] self.joints()[j] < self.kinds().len()
                &&& is_active_kind(self.kinds()[self.joints()[j] as int])
                &&& active_before(self.kinds(), self.joints()[j] as int) == j
            }
    }

    /// Builds the layout of a chain and its logical joint table.
    pub fn new(kinds: Vec<JointKind>) -> (r: Self)
        ensures
            r.wf(),
            r.kinds() == kinds@,
    {
        let mut joints: Vec<usize> = Vec::new();
        let mut i: usize = 0;
        while i < kinds.len()
            invariant
                i <= kinds.len(),
                joints@.len() == active_before(kinds@, i as int),
                forall|j: int|
                    0 <= j < joints@.len() ==> {
                        &&& #[trigger] joints@[j] < i
                        &&& is_active_kind(kinds@[joints@[j] as int])
                        &&& active_before(kinds@, joints@[j] as int) == j
                    },
            decreases kinds.len() - i,
        {
            if kinds[i].is_active() {
                joints.push(i);
            }
            i = i + 1;
        }
        ChainLayout { kinds, joints }
    }

    /// The number of links.
    pub fn len(&self) -> (r: usize)
        ensures
            r == self.kinds().len(),
    {
        self.kinds.len()
    }

    /// The number of active joints, which is the length an angle vector must have.
    pub fn active_count(&self) -> (r: usize)
        requires
            self.wf(),
        ensures
            r == active_count(self.kinds()),
    {
        self.joints.len()
    }

    /// The kind of the joint of link `i`.
    pub fn kind(&self, i: usize) -> (r: JointKind)
        requires
            i < self.kinds().len(),
        ensures
            r == self.kinds()[i as int],
    {
        self.kinds[i]
    }

    /// The chain position of logical joint `joint`, if there is one.
    pub fn joint_position(&self, joint: usize) -> (r: Option<usize>)
        requires
            self.wf(),
        ensures
            joint >= active_count(self.kinds()) ==> r.is_none(),
            joint < active_count(self.kinds()) ==> r == Some(self.joints()[joint as int]),
            r matches Some(p) ==> {
                &&& p < self.kinds().len()
                &&& is_active_kind(self.kinds()[p as int])
                &&& active_before(self.kinds(), p as int) == joint
            },
    {
        if joint < self.joints.len() {
            Some(self.joints[joint])
        } else {
            None
        }
    }

    /// The steps of a whole-chain update with `angle_count` angles: refused
    /// unless there is exactly one angle per active joint.
    pub fn plan_all(&self, angle_count: usize) -> (r: Result<Vec<LinkStep>, ChainError>)
        requires
            self.wf(),
        ensures
            angle_count != active_count(self.kinds()) ==> r == Err::<Vec<LinkStep>, ChainError>(
                ChainError::AngleCountMismatch {
                    expected: active_count(self.kinds()) as usize,
                    found: angle_count,
                },
            ),
            angle_count == active_count(self.kinds()) ==> r is Ok,
            r matches Ok(steps) ==> {
                &&& steps@.len() == self.kinds().len()
                &&& forall|i: int|
                    0 <= i < steps@.len() ==> #[trigger] steps@[i] == whole_chain_step(
                        self.kinds(),
                        i,
                    )
                &&& forall|i: int|
                    0 <= i < steps@.len() ==> match #[trigger] steps@[i] {
                        LinkStep::Root { joint } => joint < angle_count,
                        LinkStep::Successor { joint } => joint < angle_count,
                        _ => true,
                    }
            },
    {
        let count = self.joints.len();
        if angle_count != count {
            return Err(ChainError::AngleCountMismatch { expected: count, found: angle_count });
        }
        let mut steps: Vec<LinkStep> = Vec::new();
        let mut seen: usize = 0;
        let mut i: usize = 0;
        while i < self.kinds.len()
            invariant
                self.wf(),
                i <= self.kinds().len(),
                seen == active_before(self.kinds(), i as int),
                seen <= i,
                steps@.len() == i,
                forall|k: int|
                    0 <= k < i ==> #[trigger] steps@[k] == whole_chain_step(self.kinds(), k),
            decreases self.kinds().len() - i,
        {
            let step = if !self.kinds[i].is_active() {
                LinkStep::Rest
            } else if seen == 0 {
                LinkStep::Root { joint: 0 }
            } else {
                LinkStep::Successor { joint: seen }
            };
            steps.push(step);
            if self.kinds[i].is_active() {
                seen = seen + 1;
            }
            i = i + 1;
        }
        proof {
            assert forall|k: int| 0 <= k < steps@.len() implies match #[trigger] steps@[k] {
                LinkStep::Root { joint } => joint < angle_count,
                LinkStep::Successor { joint } => joint < angle_count,
                _ => true,
            } by {
                lemma_whole_chain_angles_in_range(self.kinds(), k);
            }
        }
        Ok(steps)
    }

    /// The steps of an update of logical joint `joint` alone: refused unless
    /// the chain has such a joint.
    pub fn plan_single(&self, joint: usize) -> (r: Result<Vec<LinkStep>, ChainError>)
        requires
            self.wf(),
        ensures
            joint >= active_count(self.kinds()) ==> r == Err::<Vec<LinkStep>, ChainError>(
                ChainError::JointOutOfRange { joint, count: active_count(self.kinds()) as usize },
            ),
            joint < active_count(self.kinds()) ==> r is Ok,
            r matches Ok(steps) ==> {
                &&& steps@.len() == self.kinds().len()
                &&& forall|i: int|
                    0 <= i < steps@.len() ==> #[trigger] steps@[i] == single_joint_step(
                        self.kinds(),
                        joint as int,
                        i,
                    )
                &&& forall|i: int|
                    0 <= i < steps@.len() ==> #[trigger] steps@[i] == if i < self.joints()[joint as int] {
                        LinkStep::Rest
                    } else if i == self.joints()[joint as int] {
                        LinkStep::Root { joint }
                    } else {
                        LinkStep::Follow
                    }
            },
    {
        let count = self.joints.len();
        if joint >= count {
            return Err(ChainError::JointOutOfRange { joint, count });
        }
        let mut steps: Vec<LinkStep> = Vec::new();
        let mut seen: usize = 0;
        let mut i: usize = 0;
        while i < self.kinds.len()
            invariant
                self.wf(),
                i <= self.kinds().len(),
                seen == active_before(self.kinds(), i as int),
                seen <= i,
                steps@.len() == i,
                forall|k: int|
                    0 <= k < i ==> #[trigger] steps@[k] == single_joint_step(
                        self.kinds(),
                        joint as int,
                        k,
                    ),
            decreases self.kinds().len() - i,
        {
            let active = self.kinds[i].is_active();
            let step = if seen > joint {
                LinkStep::Follow
            } else if seen == joint && active {
                LinkStep::Root { joint }
            } else {
                LinkStep::Rest
            };
            steps.push(step);
            if active {
                seen = seen + 1;
            }
            i = i + 1;
        }
        proof {
            let p = self.joints()[joint as int] as int;
            assert forall|k: int| 0 <= k < steps@.len() implies #[trigger] steps@[k] == if k < p {
                LinkStep::Rest
            } else if k == p {
                LinkStep::Root { joint }
            } else {
                LinkStep::Follow
            } by {
                lemma_single_joint_shape(self.kinds(), joint as int, p, k);
            }
        }
        Ok(steps)
    }
}

/// Updating the first logical joint alone treats the first link of a chain,
/// when that link is active, as a whole-chain update does: both turn it as
/// the root by the angle of joint zero.
pub proof fn lemma_single_first_joint_matches_whole_chain(kinds: Seq<JointKind>)
    requires
        kinds.len() > 0,
        is_active_kind(kinds[0]),
    ensures
        single_joint_step(kinds, 0, 0) == whole_chain_step(kinds, 0),
        whole_chain_step(kinds, 0) == (LinkStep::Root { joint: 0 }),
{
    assert(active_before(kinds, 0) == 0);
}

/// The count of active joints never falls along the chain.
pub proof fn lemma_active_before_monotone(kinds: Seq<JointKind>, a: int, b: int)
    requires
        0 <= a <= b,
    ensures
        active_before(kinds, a) <= active_before(kinds, b),
    decreases b - a,
{
    if a < b {
        lemma_active_before_monotone(kinds, a, b - 1);
    }
}

/// Past an active link, the count of active joints is larger than at it.
pub proof fn lemma_active_before_passes(kinds: Seq<JointKind>, a: int, b: int)
    requires
        0 <= a < b,
        a < kinds.len(),
        is_active_kind(kinds[a]),
    ensures
        active_before(kinds, a) < active_before(kinds, b),
{
    assert(active_before(kinds, a + 1) == active_before(kinds, a) + 1);
    lemma_active_before_monotone(kinds, a + 1, b);
}

/// Every angle that a whole-chain update reads is one of the chain's: a
/// turning link takes the angle of a logical joint below the number of
/// active joints.
pub proof fn lemma_whole_chain_angles_in_range(kinds: Seq<JointKind>, i: int)
    requires
        0 <= i < kinds.len(),
    ensures
        whole_chain_step(kinds, i) matches LinkStep::Root { joint } ==> joint < active_count(kinds),
        whole_chain_step(kinds, i) matches LinkStep::Successor { joint } ==> joint < active_count(kinds),
{
    if is_active_kind(kinds[i]) {
        lemma_active_before_passes(kinds, i, kinds.len() as int);
    }
}

/// Updating logical joint `joint` alone, with `p` its chain position, leaves
/// every link before `p` at rest, turns the link at `p` as the root, and
/// makes every link after `p` follow it.
pub proof fn lemma_single_joint_shape(kinds: Seq<JointKind>, joint: int, p: int, i: int)
    requires
        0 <= p < kinds.len(),
        is_active_kind(kinds[p]),
        active_before(kinds, p) == joint,
        0 <= i < kinds.len(),
    ensures
        i < p ==> single_joint_step(kinds, joint, i) == LinkStep::Rest,
        i == p ==> single_joint_step(kinds, joint, i) == (LinkStep::Root { joint: joint as usize }),
        i > p ==> single_joint_step(kinds, joint, i) == LinkStep::Follow,
{
    if i < p {
        lemma_active_before_monotone(kinds, i, p);
        if is_active_kind(kinds[i]) {
            lemma_active_before_passes(kinds, i, p);
        }
    } else if i > p {
        lemma_active_before_passes(kinds, p, i);
    }
}

} // verus!
