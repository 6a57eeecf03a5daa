use arm_vis::chain::{ChainError, ChainLayout, LinkStep};
use arm_vis::joint::JointKind;

fn mixed_chain() -> ChainLayout {
    ChainLayout::new(vec![
        JointKind::Fixed,
        JointKind::Revolute,
        JointKind::Fixed,
        JointKind::Revolute,
        JointKind::Continuous,
    ])
}

#[test]
fn joint_kinds_active_and_axis() {
    assert!(!JointKind::Fixed.is_active());
    assert!(JointKind::Revolute.is_active());
    assert!(JointKind::Prismatic.is_active());
    assert!(JointKind::Spherical.is_active());
    assert!(JointKind::Revolute.keeps_axis());
    assert!(!JointKind::Fixed.keeps_axis());
    assert!(!JointKind::Continuous.keeps_axis());
    assert!(!JointKind::Planar.keeps_axis());
    assert!(!JointKind::Floating.keeps_axis());
}

#[test]
fn logical_joint_table_skips_fixed_links() {
    let c = mixed_chain();
    assert_eq!(c.len(), 5);
    assert_eq!(c.active_count(), 3);
    assert_eq!(c.joint_position(0), Some(1));
    assert_eq!(c.joint_position(1), Some(3));
    assert_eq!(c.joint_position(2), Some(4));
    assert_eq!(c.joint_position(3), None);
    assert_eq!(c.kind(2), JointKind::Fixed);
}

#[test]
fn whole_chain_plan_turns_active_links_in_order() {
    let c = mixed_chain();
    let steps = c.plan_all(3).unwrap();
    assert_eq!(
        steps,
        vec![
            LinkStep::Rest,
            LinkStep::Root { joint: 0 },
            LinkStep::Rest,
            LinkStep::Successor { joint: 1 },
            LinkStep::Successor { joint: 2 },
        ]
    );
}

#[test]
fn whole_chain_plan_rejects_wrong_angle_count() {
    let c = mixed_chain();
    assert_eq!(c.plan_all(2), Err(ChainError::AngleCountMismatch { expected: 3, found: 2 }));
    assert_eq!(c.plan_all(4), Err(ChainError::AngleCountMismatch { expected: 3, found: 4 }));
    assert_eq!(c.plan_all(0), Err(ChainError::AngleCountMismatch { expected: 3, found: 0 }));
}

#[test]
fn empty_chain_plans() {
    let c = ChainLayout::new(vec![]);
    assert_eq!(c.active_count(), 0);
    assert_eq!(c.plan_all(0), Ok(vec![]));
    assert_eq!(c.plan_all(1), Err(ChainError::AngleCountMismatch { expected: 0, found: 1 }));
    assert_eq!(c.plan_single(0), Err(ChainError::JointOutOfRange { joint: 0, count: 0 }));
}

#[test]
fn single_joint_plan_first_joint() {
    let c = mixed_chain();
    let steps = c.plan_single(0).unwrap();
    assert_eq!(
        steps,
        vec![
            LinkStep::Rest,
            LinkStep::Root { joint: 0 },
            LinkStep::Follow,
            LinkStep::Follow,
            LinkStep::Follow,
        ]
    );
}

#[test]
fn single_joint_plan_middle_joint() {
    let c = mixed_chain();
    let steps = c.plan_single(1).unwrap();
    assert_eq!(
        steps,
        vec![
            LinkStep::Rest,
            LinkStep::Rest,
            LinkStep::Rest,
            LinkStep::Root { joint: 1 },
            LinkStep::Follow,
        ]
    );
}

#[test]
fn single_joint_plan_rejects_missing_joint() {
    let c = mixed_chain();
    assert_eq!(c.plan_single(3), Err(ChainError::JointOutOfRange { joint: 3, count: 3 }));
    assert_eq!(c.plan_single(7), Err(ChainError::JointOutOfRange { joint: 7, count: 3 }));
}

#[test]
fn single_first_joint_matches_whole_chain_on_first_link() {
    let c = ChainLayout::new(vec![JointKind::Revolute, JointKind::Revolute, JointKind::Fixed]);
    let all = c.plan_all(2).unwrap();
    let single = c.plan_single(0).unwrap();
    assert_eq!(all[0], single[0]);
    assert_eq!(all[0], LinkStep::Root { joint: 0 });
    assert_eq!(all[2], LinkStep::Rest);
    assert_eq!(single[2], LinkStep::Follow);
}

#[test]
fn two_link_chain_plan() {
    let c = ChainLayout::new(vec![JointKind::Revolute, JointKind::Revolute]);
    assert_eq!(
        c.plan_all(2),
        Ok(vec![LinkStep::Root { joint: 0 }, LinkStep::Successor { joint: 1 }])
    );
}
