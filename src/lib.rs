//! Forward kinematics of a serial robot arm: which link turns, and how, when
//! joint angles are set, and the mesh geometry each link carries.

pub mod chain;
pub mod joint;
pub mod mesh;
