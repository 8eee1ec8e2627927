//! Orchestration rules for deploying, removing, publishing and promoting a
//! bundle of charmed applications.

pub mod text;
pub mod model;
pub mod select;
pub mod resolve;
pub mod fanout;
pub mod publish;
pub mod promote;
pub mod deploy;
