//! Choices the platform around the decision logic makes on its operator's
//! behalf.

pub mod asker;
pub mod status;
