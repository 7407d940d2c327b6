//! The commands of the tool: what they decide, and what they say.

pub mod clean;
pub mod dispatch;
pub mod gates;
pub mod lock;
pub mod options;
pub mod rules;
pub mod summary;
pub mod timing;
pub mod told;
