//! Verified core of the repository-map web service: session token sealing,
//! pagination and link-header handling, and the per-user work buffer.

pub mod text;
pub mod model;
pub mod tree;
pub mod error;
mod clock;
mod views;
pub mod state;
pub mod buffer;
pub mod search;
pub mod dashboard;
pub mod link;
pub mod util;
pub mod token;
pub mod requests;
pub mod oauth;
