//! Form display engine and physical-presence challenge of a firmware setup
//! browser, as verified logic over plain values.

mod status;
pub mod key;
pub mod value;
pub mod form;
pub mod element;
pub mod codec;
pub mod walker;
pub mod engine;
pub mod security;
pub mod layout;
pub mod laws;
pub mod screens;

pub use status::Status;
