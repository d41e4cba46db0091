//! Share one keyboard, mouse and clipboard between two machines.

pub mod arrange;
pub mod clipboard;
pub mod config;
pub mod double;
pub mod event;
pub mod input;
pub mod link;
pub mod proto;
pub mod screens;
pub mod session;
pub mod status;
pub mod text;
pub mod timing;
pub mod trust;
pub mod wire;
