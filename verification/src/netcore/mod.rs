//! The earlier codec generation, whose requests and responses share one
//! 8-byte header, and its strongly typed event model.

pub mod cmd_ext;
pub mod codec;
pub mod dispatcher;
pub mod event;
pub mod pb;
