//! Varlink names, IDL parsing, JSON framing and the pure decisions of the zlink runtime.

pub mod attr_mode;
pub mod call;
pub mod codegen;
pub mod connection;
pub mod idl;
pub mod json;
pub mod names;
pub mod naming;
pub mod return_shape;
pub mod service;
pub mod strings;
pub mod varlink_service;
