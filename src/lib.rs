//! Modbus polling core: register codec, connection registry, typed request
//! selection, and the periodic task scheduler that drives value updates.

pub mod codec;
pub mod text;
pub mod error;
pub mod address;
pub mod serial;
pub mod manager;
pub mod task;
pub mod facade;
pub mod notice;
pub mod command;
pub mod scheduler;
