use vstd::prelude::*;

pub mod client;
pub mod debug;
pub mod jresponse;
pub mod qstring;
pub mod server;
