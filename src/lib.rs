//! Verified core of a soil-moisture monitoring node: the wire types shared
//! with viewers, the moisture classifier, the rolling sample window, the
//! persistent plant registry and the control-plane request handlers.

pub mod common;
pub mod flush;
pub mod laws;
pub mod plant_db;
pub mod record;
pub mod server;
pub mod window;
