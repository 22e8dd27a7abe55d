pub mod aerospace;
pub mod align;
pub mod bits;
pub mod cli;
pub mod ids;
pub mod ipc;
pub mod laws;
pub mod query;
pub mod server;
pub mod state;
pub mod sync;
pub mod sync_laws;
pub mod text;
