//! A local board for the sessions of a coding agent: what their files say of them.
pub mod checklist;
pub mod follow;
pub mod json;
pub mod keyed;
pub mod laws;
pub mod line_laws;
pub mod monitor;
pub mod parser;
pub mod pulse;
pub mod reply_laws;
pub mod seconds;
pub mod security;
pub mod server;
pub mod state;
pub mod status;
pub mod store_laws;
pub mod summary;
pub mod text;
pub mod time_laws;
pub mod view_laws;
