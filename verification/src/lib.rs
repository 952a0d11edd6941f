pub mod json;
pub mod config;
pub mod text;
pub mod api_keys;
pub mod ranking;
pub mod self_improve;
pub mod backup;
pub mod debug;
pub mod channels;
pub mod safety;
pub mod skills;
pub mod installer;
pub mod openclaw;
pub mod learnings;
