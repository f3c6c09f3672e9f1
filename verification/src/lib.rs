pub mod app;
pub mod discovery;
pub mod modes;
pub mod parser;
pub mod permissions;
pub mod plan;
pub mod preview;
pub mod planner;
pub mod results;
pub mod rows;
pub mod state;
pub mod strutil;
pub mod summary;
