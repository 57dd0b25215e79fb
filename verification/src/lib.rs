//! Result building for an Alfred window and tab switcher: the text
//! handling, the parsing of tab listings and the items that Alfred shows.

pub mod alfred;
pub mod intellij;
pub mod launch;
pub mod results;
pub mod tabs;
pub mod text;
