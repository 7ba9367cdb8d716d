//! The library behind a software store for Linux desktops: the rules that
//! decide what may run as root, how operations become batched steps, how
//! releases and versions are read, and the small parsers in between.

pub mod text;
pub mod version;
pub mod model;
pub mod allow;
pub mod release;
pub mod remedy;
pub mod settings;
pub mod plan;
pub mod store;
pub mod updates;
pub mod drivers;
pub mod system;
pub mod stubs;
pub mod alpmdb;
pub mod snap;
pub mod appstream;
pub mod launch;
pub mod commands;
pub mod selfupdate;
pub mod web;
