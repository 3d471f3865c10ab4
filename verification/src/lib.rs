//! Web novel dumping utilities: novel identifiers, chapter extraction, and the
//! decisions of the download loop, with their contracts.
#![allow(unused_imports)]

pub mod utils;
pub mod http;
pub mod novel;
pub mod download;
pub mod stdio;
