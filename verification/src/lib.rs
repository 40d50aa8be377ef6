//! The logic of a small personal website: URL prefixes, file-system paths,
//! post and page lookup, and the state of its interactive widgets.
#![allow(non_snake_case)]

pub mod text;
pub mod paths;
pub mod site;
pub mod posts;
pub mod static_pages;
pub mod tabs;
pub mod counter;
