//! A parser for GON, a loose, JSON-compatible configuration format with bare
//! tokens, optional outer braces, optional separators and `#` line comments.
use vstd::prelude::*;

pub mod gon;
pub mod grammar;
pub mod parser;
pub mod canonical;
pub mod from;

pub use gon::{Gon, GonError, GonGetError, GonModel};
