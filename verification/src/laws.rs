//! Laws that relate several functions of the library.

pub mod commands;
pub mod commits;
pub mod documents;
pub mod names;
pub mod rendering;
pub mod reporting;
pub mod requests;
pub mod rows;
pub mod selection;
pub mod sources;
pub mod texts;
pub mod times;
pub mod views;
