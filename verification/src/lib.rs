//! Header resolution and row normalisation for worksheet data.
//!
//! A worksheet is a list of rows of cells, not necessarily rectangular.
//! The library collapses one or more header rows into one label per
//! column, makes the labels unique, aligns the data rows to that width
//! and assembles a column-oriented frame of strings.

pub mod builder;
pub mod cell;
pub mod error;
pub mod frame;
pub mod header;
pub mod names;
pub mod rows;
pub mod text;
pub mod uniquify;
