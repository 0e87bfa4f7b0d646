//! Totals of tracked time per combination of tags, for the report extension
//! of a time tracker.
//!
//! The tracker hands over lines of text: settings of the form `name: value`
//! and, on the other lines, a JSON array of tracked intervals. [`data`] reads
//! them, [`rows`] groups the intervals by their tags and puts the groups in the
//! order of the report, and [`report`] adds the title, the total and the
//! intervals that carry a note, and lays all of it out in lines. What is left
//! to the caller is to read the input and to print the lines.
//!
//! The date and time arithmetic is chrono's and the JSON reading is
//! serde_json's: [`timewarrior_datetime`] and [`json`] hold the few places
//! where they are called, and the contracts name what they return.

pub mod data;
pub mod json;
pub mod report;
pub mod rows;
pub mod text;
pub mod timewarrior_datetime;
