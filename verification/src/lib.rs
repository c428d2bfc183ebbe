//! Arcane: the planning rules of a study-routine scheduler, verified with Verus.
//!
//! The library decides; the program around it reads, stores and prints.
//! `scheduler` merges weekly slots with a day's overrides into the day's
//! timeline; `schedule` and `category` hold the rules that adding, removing
//! and importing slots, overrides and categories must meet; `timer` holds the
//! decisions of the session timer; `date` and `text` give the calendar and
//! the text rules these rest on.
pub mod category;
pub mod cli;
pub mod config;
pub mod date;
pub mod error;
pub mod models;
pub mod review;
pub mod schedule;
pub mod scheduler;
pub mod text;
pub mod timer;
