pub mod access;
pub mod berlin_recycling;
pub mod bsr;
pub mod config;
pub mod date;
pub mod json;
pub mod numbers;
pub mod order;
pub mod pickup;
pub mod portal;
pub mod reactions;
pub mod reminder;
pub mod schedule;
pub mod tables;
pub mod text;
pub mod urls;
