//! Verified core of a Taiwan-securities price collector: text handling,
//! calendar planning, task scheduling and price statistics.

pub mod text;
pub mod fmt;
pub mod decimal;
pub mod records;
pub mod exchange;
pub mod scrape;
pub mod prices;
pub mod calendar;
pub mod query;
pub mod tasks;
pub mod daily;
pub mod backup;
