//! A typing trainer's core: dictionary import, the profile store and the
//! practice engine, with their behaviour stated in contracts.

pub mod config;
pub mod decimal;
pub mod importer;
pub mod practice;
pub mod profile_text;
pub mod text;
pub mod util;
