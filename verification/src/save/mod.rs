pub mod pops;
pub mod states;
pub mod save_scanner;
pub mod cultures;
pub mod pattern;
pub mod countries;
