pub mod pops;
