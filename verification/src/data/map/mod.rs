pub mod countries;
pub mod laws;
pub mod strategic;
