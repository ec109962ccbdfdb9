pub mod instrument_map;
pub mod laws;
pub mod trading;
