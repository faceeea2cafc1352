pub mod fx_map;
pub mod executables;
pub mod variables;
