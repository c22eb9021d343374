pub mod diagram;
pub mod laws;
pub mod model;
pub mod options;
pub mod text;
