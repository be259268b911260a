pub mod capture;
pub mod chars;
pub mod emit;
pub mod number;
pub mod reading;
pub mod tape;
pub mod term;
pub mod time;
pub mod optimize;
pub mod raster;
pub mod redact;
pub mod session;
pub mod paths;
pub mod svg;
pub mod ui;
