//! Parser for the ASCII "raw" output of SPICE-family circuit simulators,
//! with a CSV exporter for the parsed document.
//!
//! Sample values are held as decimal text; the floating-point work behind
//! them (parsing, magnitude, phase, degrees) happens in the trusted wrappers
//! of `numtext`, and every result is named by a spec function of the input
//! text alone.

pub mod chars;
pub mod csv;
pub mod floatgram;
pub mod intparse;
pub mod laws;
pub mod numtext;
pub mod parser;
pub mod plot;

pub use csv::parse_and_get_csv;
pub use parser::parse;
pub use plot::Flags;
pub use plot::Plot;
pub use plot::SpiceParseError;
pub use plot::VarData;
