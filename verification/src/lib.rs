//! A codec for the geographic coordinates of APRS position reports.
//!
//! A coordinate travels in one of two textual forms: a fixed-width
//! degrees-and-minutes field whose trailing digits may be blanked to signal
//! ambiguity, and a compact field of four base-91 digits. This crate reads and
//! writes both forms for latitudes and longitudes, and every function in it
//! carries a contract that Verus proves.
//!
//! Coordinates are held in exact fixed point. The unit is chosen so that
//! every value of either wire form is a whole number of units: see
//! [`units::UNITS_PER_DEGREE`].
pub mod ascii;
pub mod base91;
pub mod bytes;
pub mod error;
pub mod laws;
pub mod lonlat;
pub mod precision;
pub mod text;
pub mod units;

pub use error::{AprsError, EncodeError};
pub use lonlat::{Latitude, Longitude};
pub use precision::Precision;
