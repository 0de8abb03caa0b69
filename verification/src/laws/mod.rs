//! What holds of the library as a whole, across its functions.

pub mod delivery;
pub mod exchange;
pub mod framing;
pub mod reading;
pub mod settings;
pub mod streams;
pub mod topics;
pub mod wire;
