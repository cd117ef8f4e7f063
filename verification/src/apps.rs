//! The three handler sources: the user override file, the system catalog of
//! installed descriptors, and the regex handlers of the configuration file.

pub mod regex;
pub mod roundtrip;
pub mod system;
pub mod user;
