//! Orma: the decision logic behind loading a machine's identity from a volume
//! kept apart from the system image.

pub mod text;
pub mod engine;
pub mod field_types;
pub mod schema;
pub mod resolve;
pub mod generate;
pub mod platform;
