//! The canonical simulation model and its profile validation.
pub mod model;
pub mod validate;
