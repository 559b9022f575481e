//! KerML parsing, SysML lowering helpers, requirement projections and
//! simulation-profile validation for the Mercurio SysML language family.
pub mod activity;
pub mod json;
pub mod kerml;
pub mod lowering;
pub mod requirements;
pub mod simulation;
pub mod simulation_core;
pub mod strmap;
pub mod text;
pub mod text_order;
