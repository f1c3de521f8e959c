pub mod arena;
pub mod axioms;
pub mod check;
pub mod context;
pub mod development;
pub mod env;
pub mod error;
pub mod level;
pub mod nbe;
pub mod norm;
pub mod reflexivity;
pub mod signature;
pub mod term;
pub mod typing;
pub mod value;
