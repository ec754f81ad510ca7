pub mod env;
pub mod eval;
pub mod names;
pub mod parser;
pub mod pretty;
pub mod subst;
pub mod term;
