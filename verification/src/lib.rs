pub mod ann;
pub mod captured;
pub mod closure;
pub mod data;
pub mod lex;
pub mod linked;
pub mod local;
pub mod resolver;
pub mod scope;
pub mod st_refactor;
pub mod symbol;
pub mod token;
