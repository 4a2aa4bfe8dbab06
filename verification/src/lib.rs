//! The checker's vocabulary and its pure layers: the type lattice and its
//! expression parser, the interpolation scanner, the `Returns:` grammar, the
//! annotation recognisers' tables, diagnostics and per-line suppression.

pub mod text;
pub mod types;
pub mod ast;
pub mod interp;
pub mod span;
pub mod diag;
pub mod resolve;
pub mod annotate;
pub mod shape;
pub mod decl;
pub mod written;
pub mod flow;
pub mod relation_laws;
pub mod attributes;
pub mod narrow;
pub mod config;
pub mod run;
pub mod scope;
pub mod syntax;
pub mod arity;
pub mod declare;
pub mod program;
pub mod params;
pub mod suppress;
pub mod signature;
pub mod hash;
pub mod link_laws;
pub mod walk;
pub mod rounds;

pub use run::Options;
