//! The semantic middle-end of a compiler for a functional language with Hindley-Milner
//! types, traits and closures.
//!
//! - Types and their unification: [`types`], [`unify`], [`substitute`], [`generalize`],
//!   [`instantiate`], with what is proved of them in [`soundness`], [`occurs_check`],
//!   [`closure`], [`acyclic`], [`levels`] and [`extension`].
//! - Traits and their resolution: [`traits`], [`constraints`], [`resolve`].
//! - Type inference over the syntax tree of [`ast`], with the tables of [`cache`]: the
//!   rules are stated in [`infer_rules`] and [`infer_walk`], and carried out by [`infer`],
//!   [`infer_definitions`], [`infer_impls`] and the modules beside them.
//! - Monomorphisation to the intermediate representation of [`hir`] and [`hir_types`]: the
//!   lowering of types in [`layout`] and [`lowering`], the choice of impls in
//!   [`dispatch`], and the walk stated in [`monomorphise_walk`] and carried out by
//!   [`monomorphise`].
//! - The encoding of types, patterns and definitions for a solver: [`refine`],
//!   [`refine_terms`], [`refine_sums`], [`refine_values`], [`refine_patterns`],
//!   [`refine_definitions`].
//! - Showing types: [`typeprinter`], [`paint`], [`describe`].
//!
//! Every walk over a type or a program is bounded by [`unify::RECURSION_LIMIT`], and what
//! would be a crash of the compiler is a value of [`error::Fault`].
pub mod acyclic;
pub mod ast;
pub mod cache;
pub mod closure;
pub mod constraints;
pub mod context;
pub mod describe;
pub mod dispatch;
pub mod emit;
pub mod error;
pub mod extension;
pub mod generalize;
pub mod hir;
pub mod hir_types;
pub mod infer;
pub mod infer_cache;
pub mod infer_definitions;
pub mod infer_impls;
pub mod infer_model;
pub mod infer_nodes;
pub mod infer_notes;
pub mod infer_patterns;
pub mod infer_rules;
pub mod infer_state;
pub mod infer_statements;
pub mod infer_walk;
pub mod inferable;
pub mod instantiate;
pub mod layout;
pub mod levels;
pub mod lowering;
pub mod mono_state;
pub mod monomorphise;
pub mod monomorphise_definitions;
pub mod monomorphise_parts;
pub mod monomorphise_spec;
pub mod monomorphise_walk;
pub mod occurs_check;
pub mod paint;
pub mod refine;
pub mod refine_definitions;
pub mod refine_patterns;
pub mod refine_sums;
pub mod refine_terms;
pub mod refine_values;
pub mod resolve;
pub mod sequence;
pub mod soundness;
pub mod substitute;
pub mod traits;
pub mod typeprinter;
pub mod types;
pub mod unify;
