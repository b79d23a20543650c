//! Parts of the Desk compiler: the lexer and parser, the generation of the
//! high-level representation, the typing contexts, subtyping and
//! instantiation that type inference rests on, the simplification of effect
//! expressions, and pieces of the later stages (concrete types, data,
//! the builder of the abstract intermediate representation).
pub mod ty;
pub mod order;
pub mod sorted;
pub mod substitute;
pub mod effect_expr;
pub mod effect_laws;
pub mod ctx;
pub mod substitute_from_ctx;
pub mod well_formed;
pub mod subtype_spec;
pub mod subtype;
pub mod instantiate;
pub mod subtype_laws;
pub mod utils;
pub mod value;
pub mod types;
pub mod conc_types;
pub mod concretizer;
pub mod into_type;
pub mod thir;
pub mod dson;
pub mod thir2dson;
pub mod polymorphic_function;
pub mod amir;
pub mod amir_proto;
pub mod lexer;
pub mod into_op;
pub mod ast;
pub mod hir;
pub mod hirgen;
pub mod syntax;
pub mod parser;
