//! A small rule language over the graph: terms, atoms, literals and rules;
//! a parser for them; and an evaluator that answers a goal from the rules
//! and the live graph.

pub mod bindings;
pub mod eval;
pub mod eval_explain;
pub mod grammar;
pub mod json;
pub mod parser;
pub mod record;
pub mod semantics;
pub mod theorems;
pub mod trace;
pub mod types;

pub use bindings::{Bindings, Value};
pub use eval::Evaluator;
pub use eval_explain::{EvaluatorExplain, QueryResult};
pub use trace::{ExplainStep, QueryProfile, QueryStats};
pub use parser::{parse_atom, parse_literal, parse_program, parse_rule, parse_term, ParseError};
pub use types::{Atom, Literal, Program, Rule, Term};
