//! Small calculator utilities: integer arithmetic, a tokenizer for infix
//! arithmetic expressions, and a parser that orders their operations by the
//! usual precedence.

pub mod arith;
pub mod calc;
pub mod command;
pub mod input;
pub mod lexer;
pub mod menu;
pub mod parser;
pub mod simple;
pub mod temperature;
pub mod token;

pub use arith::{add, sub, mult};
pub use calc::expression_tree;
pub use lexer::{remove_whitespace, tokenize};
pub use parser::{BinOp, Expr, parse_expr};
pub use token::{ExprError, Token};
