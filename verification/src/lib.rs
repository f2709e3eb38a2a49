//! An evaluator for a small imperative scripting language: a scanner that
//! turns source text into tokens, and a machine that walks them with a
//! program counter, an environment of typed variables and a stack of
//! conditions.
//!
//! # The language
//!
//! A program is a sequence of statements, written as tokens that whitespace
//! separates. A semicolon begins a comment, which runs to the end of its
//! line.
//!
//! | statement | form |
//! |---|---|
//! | declare | `WA type name = value`, with the type `KIRA` (text), `BAULEAN` (truth) or `MOE` (number) |
//! | reassign | `CO name = value` |
//! | print | `BAU operand` |
//! | condition | `FUWA condition`, then `FUWAMOCO condition` and `MOCO` |
//! | loop over a range | `PONDE name first..last { body }` |
//! | loop over a count | `PON count body DE` |
//! | class | `PERO name` and `PEROPERO`, announced where the program begins with `CHIHUAHUA` |
//! | end | `BAUBAU` |
//!
//! A value is a quoted string, one of the literals `FLUFFY` (true) and
//! `FUZZY` (false), a number, the name of a variable, or an expression in
//! angle brackets: `<operand>` or `<operand operator operand>`.
//!
//! A statement that fails writes one line that names the kind of failure,
//! and the run goes on with the statement behind it.
//!
//! # Numbers and the host
//!
//! The library does not compute on numbers: it carries each as the bit
//! pattern of a double-precision value. Where a program needs a number read,
//! combined, compared, converted or written out, the machine stops with a
//! [`Request`]; its host does the work, hands the machine its [`Reply`] and
//! runs it again:
//!
//! ```text
//! let mut machine = Machine::new(code);
//! loop {
//!     match run_interpreter(&mut machine, &mut variables, &mut output) {
//!         Request::Done => break,
//!         request => machine.answer(host(request)),
//!     };
//! }
//! ```

pub mod text;
pub mod lexer;
pub mod value;
pub mod host;
pub mod syntax;
pub mod expr;
pub mod statement;
pub mod interpreter;
pub mod laws;

pub use crate::host::{Operator, Reply, Request};
pub use crate::interpreter::{run_interpreter, Machine};
pub use crate::lexer::tokenize;
pub use crate::value::{Environment, Value};
