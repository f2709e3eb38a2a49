//! Statements: what each one does where it stands.
//!
//! A statement is read from the tokens at a position and judged against the
//! environment and the host's replies. Its meaning is a change for the
//! machine to make, or a request that the host has to answer first.

use vstd::prelude::*;
use crate::expr::{
    agrees, evaluate_expression, expression, line_about, msg_no_result, msg_operator, no_result,
    Pause, Stop,
};
use crate::host::{answers_of, parse_request, Answer, Need, Reply, Request};
use crate::lexer::texts;
use crate::syntax::{
    bracketed, brace_close, brace_open, closing, counter_word, find_closing, inner, is_bracketed, is_name,
    is_quoted, kw_class, kw_class_end, kw_declare, kw_else, kw_else_if, kw_end, kw_if, kw_loop,
    kw_print, kw_reassign, kw_times, kw_times_end, lemma_closing_bounds, nameable, quoted, range_bounds, read_truth,
    sign_assign, split_range, strip, truth_literal, ty_bool, ty_number, ty_text,
};
use crate::text::{chars_of, decimal, decimal_of, is_word, replace, replace_all, text_of};
use crate::value::{truth_text, Datum, Environment, Value};

verus! {

/// Where a statement stands and under what conditions it runs.
pub struct Site {
    /// The tokens of the program.
    pub program: Seq<Seq<char>>,
    /// The index of the statement's first token.
    pub at: int,
    /// The index at which the statement's surroundings end: the token that
    /// closes the body inside a loop, the end of the program elsewhere.
    pub limit: int,
    /// Whether statements are executed here, as the innermost condition says.
    pub active: bool,
    /// Whether the program announces its classes.
    pub announce: bool,
    /// Whether the statement stands in a loop body.
    pub nested: bool,
    /// In the body of a loop over a range, the number of the current pass.
    pub counter: Option<int>,
}

/// What a statement comes to.
pub enum Change {
    /// Nothing yet: the host has to answer first.
    Ask(Need),
    /// The output gains `text`.
    Say { text: Seq<char>, next: int },
    /// `name` is bound to `value`.
    Bind { name: Seq<char>, value: Datum, next: int },
    /// A branch of a conditional chain begins: the first where `fresh`, a
    /// later one otherwise. The output gains `text`.
    Branch { fresh: bool, condition: bool, text: Seq<char>, next: int },
    /// All conditions are dropped. The output gains `text`.
    Reset { text: Seq<char>, next: int },
    /// A loop begins: its passes are numbered from `first` to `last`, each
    /// runs over the tokens from `body` up to the closing token at `end`, and
    /// `variable`, if there is one, holds the number of the pass.
    Enter { variable: Option<Seq<char>>, first: int, last: int, body: int, end: int },
    /// The program ends here. The output gains `text`.
    Halt { text: Seq<char> },
}

/// The message for a statement that the program ends in the middle of.
pub open spec fn msg_incomplete(keyword: Seq<char>) -> Seq<char> {
    "[ERROR: Incomplete]: Statement is not complete: "@ + keyword
}

/// The message for a declaration without the sign `=`.
pub open spec fn msg_declare_sign() -> Seq<char> {
    "[ERROR: Syntax]: Expected '=' after variable name"@
}

/// The message for a reassignment without the sign `=`.
pub open spec fn msg_reassign_sign() -> Seq<char> {
    "[ERROR: Syntax]: Expected '=' in a reassignment"@
}

/// The message for a name that no variable can have.
pub open spec fn msg_target(name: Seq<char>) -> Seq<char> {
    "[ERROR: InvalidTarget]: Cannot assign to: "@ + name
}

/// The message for a declaration of text from what is no text.
pub open spec fn msg_declare_text() -> Seq<char> {
    "[ERROR: IncompatibleType]: KIRA does not support a nonstring"@
}

/// The message for a declaration of a truth value from what is none.
pub open spec fn msg_declare_bool() -> Seq<char> {
    "[ERROR: IncompatibleType]: BAULEAN requires FLUFFY/FUZZY or a declared BAULEAN-type variable"@
}

/// The message for a declaration of a number from what is none.
pub open spec fn msg_declare_number() -> Seq<char> {
    "[ERROR: InvalidValue]: Invalid number/arithmetic expression"@
}

/// The message for a declaration of a type that the language does not have.
pub open spec fn msg_unknown_type(ty: Seq<char>) -> Seq<char> {
    "[ERROR: UnknownType]: Unknown type: "@ + ty
}

/// The message for a reassignment of a name that is not bound.
pub open spec fn msg_unbound_reassign(name: Seq<char>) -> Seq<char> {
    "[ERROR: VanishValue]: Variable could not be found in scope: "@ + name
}

/// The message for a variable of text that is to hold what is no text.
pub open spec fn msg_reassign_text() -> Seq<char> {
    "[ERROR: IncompatibleType]: CO requires matching type (KIRA)"@
}

/// The message for a variable of truth that is to hold what is no truth value.
pub open spec fn msg_reassign_bool() -> Seq<char> {
    "[ERROR: IncompatibleType]: CO requires matching type (BAULEAN)"@
}

/// The message for a variable of number that is to hold what is no number.
pub open spec fn msg_reassign_number() -> Seq<char> {
    "[ERROR: IncompatibleType]: CO requires matching type (MOE)"@
}

/// The message for printing a name that is not bound.
pub open spec fn msg_unbound_print(name: Seq<char>) -> Seq<char> {
    "[ERROR: VanishValue]: Variable couldn't be found: "@ + name
}

/// The message for a range that is not two bounds with `..` between them.
pub open spec fn msg_range() -> Seq<char> {
    "[ERROR: Syntax]: Invalid range. Expected 'startInt..endInt'"@
}

/// The message for a range whose first bound is no number.
pub open spec fn msg_range_start() -> Seq<char> {
    "[ERROR: InvalidRange]: Start value must be an integer"@
}

/// The message for a range whose last bound is no number.
pub open spec fn msg_range_end() -> Seq<char> {
    "[ERROR: InvalidRange]: End value must be an integer"@
}

/// The message for a loop over a range whose body does not open.
pub open spec fn msg_brace_open() -> Seq<char> {
    "[ERROR: Syntax]: Expected '{' to begin the loop"@
}

/// The message for a loop over a range whose body does not close.
pub open spec fn msg_brace_close() -> Seq<char> {
    "[ERROR: Syntax]: Could not find closing '}' for loop"@
}

/// The message for a loop over a count whose body does not close.
pub open spec fn msg_times_end() -> Seq<char> {
    "[ERROR: Syntax]: Could not find closing 'DE' for loop"@
}

/// The message for a count that is neither a number nor a truth value.
pub open spec fn msg_times() -> Seq<char> {
    "[ERROR: InvalidValue]: A count must be a number or a BAULEAN value"@
}

/// The message for a loop in the body of a loop.
pub open spec fn msg_nested() -> Seq<char> {
    "[ERROR: Syntax]: A loop cannot stand inside a loop"@
}

/// The message for a condition that is no truth value.
pub open spec fn msg_condition() -> Seq<char> {
    "[ERROR: IncompatibleType]: A condition requires a BAULEAN value"@
}

/// The message for a token that opens no statement.
pub open spec fn msg_unknown(token: Seq<char>) -> Seq<char> {
    "[ERROR: UnknownToken]: Unknown token: "@ + token
}

/// The message that announces a class.
pub open spec fn msg_class(name: Seq<char>) -> Seq<char> {
    "[CLASS]: "@ + name
}

/// The message that announces the end of a class.
pub open spec fn msg_class_end() -> Seq<char> {
    "[CLASS]: end"@
}

/// The message that the program has ended itself.
pub open spec fn msg_end() -> Seq<char> {
    "[END]: Program terminated"@
}

/// A record in the output: the text and the end of its line.
pub open spec fn record(text: Seq<char>) -> Seq<char> {
    text + "\n"@
}

/// The text that a value of type text is made from: a quoted string, or a
/// variable that holds text.
pub open spec fn text_value(init: Seq<char>, env: Map<Seq<char>, Datum>) -> Option<Seq<char>> {
    if is_quoted(init) {
        Some(inner(init))
    } else if env.dom().contains(init) {
        match env[init] {
            Datum::Text(text) => Some(text),
            _ => None,
        }
    } else {
        None
    }
}

/// The truth value that a value of type truth is made from: a literal, or a
/// variable that holds a truth value.
pub open spec fn truth_value(init: Seq<char>, env: Map<Seq<char>, Datum>) -> Option<bool> {
    match truth_literal(init) {
        Some(b) => Some(b),
        None => if env.dom().contains(init) {
            match env[init] {
                Datum::Bool(b) => Some(b),
                _ => None,
            }
        } else {
            None
        },
    }
}

/// The expression inside the brackets of `token`. In a loop body the word
/// `counter` gives way to the number of the current pass.
pub open spec fn bracket_text(token: Seq<char>, counter: Option<int>) -> Seq<char> {
    match counter {
        Some(pass) => replace(inner(token), counter_word(), decimal(pass)),
        None => inner(token),
    }
}

/// The number that a value of type number is made from: a bracketed
/// expression; or a number for the host to read; or, where the host reads
/// none, a variable that holds a number. `mismatch` is the message for a
/// token that is none of these.
pub open spec fn number_value(
    init: Seq<char>,
    counter: Option<int>,
    env: Map<Seq<char>, Datum>,
    answers: Seq<Answer>,
    mismatch: Seq<char>,
) -> Result<u64, Stop> {
    if is_bracketed(init) {
        match expression(bracket_text(init, counter), env, answers) {
            Ok(Datum::Num(n)) => Ok(n),
            Ok(_) => Err(Stop::Fail(msg_operator())),
            Err(stop) => Err(stop),
        }
    } else if answers.len() == 0 {
        Err(Stop::Ask(Need::Parse(init)))
    } else {
        match answers[0] {
            Answer::Number(n) => Ok(n),
            _ => if env.dom().contains(init) {
                match env[init] {
                    Datum::Num(n) => Ok(n),
                    _ => Err(Stop::Fail(mismatch)),
                }
            } else {
                Err(Stop::Fail(mismatch))
            },
        }
    }
}

/// The truth value of a condition: a literal, a bracketed comparison, or a
/// variable that holds a truth value.
pub open spec fn condition(
    token: Seq<char>,
    counter: Option<int>,
    env: Map<Seq<char>, Datum>,
    answers: Seq<Answer>,
) -> Result<bool, Stop> {
    match truth_literal(token) {
        Some(b) => Ok(b),
        None => if is_bracketed(token) {
            match expression(bracket_text(token, counter), env, answers) {
                Ok(Datum::Bool(b)) => Ok(b),
                Ok(_) => Err(Stop::Fail(msg_condition())),
                Err(stop) => Err(stop),
            }
        } else if env.dom().contains(token) {
            match env[token] {
                Datum::Bool(b) => Ok(b),
                _ => Err(Stop::Fail(msg_condition())),
            }
        } else {
            Err(Stop::Fail(msg_condition()))
        },
    }
}

/// The integer that the host cuts the number `bits` to.
pub open spec fn truncated(bits: u64, answers: Seq<Answer>, used: int) -> Result<int, Stop> {
    if used < 0 || used >= answers.len() {
        Err(Stop::Ask(Need::Truncate(bits)))
    } else {
        match answers[used] {
            Answer::Integer(n) => Ok(n),
            _ => Err(Stop::Fail(msg_no_result())),
        }
    }
}

/// How many times a loop runs: once for true and never for false, be it a
/// literal or a variable; else the number that a variable holds, or that the
/// host reads, cut to an integer.
pub open spec fn count_value(token: Seq<char>, env: Map<Seq<char>, Datum>, answers: Seq<Answer>) -> Result<
    int,
    Stop,
> {
    match truth_literal(token) {
        Some(b) => Ok(if b {
            1
        } else {
            0
        }),
        None => if env.dom().contains(token) {
            match env[token] {
                Datum::Bool(b) => Ok(if b {
                    1
                } else {
                    0
                }),
                Datum::Num(bits) => truncated(bits, answers, 0),
                Datum::Text(_) => Err(Stop::Fail(msg_times())),
            }
        } else if answers.len() == 0 {
            Err(Stop::Ask(Need::Parse(token)))
        } else {
            match answers[0] {
                Answer::Number(bits) => truncated(bits, answers, 1),
                _ => Err(Stop::Fail(msg_times())),
            }
        },
    }
}

impl Site {
    /// The token `offset` places after the statement's first.
    pub open spec fn token(self, offset: int) -> Seq<char> {
        self.program[self.at + offset]
    }

    /// Whether the statement's surroundings hold `count` tokens for it.
    pub open spec fn has(self, count: int) -> bool {
        self.at + count <= self.limit
    }

    /// Nothing happens but that the machine moves on to `next`.
    pub open spec fn skip(self, next: int) -> Change {
        Change::Say { text: Seq::empty(), next }
    }

    /// A statement that its surroundings end in the middle of: it takes what
    /// is left of them, and says so where statements are executed.
    pub open spec fn incomplete(self, keyword: Seq<char>) -> Change {
        if self.active {
            Change::Say { text: record(msg_incomplete(keyword)), next: self.limit }
        } else {
            self.skip(self.limit)
        }
    }

    /// `WA type name = value`: binds `name` to a value of the type.
    pub open spec fn declare(self, env: Map<Seq<char>, Datum>, answers: Seq<Answer>) -> Change {
        let next = self.at + 5;
        let ty = self.token(1);
        let name = self.token(2);
        let init = self.token(4);
        if !self.has(5) {
            self.incomplete(kw_declare())
        } else if !self.active {
            self.skip(next)
        } else if self.token(3) != sign_assign() {
            Change::Say { text: record(msg_declare_sign()), next }
        } else if !is_name(name) {
            Change::Say { text: record(msg_target(name)), next }
        } else if ty == ty_text() {
            match text_value(init, env) {
                Some(text) => Change::Bind { name, value: Datum::Text(text), next },
                None => Change::Say { text: record(msg_declare_text()), next },
            }
        } else if ty == ty_bool() {
            match truth_value(init, env) {
                Some(b) => Change::Bind { name, value: Datum::Bool(b), next },
                None => Change::Say { text: record(msg_declare_bool()), next },
            }
        } else if ty == ty_number() {
            match number_value(init, self.counter, env, answers, msg_declare_number()) {
                Ok(n) => Change::Bind { name, value: Datum::Num(n), next },
                Err(Stop::Ask(need)) => Change::Ask(need),
                Err(Stop::Fail(text)) => Change::Say { text: record(text), next },
            }
        } else {
            Change::Say { text: record(msg_unknown_type(ty)), next }
        }
    }

    /// `CO name = value`: binds `name`, which is bound already, to a new
    /// value of the type that it has.
    pub open spec fn reassign(self, env: Map<Seq<char>, Datum>, answers: Seq<Answer>) -> Change {
        let next = self.at + 4;
        let name = self.token(1);
        let init = self.token(3);
        if !self.has(4) {
            self.incomplete(kw_reassign())
        } else if !self.active {
            self.skip(next)
        } else if self.token(2) != sign_assign() {
            Change::Say { text: record(msg_reassign_sign()), next }
        } else if !env.dom().contains(name) {
            Change::Say { text: record(msg_unbound_reassign(name)), next }
        } else {
            match env[name] {
                Datum::Text(_) => match text_value(init, env) {
                    Some(text) => Change::Bind { name, value: Datum::Text(text), next },
                    None => Change::Say { text: record(msg_reassign_text()), next },
                },
                Datum::Bool(_) => match truth_value(init, env) {
                    Some(b) => Change::Bind { name, value: Datum::Bool(b), next },
                    None => Change::Say { text: record(msg_reassign_bool()), next },
                },
                Datum::Num(_) => match number_value(
                    init,
                    self.counter,
                    env,
                    answers,
                    msg_reassign_number(),
                ) {
                    Ok(n) => Change::Bind { name, value: Datum::Num(n), next },
                    Err(Stop::Ask(need)) => Change::Ask(need),
                    Err(Stop::Fail(text)) => Change::Say { text: record(text), next },
                },
            }
        }
    }

    /// `BAU operand`: prints a quoted string, or the value of a variable.
    pub open spec fn print(self, env: Map<Seq<char>, Datum>, answers: Seq<Answer>) -> Change {
        let next = self.at + 2;
        let what = self.token(1);
        if !self.has(2) {
            self.incomplete(kw_print())
        } else if !self.active {
            self.skip(next)
        } else if is_quoted(what) {
            Change::Say { text: record(inner(what)), next }
        } else if !env.dom().contains(what) {
            Change::Say { text: record(msg_unbound_print(what)), next }
        } else {
            match env[what] {
                Datum::Text(text) => Change::Say { text: record(text), next },
                Datum::Bool(b) => Change::Say { text: record(truth_text(b)), next },
                Datum::Num(n) => if answers.len() == 0 {
                    Change::Ask(Need::Render(n))
                } else {
                    match answers[0] {
                        Answer::Text(text) => Change::Say { text: record(text), next },
                        _ => Change::Say { text: record(msg_no_result()), next },
                    }
                },
            }
        }
    }

    /// `FUWA condition` and `FUWAMOCO condition`: a branch that depends on a
    /// condition. A condition that fails counts as false. These statements
    /// are read whether or not statements are executed where they stand.
    pub open spec fn branch(self, fresh: bool, env: Map<Seq<char>, Datum>, answers: Seq<Answer>) -> Change {
        let next = self.at + 2;
        if !self.has(2) {
            Change::Say { text: record(msg_incomplete(self.token(0))), next: self.limit }
        } else {
            match condition(self.token(1), self.counter, env, answers) {
                Ok(b) => Change::Branch { fresh, condition: b, text: Seq::empty(), next },
                Err(Stop::Ask(need)) => Change::Ask(need),
                Err(Stop::Fail(text)) => Change::Branch {
                    fresh,
                    condition: false,
                    text: record(text),
                    next,
                },
            }
        }
    }

    /// `MOCO`: the branch for when no branch before it was taken.
    pub open spec fn otherwise(self) -> Change {
        Change::Branch { fresh: false, condition: true, text: Seq::empty(), next: self.at + 1 }
    }

    /// `PERO name`: opens a class, which a program that announces its
    /// classes says.
    pub open spec fn class(self) -> Change {
        let next = self.at + 2;
        if !self.has(2) {
            self.incomplete(kw_class())
        } else if self.active && self.announce {
            Change::Say { text: record(msg_class(self.token(1))), next }
        } else {
            self.skip(next)
        }
    }

    /// `PEROPERO`: closes a class and with it every conditional chain.
    pub open spec fn class_end(self) -> Change {
        Change::Reset {
            text: if self.announce {
                record(msg_class_end())
            } else {
                Seq::empty()
            },
            next: self.at + 1,
        }
    }

    /// `BAUBAU`: ends the program.
    pub open spec fn end(self) -> Change {
        if self.active {
            Change::Halt { text: record(msg_end()) }
        } else {
            self.skip(self.at + 1)
        }
    }

    /// A token that opens no statement.
    pub open spec fn unknown(self) -> Change {
        if self.active {
            Change::Say { text: record(msg_unknown(self.token(0))), next: self.at + 1 }
        } else {
            self.skip(self.at + 1)
        }
    }

    /// The index of the closing brace of the loop over a range that begins
    /// here, or `limit` where there is none.
    pub open spec fn loop_end(self) -> int {
        closing(self.program, brace_close(), self.at + 4, self.limit)
    }

    /// The index of the closing token of the loop over a count that begins
    /// here, or `limit` where there is none.
    pub open spec fn times_end(self) -> int {
        closing(self.program, kw_times_end(), self.at + 2, self.limit)
    }

    /// The index of the first token after a loop whose closing token is at
    /// `end`.
    pub open spec fn after(self, end: int) -> int {
        if end < self.limit {
            end + 1
        } else {
            self.limit
        }
    }

    /// The index of the first token after the loop over a range that begins
    /// here.
    pub open spec fn loop_after(self) -> int {
        self.after(self.loop_end())
    }

    /// `PON count body DE`: runs the body `count` times. A loop that fails
    /// runs no pass, and the machine moves on behind its closing token.
    pub open spec fn times(self, env: Map<Seq<char>, Datum>, answers: Seq<Answer>) -> Change {
        let end = self.times_end();
        let after = self.after(end);
        if !self.has(2) {
            self.incomplete(kw_times())
        } else if !self.active {
            self.skip(after)
        } else if self.nested {
            Change::Say { text: record(msg_nested()), next: after }
        } else if end >= self.limit {
            Change::Say { text: record(msg_times_end()), next: after }
        } else {
            match count_value(self.token(1), env, answers) {
                Ok(count) => if count >= 1 {
                    Change::Enter { variable: None, first: 1, last: count, body: self.at + 2, end }
                } else {
                    self.skip(after)
                },
                Err(Stop::Ask(need)) => Change::Ask(need),
                Err(Stop::Fail(text)) => Change::Say { text: record(text), next: after },
            }
        }
    }

    /// `PONDE name first..last { body }`: runs the body once for each
    /// integer from `first` to `last`, with `name` bound to it. The host
    /// reads the two bounds and cuts them to integers. A loop that fails
    /// runs no pass, and the machine moves on behind its closing brace.
    pub open spec fn repeat(self, answers: Seq<Answer>) -> Change {
        let after = self.loop_after();
        let name = self.token(1);
        if !self.has(4) {
            self.incomplete(kw_loop())
        } else if !self.active {
            self.skip(after)
        } else if self.nested {
            Change::Say { text: record(msg_nested()), next: after }
        } else if !is_name(name) {
            Change::Say { text: record(msg_target(name)), next: after }
        } else {
            match range_bounds(self.token(2)) {
                None => Change::Say { text: record(msg_range()), next: after },
                Some((first, last)) => self.repeat_over(first, last, answers),
            }
        }
    }

    /// The loop statement once its range is split into two bounds.
    pub open spec fn repeat_over(self, first: Seq<char>, last: Seq<char>, answers: Seq<Answer>) -> Change {
        let after = self.loop_after();
        if answers.len() == 0 {
            Change::Ask(Need::Parse(first))
        } else if !(answers[0] is Number) {
            Change::Say { text: record(msg_range_start()), next: after }
        } else if answers.len() == 1 {
            Change::Ask(Need::Parse(last))
        } else if !(answers[1] is Number) {
            Change::Say { text: record(msg_range_end()), next: after }
        } else if self.token(3) != brace_open() {
            Change::Say { text: record(msg_brace_open()), next: after }
        } else if self.loop_end() >= self.limit {
            Change::Say { text: record(msg_brace_close()), next: after }
        } else if answers.len() == 2 {
            Change::Ask(Need::Truncate(answers[0]->Number_0))
        } else if answers.len() == 3 {
            Change::Ask(Need::Truncate(answers[1]->Number_0))
        } else {
            match (answers[2], answers[3]) {
                (Answer::Integer(from), Answer::Integer(to)) => if from <= to {
                    Change::Enter {
                        variable: Some(self.token(1)),
                        first: from,
                        last: to,
                        body: self.at + 4,
                        end: self.loop_end(),
                    }
                } else {
                    self.skip(after)
                },
                _ => Change::Say { text: record(msg_no_result()), next: after },
            }
        }
    }

    /// What the statement at this site comes to.
    pub open spec fn statement(self, env: Map<Seq<char>, Datum>, answers: Seq<Answer>) -> Change {
        let word = self.token(0);
        if word == kw_declare() {
            self.declare(env, answers)
        } else if word == kw_reassign() {
            self.reassign(env, answers)
        } else if word == kw_print() {
            self.print(env, answers)
        } else if word == kw_loop() {
            self.repeat(answers)
        } else if word == kw_times() {
            self.times(env, answers)
        } else if word == kw_if() {
            self.branch(true, env, answers)
        } else if word == kw_else_if() {
            self.branch(false, env, answers)
        } else if word == kw_else() {
            self.otherwise()
        } else if word == kw_class() {
            self.class()
        } else if word == kw_class_end() {
            self.class_end()
        } else if word == kw_end() {
            self.end()
        } else {
            self.unknown()
        }
    }
}

/// What a statement comes to, as the machine holds it.
pub(crate) enum Effect {
    Ask(Request),
    Say { text: String, next: usize },
    Bind { name: Vec<char>, value: Value, next: usize },
    Branch { fresh: bool, condition: bool, text: String, next: usize },
    Reset { text: String, next: usize },
    Enter { variable: Option<Vec<char>>, first: i64, last: i64, body: usize, end: usize },
    Halt { text: String },
}

impl View for Effect {
    type V = Change;

    open(crate) spec fn view(&self) -> Change {
        match self {
            Effect::Ask(request) => Change::Ask(request@),
            Effect::Say { text, next } => Change::Say { text: text@, next: *next as int },
            Effect::Bind { name, value, next } => Change::Bind {
                name: name@,
                value: value@,
                next: *next as int,
            },
            Effect::Branch { fresh, condition, text, next } => Change::Branch {
                fresh: *fresh,
                condition: *condition,
                text: text@,
                next: *next as int,
            },
            Effect::Reset { text, next } => Change::Reset { text: text@, next: *next as int },
            Effect::Enter { variable, first, last, body, end } => Change::Enter {
                variable: match variable {
                    Some(name) => Some(name@),
                    None => None,
                },
                first: *first as int,
                last: *last as int,
                body: *body as int,
                end: *end as int,
            },
            Effect::Halt { text } => Change::Halt { text: text@ },
        }
    }
}

/// Where a statement stands, as the machine holds it.
pub(crate) struct Spot {
    pub at: usize,
    pub limit: usize,
    pub active: bool,
    pub announce: bool,
    pub nested: bool,
    pub counter: Option<i64>,
}

impl Spot {
    /// The site that this is in `program`.
    pub(crate) open spec fn site(self, program: Seq<Vec<char>>) -> Site {
        Site {
            program: texts(program),
            at: self.at as int,
            limit: self.limit as int,
            active: self.active,
            announce: self.announce,
            nested: self.nested,
            counter: match self.counter {
                Some(pass) => Some(pass as int),
                None => None,
            },
        }
    }

    /// Whether the spot names a token of `program`.
    pub(crate) open spec fn within(self, program: Seq<Vec<char>>) -> bool {
        self.at < self.limit <= program.len()
    }
}

fn say(message: &str, next: usize) -> (e: Effect)
    ensures
        e@ == (Change::Say { text: record(message@), next: next as int }),
{
    Effect::Say { text: record_of(message), next }
}

fn say_about(head: &str, word: &Vec<char>, next: usize) -> (e: Effect)
    ensures
        e@ == (Change::Say { text: record(head@ + word@), next: next as int }),
{
    Effect::Say { text: line_about(head, word, "\n"), next }
}

fn say_line(line: String, next: usize) -> (e: Effect)
    ensures
        e@ == (Change::Say { text: line@, next: next as int }),
{
    Effect::Say { text: line, next }
}

fn skip(next: usize) -> (e: Effect)
    ensures
        e@ == (Change::Say { text: Seq::empty(), next: next as int }),
{
    Effect::Say { text: String::new(), next }
}

fn incomplete(spot: &Spot, keyword: &str) -> (e: Effect)
    ensures
        forall|program: Seq<Vec<char>>| e@ == (#[trigger] spot.site(program)).incomplete(keyword@),
{
    if spot.active {
        let mut line = String::from_str("[ERROR: Incomplete]: Statement is not complete: ");
        line.append(keyword);
        line.append("\n");
        Effect::Say { text: line, next: spot.limit }
    } else {
        skip(spot.limit)
    }
}

/// The record that a message makes: the message with the end of its line.
fn ended(message: String) -> (line: String)
    ensures
        line@ == record(message@),
{
    let mut line = message;
    line.append("\n");
    line
}

/// A record of `text`: a line of its own.
pub(crate) fn record_of(text: &str) -> (line: String)
    ensures
        line@ == record(text@),
{
    let mut line = String::from_str(text);
    line.append("\n");
    line
}

fn eval_text(init: &Vec<char>, env: &Environment) -> (r: Option<String>)
    ensures
        match (r, text_value(init@, env@)) {
            (Some(got), Some(text)) => got@ == text,
            (None, None) => true,
            _ => false,
        },
{
    if quoted(init) {
        Some(text_of(&strip(init)))
    } else {
        match env.lookup(init) {
            Some(Value::Str(text)) => Some(text.clone()),
            _ => None,
        }
    }
}

fn eval_truth(init: &Vec<char>, env: &Environment) -> (r: Option<bool>)
    ensures
        r == truth_value(init@, env@),
{
    match read_truth(init) {
        Some(b) => Some(b),
        None => match env.lookup(init) {
            Some(Value::Bool(b)) => Some(*b),
            _ => None,
        },
    }
}

fn bracket_inner(token: &Vec<char>, counter: Option<i64>) -> (r: Vec<char>)
    requires
        token.len() >= 2,
    ensures
        r@ == bracket_text(
            token@,
            match counter {
                Some(pass) => Some(pass as int),
                None => None,
            },
        ),
{
    let text = strip(token);
    match counter {
        Some(pass) => replace_all(&text, &chars_of("counter"), &decimal_of(pass)),
        None => text,
    }
}

fn eval_number(
    init: &Vec<char>,
    counter: Option<i64>,
    env: &Environment,
    answers: &Vec<Reply>,
    mismatch: &str,
) -> (r: Result<u64, Pause>)
    ensures
        agrees(
            r,
            number_value(
                init@,
                match counter {
                    Some(pass) => Some(pass as int),
                    None => None,
                },
                env@,
                answers_of(answers@),
                mismatch@,
            ),
            |got: u64, model: u64| got == model,
        ),
{
    if bracketed(init) {
        let text = bracket_inner(init, counter);
        match evaluate_expression(&text, env, answers) {
            Ok(Value::Num(n)) => Ok(n),
            Ok(_) => Err(
                Pause::Fail(
                    String::from_str("[ERROR: InvalidOperator]: Operator is not supported"),
                ),
            ),
            Err(pause) => Err(pause),
        }
    } else if answers.len() == 0 {
        Err(Pause::Ask(parse_request(init)))
    } else {
        match &answers[0] {
            Reply::Number(n) => Ok(*n),
            _ => match env.lookup(init) {
                Some(Value::Num(n)) => Ok(*n),
                _ => Err(Pause::Fail(String::from_str(mismatch))),
            },
        }
    }
}

fn eval_condition(token: &Vec<char>, counter: Option<i64>, env: &Environment, answers: &Vec<Reply>) -> (r:
    Result<bool, Pause>)
    ensures
        agrees(
            r,
            condition(
                token@,
                match counter {
                    Some(pass) => Some(pass as int),
                    None => None,
                },
                env@,
                answers_of(answers@),
            ),
            |got: bool, model: bool| got == model,
        ),
{
    match read_truth(token) {
        Some(b) => Ok(b),
        None => if bracketed(token) {
            let text = bracket_inner(token, counter);
            match evaluate_expression(&text, env, answers) {
                Ok(Value::Bool(b)) => Ok(b),
                Ok(_) => Err(no_condition()),
                Err(pause) => Err(pause),
            }
        } else {
            match env.lookup(token) {
                Some(Value::Bool(b)) => Ok(*b),
                _ => Err(no_condition()),
            }
        },
    }
}

fn no_condition() -> (r: Pause)
    ensures
        r@ == Stop::Fail(msg_condition()),
{
    Pause::Fail(String::from_str("[ERROR: IncompatibleType]: A condition requires a BAULEAN value"))
}

fn bind_number(name: &Vec<char>, got: Result<u64, Pause>, next: usize) -> (e: Effect)
    ensures
        e@ == match got {
            Ok(n) => Change::Bind { name: name@, value: Datum::Num(n), next: next as int },
            Err(Pause::Ask(request)) => Change::Ask(request@),
            Err(Pause::Fail(message)) => Change::Say { text: record(message@), next: next as int },
        },
{
    match got {
        Ok(n) => Effect::Bind { name: name.clone(), value: Value::Num(n), next },
        Err(Pause::Ask(request)) => Effect::Ask(request),
        Err(Pause::Fail(message)) => say_line(ended(message), next),
    }
}

fn declare(program: &Vec<Vec<char>>, spot: &Spot, env: &Environment, answers: &Vec<Reply>) -> (e: Effect)
    requires
        spot.within(program@),
    ensures
        e@ == spot.site(program@).declare(env@, answers_of(answers@)),
{
    if spot.limit - spot.at < 5 {
        return incomplete(spot, "WA");
    }
    let next = spot.at + 5;
    let ty = &program[spot.at + 1];
    let name = &program[spot.at + 2];
    let init = &program[spot.at + 4];
    if !spot.active {
        skip(next)
    } else if !is_word(&program[spot.at + 3], "=") {
        say("[ERROR: Syntax]: Expected '=' after variable name", next)
    } else if !nameable(name) {
        say_about("[ERROR: InvalidTarget]: Cannot assign to: ", name, next)
    } else if is_word(ty, "KIRA") {
        match eval_text(init, env) {
            Some(text) => Effect::Bind { name: name.clone(), value: Value::Str(text), next },
            None => say("[ERROR: IncompatibleType]: KIRA does not support a nonstring", next),
        }
    } else if is_word(ty, "BAULEAN") {
        match eval_truth(init, env) {
            Some(b) => Effect::Bind { name: name.clone(), value: Value::Bool(b), next },
            None => say(
                "[ERROR: IncompatibleType]: BAULEAN requires FLUFFY/FUZZY or a declared BAULEAN-type variable",
                next,
            ),
        }
    } else if is_word(ty, "MOE") {
        let got = eval_number(
            init,
            spot.counter,
            env,
            answers,
            "[ERROR: InvalidValue]: Invalid number/arithmetic expression",
        );
        bind_number(name, got, next)
    } else {
        say_about("[ERROR: UnknownType]: Unknown type: ", ty, next)
    }
}

fn reassign(program: &Vec<Vec<char>>, spot: &Spot, env: &Environment, answers: &Vec<Reply>) -> (e: Effect)
    requires
        spot.within(program@),
    ensures
        e@ == spot.site(program@).reassign(env@, answers_of(answers@)),
{
    if spot.limit - spot.at < 4 {
        return incomplete(spot, "CO");
    }
    let next = spot.at + 4;
    let name = &program[spot.at + 1];
    let init = &program[spot.at + 3];
    if !spot.active {
        skip(next)
    } else if !is_word(&program[spot.at + 2], "=") {
        say("[ERROR: Syntax]: Expected '=' in a reassignment", next)
    } else {
        match env.lookup(name) {
            None => say_about(
                "[ERROR: VanishValue]: Variable could not be found in scope: ",
                name,
                next,
            ),
            Some(Value::Str(_)) => match eval_text(init, env) {
                Some(text) => Effect::Bind { name: name.clone(), value: Value::Str(text), next },
                None => say("[ERROR: IncompatibleType]: CO requires matching type (KIRA)", next),
            },
            Some(Value::Bool(_)) => match eval_truth(init, env) {
                Some(b) => Effect::Bind { name: name.clone(), value: Value::Bool(b), next },
                None => say("[ERROR: IncompatibleType]: CO requires matching type (BAULEAN)", next),
            },
            Some(Value::Num(_)) => {
                let got = eval_number(
                    init,
                    spot.counter,
                    env,
                    answers,
                    "[ERROR: IncompatibleType]: CO requires matching type (MOE)",
                );
                bind_number(name, got, next)
            },
        }
    }
}

fn print(program: &Vec<Vec<char>>, spot: &Spot, env: &Environment, answers: &Vec<Reply>) -> (e: Effect)
    requires
        spot.within(program@),
    ensures
        e@ == spot.site(program@).print(env@, answers_of(answers@)),
{
    if spot.limit - spot.at < 2 {
        return incomplete(spot, "BAU");
    }
    let next = spot.at + 2;
    let what = &program[spot.at + 1];
    if !spot.active {
        skip(next)
    } else if quoted(what) {
        let mut line = text_of(&strip(what));
        line.append("\n");
        say_line(line, next)
    } else {
        match env.lookup(what) {
            None => say_about("[ERROR: VanishValue]: Variable couldn't be found: ", what, next),
            Some(Value::Str(text)) => {
                let mut line = text.clone();
                line.append("\n");
                say_line(line, next)
            },
            Some(Value::Bool(b)) => if *b {
                say_line(record_of("true"), next)
            } else {
                say_line(record_of("false"), next)
            },
            Some(Value::Num(n)) => if answers.len() == 0 {
                Effect::Ask(Request::Render(*n))
            } else {
                match &answers[0] {
                    Reply::Text(text) => {
                        let mut line = text.clone();
                        line.append("\n");
                        say_line(line, next)
                    },
                    _ => say("[ERROR: InvalidValue]: The operation has no result", next),
                }
            },
        }
    }
}

fn branch(
    program: &Vec<Vec<char>>,
    spot: &Spot,
    fresh: bool,
    env: &Environment,
    answers: &Vec<Reply>,
) -> (e: Effect)
    requires
        spot.within(program@),
    ensures
        e@ == spot.site(program@).branch(fresh, env@, answers_of(answers@)),
{
    if spot.limit - spot.at < 2 {
        return say_about(
            "[ERROR: Incomplete]: Statement is not complete: ",
            &program[spot.at],
            spot.limit,
        );
    }
    let next = spot.at + 2;
    match eval_condition(&program[spot.at + 1], spot.counter, env, answers) {
        Ok(b) => Effect::Branch { fresh, condition: b, text: String::new(), next },
        Err(Pause::Ask(request)) => Effect::Ask(request),
        Err(Pause::Fail(message)) => Effect::Branch {
            fresh,
            condition: false,
            text: ended(message),
            next,
        },
    }
}

fn class(program: &Vec<Vec<char>>, spot: &Spot) -> (e: Effect)
    requires
        spot.within(program@),
    ensures
        e@ == spot.site(program@).class(),
{
    if spot.limit - spot.at < 2 {
        return incomplete(spot, "PERO");
    }
    let next = spot.at + 2;
    if spot.active && spot.announce {
        say_about("[CLASS]: ", &program[spot.at + 1], next)
    } else {
        skip(next)
    }
}

fn repeat(program: &Vec<Vec<char>>, spot: &Spot, answers: &Vec<Reply>) -> (e: Effect)
    requires
        spot.within(program@),
    ensures
        e@ == spot.site(program@).repeat(answers_of(answers@)),
{
    if spot.limit - spot.at < 4 {
        return incomplete(spot, "PONDE");
    }
    let end = find_closing(program, "}", spot.at + 4, spot.limit);
    proof {
        lemma_closing_bounds(texts(program@), brace_close(), spot.at + 4, spot.limit as int);
    }
    let after = if end < spot.limit {
        end + 1
    } else {
        spot.limit
    };
    let name = &program[spot.at + 1];
    if !spot.active {
        skip(after)
    } else if spot.nested {
        say("[ERROR: Syntax]: A loop cannot stand inside a loop", after)
    } else if !nameable(name) {
        say_about("[ERROR: InvalidTarget]: Cannot assign to: ", name, after)
    } else {
        match split_range(&program[spot.at + 2]) {
            None => say("[ERROR: Syntax]: Invalid range. Expected 'startInt..endInt'", after),
            Some((first, last)) => {
                if answers.len() == 0 {
                    return Effect::Ask(parse_request(&first));
                }
                let low = match &answers[0] {
                    Reply::Number(bits) => *bits,
                    _ => {
                        return say(
                            "[ERROR: InvalidRange]: Start value must be an integer",
                            after,
                        );
                    },
                };
                if answers.len() == 1 {
                    return Effect::Ask(parse_request(&last));
                }
                let high = match &answers[1] {
                    Reply::Number(bits) => *bits,
                    _ => {
                        return say("[ERROR: InvalidRange]: End value must be an integer", after);
                    },
                };
                if !is_word(&program[spot.at + 3], "{") {
                    say("[ERROR: Syntax]: Expected '{' to begin the loop", after)
                } else if end >= spot.limit {
                    say("[ERROR: Syntax]: Could not find closing '}' for loop", after)
                } else if answers.len() == 2 {
                    Effect::Ask(Request::Truncate(low))
                } else if answers.len() == 3 {
                    Effect::Ask(Request::Truncate(high))
                } else {
                    match (&answers[2], &answers[3]) {
                        (Reply::Integer(from), Reply::Integer(to)) => if *from <= *to {
                            Effect::Enter {
                                variable: Some(name.clone()),
                                first: *from,
                                last: *to,
                                body: spot.at + 4,
                                end,
                            }
                        } else {
                            skip(after)
                        },
                        _ => say("[ERROR: InvalidValue]: The operation has no result", after),
                    }
                }
            },
        }
    }
}

fn eval_truncated(bits: u64, answers: &Vec<Reply>, used: usize) -> (r: Result<i64, Pause>)
    ensures
        agrees(
            r,
            truncated(bits, answers_of(answers@), used as int),
            |got: i64, model: int| got == model,
        ),
{
    if used >= answers.len() {
        Err(Pause::Ask(Request::Truncate(bits)))
    } else {
        match &answers[used] {
            Reply::Integer(n) => Ok(*n),
            _ => Err(no_result()),
        }
    }
}

fn no_count() -> (r: Pause)
    ensures
        r@ == Stop::Fail(msg_times()),
{
    Pause::Fail(
        String::from_str("[ERROR: InvalidValue]: A count must be a number or a BAULEAN value"),
    )
}

fn eval_count(token: &Vec<char>, env: &Environment, answers: &Vec<Reply>) -> (r: Result<i64, Pause>)
    ensures
        agrees(
            r,
            count_value(token@, env@, answers_of(answers@)),
            |got: i64, model: int| got == model,
        ),
{
    match read_truth(token) {
        Some(b) => Ok(if b { 1 } else { 0 }),
        None => match env.lookup(token) {
            Some(Value::Bool(b)) => Ok(if *b { 1 } else { 0 }),
            Some(Value::Num(bits)) => eval_truncated(*bits, answers, 0),
            Some(Value::Str(_)) => Err(no_count()),
            None => if answers.len() == 0 {
                Err(Pause::Ask(parse_request(token)))
            } else {
                match &answers[0] {
                    Reply::Number(bits) => eval_truncated(*bits, answers, 1),
                    _ => Err(no_count()),
                }
            },
        },
    }
}

fn times(program: &Vec<Vec<char>>, spot: &Spot, env: &Environment, answers: &Vec<Reply>) -> (e: Effect)
    requires
        spot.within(program@),
    ensures
        e@ == spot.site(program@).times(env@, answers_of(answers@)),
{
    if spot.limit - spot.at < 2 {
        return incomplete(spot, "PON");
    }
    let end = find_closing(program, "DE", spot.at + 2, spot.limit);
    proof {
        lemma_closing_bounds(texts(program@), kw_times_end(), spot.at + 2, spot.limit as int);
    }
    let after = if end < spot.limit {
        end + 1
    } else {
        spot.limit
    };
    if !spot.active {
        skip(after)
    } else if spot.nested {
        say("[ERROR: Syntax]: A loop cannot stand inside a loop", after)
    } else if end >= spot.limit {
        say("[ERROR: Syntax]: Could not find closing 'DE' for loop", after)
    } else {
        match eval_count(&program[spot.at + 1], env, answers) {
            Ok(count) => if count >= 1 {
                Effect::Enter { variable: None, first: 1, last: count, body: spot.at + 2, end }
            } else {
                skip(after)
            },
            Err(Pause::Ask(request)) => Effect::Ask(request),
            Err(Pause::Fail(message)) => say_line(ended(message), after),
        }
    }
}

/// Reads the statement at `spot`.
pub(crate) fn statement(program: &Vec<Vec<char>>, spot: &Spot, env: &Environment, answers: &Vec<Reply>) -> (e:
    Effect)
    requires
        spot.within(program@),
    ensures
        e@ == spot.site(program@).statement(env@, answers_of(answers@)),
{
    let word = &program[spot.at];
    if is_word(word, "WA") {
        declare(program, spot, env, answers)
    } else if is_word(word, "CO") {
        reassign(program, spot, env, answers)
    } else if is_word(word, "BAU") {
        print(program, spot, env, answers)
    } else if is_word(word, "PONDE") {
        repeat(program, spot, answers)
    } else if is_word(word, "PON") {
        times(program, spot, env, answers)
    } else if is_word(word, "FUWA") {
        branch(program, spot, true, env, answers)
    } else if is_word(word, "FUWAMOCO") {
        branch(program, spot, false, env, answers)
    } else if is_word(word, "MOCO") {
        Effect::Branch { fresh: false, condition: true, text: String::new(), next: spot.at + 1 }
    } else if is_word(word, "PERO") {
        class(program, spot)
    } else if is_word(word, "PEROPERO") {
        if spot.announce {
            Effect::Reset { text: record_of("[CLASS]: end"), next: spot.at + 1 }
        } else {
            Effect::Reset { text: String::new(), next: spot.at + 1 }
        }
    } else if is_word(word, "BAUBAU") {
        if spot.active {
            Effect::Halt { text: record_of("[END]: Program terminated") }
        } else {
            skip(spot.at + 1)
        }
    } else if spot.active {
        say_about("[ERROR: UnknownToken]: Unknown token: ", word, spot.at + 1)
    } else {
        skip(spot.at + 1)
    }
}

} // verus!
