//! Expressions: one operand, or an operand, an operator and an operand.
//!
//! An expression is evaluated against the replies that the host has given so
//! far for the statement it stands in. Where the next reply is missing, the
//! evaluation stops and names the request; it is taken up again, from the
//! start, when the reply has come.

use vstd::prelude::*;
use crate::host::{answers_of, parse_request, Answer, Need, Operator, Reply, Request};
use crate::syntax::{operator, read_operator, read_truth, truth_literal};
use crate::text::{append_chars, split_words, words};
use crate::value::{truth_number, Datum, Environment, Value, ONE, ZERO};

verus! {

/// Why an evaluation ends without a value.
pub enum Stop {
    /// The host has to answer this first.
    Ask(Need),
    /// The evaluation failed; this is the message that says why, without an
    /// end of line.
    Fail(Seq<char>),
}

/// An evaluation that ended without a value.
#[derive(Clone, Debug, PartialEq)]
pub enum Pause {
    Ask(Request),
    Fail(String),
}

impl View for Pause {
    type V = Stop;

    open spec fn view(&self) -> Stop {
        match self {
            Pause::Ask(request) => Stop::Ask(request@),
            Pause::Fail(message) => Stop::Fail(message@),
        }
    }
}

/// The message for an operand that is a variable of text.
pub open spec fn msg_operand_type() -> Seq<char> {
    "[ERROR: InvalidValue]: Variable not found or invalid type"@
}

/// The message for an operand of an operator that is neither a literal, nor
/// a variable, nor a number.
pub open spec fn msg_invalid_number(word: Seq<char>) -> Seq<char> {
    "[ERROR: InvalidValue]: '"@ + word + "' is an invalid number"@
}

/// The message for an expression of one part that is neither a literal, nor
/// a variable, nor a number.
pub open spec fn msg_invalid_expression() -> Seq<char> {
    "[ERROR: InvalidValue]: Invalid number/expression"@
}

/// The message for an operator that the language does not have.
pub open spec fn msg_operator() -> Seq<char> {
    "[ERROR: InvalidOperator]: Operator is not supported"@
}

/// The message for an expression that has neither one part nor three.
pub open spec fn msg_expression() -> Seq<char> {
    "[ERROR: InvalidExpression]: Expecting 'value operator value'"@
}

/// The message for a request that the host did not meet.
pub open spec fn msg_no_result() -> Seq<char> {
    "[ERROR: InvalidValue]: The operation has no result"@
}

/// What the operand `word` stands for where the host is not needed: a truth
/// literal counts as one or zero; a variable gives its number, or one or
/// zero for its truth value, and fails where it holds text. Any other word
/// is unknown.
pub open spec fn known(word: Seq<char>, env: Map<Seq<char>, Datum>) -> Option<Result<u64, Stop>> {
    match truth_literal(word) {
        Some(b) => Some(Ok(truth_number(b))),
        None => if env.dom().contains(word) {
            Some(
                match env[word] {
                    Datum::Num(n) => Ok(n),
                    Datum::Bool(b) => Ok(truth_number(b)),
                    Datum::Text(_) => Err(Stop::Fail(msg_operand_type())),
                },
            )
        } else {
            None
        },
    }
}

/// The number that the host reads `word` as, and how many replies have been
/// used once it is known. The failure is the request where the host has not
/// answered yet, and nothing where it has read no number.
pub open spec fn read(word: Seq<char>, answers: Seq<Answer>, used: int) -> Result<(u64, int), Option<Need>> {
    if used < 0 || used >= answers.len() {
        Err(Some(Need::Parse(word)))
    } else {
        match answers[used] {
            Answer::Number(n) => Ok((n, used + 1)),
            _ => Err(None),
        }
    }
}

/// The number that the operand `word` of an operator stands for, and how
/// many replies have been used once it is known: what is known of it
/// without the host, else the number that the host reads.
pub open spec fn operand(
    word: Seq<char>,
    env: Map<Seq<char>, Datum>,
    answers: Seq<Answer>,
    used: int,
) -> Result<(u64, int), Stop> {
    match known(word, env) {
        Some(Ok(n)) => Ok((n, used)),
        Some(Err(stop)) => Err(stop),
        None => match read(word, answers, used) {
            Ok(number) => Ok(number),
            Err(Some(need)) => Err(Stop::Ask(need)),
            Err(None) => Err(Stop::Fail(msg_invalid_number(word))),
        },
    }
}

/// The number that an expression of the one part `word` stands for: as an
/// operand, but with a message of its own where the host reads no number.
pub open spec fn alone(word: Seq<char>, env: Map<Seq<char>, Datum>, answers: Seq<Answer>) -> Result<
    u64,
    Stop,
> {
    match known(word, env) {
        Some(result) => result,
        None => match read(word, answers, 0) {
            Ok((n, _)) => Ok(n),
            Err(Some(need)) => Err(Stop::Ask(need)),
            Err(None) => Err(Stop::Fail(msg_invalid_expression())),
        },
    }
}

/// The value of `left op right`, which only the host can compute: a number
/// for arithmetic, a truth value for a comparison.
pub open spec fn combine(op: Operator, left: u64, right: u64, answers: Seq<Answer>, used: int) -> Result<
    Datum,
    Stop,
> {
    if used < 0 || used >= answers.len() {
        Err(Stop::Ask(Need::Binary(op, left, right)))
    } else {
        match answers[used] {
            Answer::Number(n) => if op.compares() {
                Err(Stop::Fail(msg_no_result()))
            } else {
                Ok(Datum::Num(n))
            },
            Answer::Truth(b) => if op.compares() {
                Ok(Datum::Bool(b))
            } else {
                Err(Stop::Fail(msg_no_result()))
            },
            _ => Err(Stop::Fail(msg_no_result())),
        }
    }
}

/// The value of the expression `text`. The left operand is settled before
/// the right one, and both before the operator is looked at.
pub open spec fn expression(text: Seq<char>, env: Map<Seq<char>, Datum>, answers: Seq<Answer>) -> Result<
    Datum,
    Stop,
> {
    let parts = words(text);
    if parts.len() == 1 {
        match alone(parts[0], env, answers) {
            Ok(n) => Ok(Datum::Num(n)),
            Err(stop) => Err(stop),
        }
    } else if parts.len() == 3 {
        match operand(parts[0], env, answers, 0) {
            Ok((left, used)) => match operand(parts[2], env, answers, used) {
                Ok((right, then)) => match operator(parts[1]) {
                    Some(op) => combine(op, left, right, answers, then),
                    None => Err(Stop::Fail(msg_operator())),
                },
                Err(stop) => Err(stop),
            },
            Err(stop) => Err(stop),
        }
    } else {
        Err(Stop::Fail(msg_expression()))
    }
}

/// Whether an evaluation came out as its model says.
pub open spec fn agrees<T, V>(got: Result<T, Pause>, model: Result<V, Stop>, same: spec_fn(T, V) -> bool) -> bool {
    match (got, model) {
        (Ok(value), Ok(datum)) => same(value, datum),
        (Err(pause), Err(stop)) => pause@ == stop,
        _ => false,
    }
}

/// A text that begins with `head`, goes on with `word` and ends with `tail`.
pub fn line_about(head: &str, word: &Vec<char>, tail: &str) -> (line: String)
    ensures
        line@ == head@ + word@ + tail@,
{
    let mut line = String::from_str(head);
    append_chars(&mut line, word);
    line.append(tail);
    line
}

/// Settles what is known of an operand without the host.
pub fn known_operand(word: &Vec<char>, env: &Environment) -> (r: Option<Result<u64, Pause>>)
    ensures
        match (r, known(word@, env@)) {
            (Some(got), Some(model)) => agrees(got, model, |got: u64, model: u64| got == model),
            (None, None) => true,
            _ => false,
        },
{
    match read_truth(word) {
        Some(b) => Some(Ok(if b { ONE } else { ZERO })),
        None => match env.lookup(word) {
            Some(Value::Num(n)) => Some(Ok(*n)),
            Some(Value::Bool(b)) => Some(Ok(if *b { ONE } else { ZERO })),
            Some(Value::Str(_)) => Some(
                Err(
                    Pause::Fail(
                        String::from_str("[ERROR: InvalidValue]: Variable not found or invalid type"),
                    ),
                ),
            ),
            None => None,
        },
    }
}

/// Takes the number that the host has read `word` as.
pub fn read_number(word: &Vec<char>, answers: &Vec<Reply>, used: usize) -> (r: Result<
    (u64, usize),
    Option<Request>,
>)
    ensures
        match (r, read(word@, answers_of(answers@), used as int)) {
            (Ok(got), Ok(model)) => got.0 == model.0 && got.1 == model.1,
            (Err(Some(request)), Err(Some(need))) => request@ == need,
            (Err(None), Err(None)) => true,
            _ => false,
        },
{
    if used >= answers.len() {
        Err(Some(parse_request(word)))
    } else {
        match &answers[used] {
            Reply::Number(n) => Ok((*n, used + 1)),
            _ => Err(None),
        }
    }
}

/// Settles one operand of an operator.
pub fn evaluate_operand(word: &Vec<char>, env: &Environment, answers: &Vec<Reply>, used: usize) -> (r:
    Result<(u64, usize), Pause>)
    ensures
        agrees(
            r,
            operand(word@, env@, answers_of(answers@), used as int),
            |got: (u64, usize), model: (u64, int)| got.0 == model.0 && got.1 == model.1,
        ),
{
    match known_operand(word, env) {
        Some(Ok(n)) => Ok((n, used)),
        Some(Err(pause)) => Err(pause),
        None => match read_number(word, answers, used) {
            Ok(number) => Ok(number),
            Err(Some(request)) => Err(Pause::Ask(request)),
            Err(None) => Err(
                Pause::Fail(line_about("[ERROR: InvalidValue]: '", word, "' is an invalid number")),
            ),
        },
    }
}

/// Settles an expression of one part.
pub fn evaluate_alone(word: &Vec<char>, env: &Environment, answers: &Vec<Reply>) -> (r: Result<
    u64,
    Pause,
>)
    ensures
        agrees(r, alone(word@, env@, answers_of(answers@)), |got: u64, model: u64| got == model),
{
    match known_operand(word, env) {
        Some(result) => result,
        None => match read_number(word, answers, 0) {
            Ok((n, _)) => Ok(n),
            Err(Some(request)) => Err(Pause::Ask(request)),
            Err(None) => Err(
                Pause::Fail(String::from_str("[ERROR: InvalidValue]: Invalid number/expression")),
            ),
        },
    }
}

/// Settles what an operator gives on two numbers.
pub fn evaluate_operator(op: Operator, left: u64, right: u64, answers: &Vec<Reply>, used: usize) -> (r:
    Result<Value, Pause>)
    ensures
        agrees(
            r,
            combine(op, left, right, answers_of(answers@), used as int),
            |got: Value, model: Datum| got@ == model,
        ),
{
    if used >= answers.len() {
        Err(Pause::Ask(Request::Binary(op, left, right)))
    } else {
        match &answers[used] {
            Reply::Number(n) => if op.is_comparison() {
                Err(no_result())
            } else {
                Ok(Value::Num(*n))
            },
            Reply::Truth(b) => if op.is_comparison() {
                Ok(Value::Bool(*b))
            } else {
                Err(no_result())
            },
            _ => Err(no_result()),
        }
    }
}

/// The failure of a request that the host did not meet.
pub fn no_result() -> (r: Pause)
    ensures
        r@ == Stop::Fail(msg_no_result()),
{
    Pause::Fail(String::from_str("[ERROR: InvalidValue]: The operation has no result"))
}

/// Evaluates the expression `text`.
pub fn evaluate_expression(text: &Vec<char>, env: &Environment, answers: &Vec<Reply>) -> (r: Result<Value, Pause>)
    ensures
        agrees(
            r,
            expression(text@, env@, answers_of(answers@)),
            |got: Value, model: Datum| got@ == model,
        ),
{
    let parts = split_words(text);
    if parts.len() == 1 {
        match evaluate_alone(&parts[0], env, answers) {
            Ok(n) => Ok(Value::Num(n)),
            Err(pause) => Err(pause),
        }
    } else if parts.len() == 3 {
        match evaluate_operand(&parts[0], env, answers, 0) {
            Ok((left, used)) => match evaluate_operand(&parts[2], env, answers, used) {
                Ok((right, then)) => match read_operator(&parts[1]) {
                    Some(op) => evaluate_operator(op, left, right, answers, then),
                    None => Err(
                        Pause::Fail(
                            String::from_str("[ERROR: InvalidOperator]: Operator is not supported"),
                        ),
                    ),
                },
                Err(pause) => Err(pause),
            },
            Err(pause) => Err(pause),
        }
    } else {
        Err(
            Pause::Fail(
                String::from_str("[ERROR: InvalidExpression]: Expecting 'value operator value'"),
            ),
        )
    }
}

} // verus!
