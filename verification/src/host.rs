//! What the machine asks of its host, and what the host answers.
//!
//! The library holds numbers as bit patterns and cannot compute on them. Where
//! a program needs a number read, combined, compared, converted or written
//! out, the machine stops with a request; the host does the work and hands
//! the machine its reply.

use vstd::prelude::*;
use crate::text::text_of;

verus! {

/// The operators of an expression: five that give a number, six that give a
/// truth value.
#[derive(Clone, Copy, Debug, PartialEq, Eq, Structural)]
pub enum Operator {
    Add,
    Sub,
    Mul,
    Div,
    Rem,
    Equal,
    Unequal,
    Greater,
    Less,
    AtLeast,
    AtMost,
}

impl Operator {
    /// Whether the operator compares, and so gives a truth value.
    pub open spec fn compares(self) -> bool {
        !(self is Add || self is Sub || self is Mul || self is Div || self is Rem)
    }

    /// Tells whether the operator compares.
    pub fn is_comparison(self) -> (b: bool)
        ensures
            b == self.compares(),
    {
        match self {
            Operator::Add | Operator::Sub | Operator::Mul | Operator::Div | Operator::Rem => false,
            _ => true,
        }
    }
}

/// What the machine needs before it can go on.
#[derive(Clone, Debug, PartialEq)]
pub enum Request {
    /// Nothing: the program has run to its end.
    Done,
    /// The number that this text denotes. Reply: `Number`, or `Invalid` where
    /// the text denotes none.
    Parse(String),
    /// The result of the operator on two numbers. Reply: `Number` for
    /// arithmetic, `Truth` for a comparison.
    Binary(Operator, u64, u64),
    /// The number written out. Reply: `Text`.
    Render(u64),
    /// The number cut to an integer. Reply: `Integer`.
    Truncate(u64),
    /// The integer as a number. Reply: `Number`.
    Widen(i64),
}

/// The model of a request.
pub enum Need {
    Done,
    Parse(Seq<char>),
    Binary(Operator, u64, u64),
    Render(u64),
    Truncate(u64),
    Widen(int),
}

impl View for Request {
    type V = Need;

    open spec fn view(&self) -> Need {
        match self {
            Request::Done => Need::Done,
            Request::Parse(text) => Need::Parse(text@),
            Request::Binary(op, left, right) => Need::Binary(*op, *left, *right),
            Request::Render(bits) => Need::Render(*bits),
            Request::Truncate(bits) => Need::Truncate(*bits),
            Request::Widen(n) => Need::Widen(*n as int),
        }
    }
}

/// What the host hands back.
#[derive(Clone, Debug, PartialEq)]
pub enum Reply {
    Number(u64),
    Truth(bool),
    Text(String),
    Integer(i64),
    /// The request could not be met.
    Invalid,
}

/// The model of a reply.
pub enum Answer {
    Number(u64),
    Truth(bool),
    Text(Seq<char>),
    Integer(int),
    Invalid,
}

impl View for Reply {
    type V = Answer;

    open spec fn view(&self) -> Answer {
        match self {
            Reply::Number(bits) => Answer::Number(*bits),
            Reply::Truth(b) => Answer::Truth(*b),
            Reply::Text(text) => Answer::Text(text@),
            Reply::Integer(n) => Answer::Integer(*n as int),
            Reply::Invalid => Answer::Invalid,
        }
    }
}

/// The models of `replies`.
pub open spec fn answers_of(replies: Seq<Reply>) -> Seq<Answer> {
    Seq::new(replies.len(), |i: int| replies[i]@)
}

/// The request for the number that `text` denotes.
pub fn parse_request(text: &Vec<char>) -> (r: Request)
    ensures
        r@ == Need::Parse(text@),
{
    Request::Parse(text_of(text))
}

} // verus!
