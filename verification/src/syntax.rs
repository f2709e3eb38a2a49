//! The surface of the language: its keywords and the shapes of its tokens.

use vstd::prelude::*;
use crate::text::{find, find_in, is_word, lemma_find_bounds, occurs_at, slice, chars_of};
use crate::host::Operator;

verus! {

/// Marks a program, as its first token, as one that announces its classes.
pub open spec fn kw_announce() -> Seq<char> {
    "CHIHUAHUA"@
}

/// Opens a declaration: `WA type name = value`.
pub open spec fn kw_declare() -> Seq<char> {
    "WA"@
}

/// Opens a reassignment: `CO name = value`.
pub open spec fn kw_reassign() -> Seq<char> {
    "CO"@
}

/// Opens a print statement: `BAU operand`.
pub open spec fn kw_print() -> Seq<char> {
    "BAU"@
}

/// Opens a counted loop: `PONDE name first..last { body }`.
pub open spec fn kw_loop() -> Seq<char> {
    "PONDE"@
}

/// Opens a conditional chain: `FUWA condition`.
pub open spec fn kw_if() -> Seq<char> {
    "FUWA"@
}

/// Goes on with a conditional chain: `FUWAMOCO condition`.
pub open spec fn kw_else_if() -> Seq<char> {
    "FUWAMOCO"@
}

/// The last branch of a conditional chain: `MOCO`.
pub open spec fn kw_else() -> Seq<char> {
    "MOCO"@
}

/// Opens a class: `PERO name`.
pub open spec fn kw_class() -> Seq<char> {
    "PERO"@
}

/// Closes a class: `PEROPERO`.
pub open spec fn kw_class_end() -> Seq<char> {
    "PEROPERO"@
}

/// Opens a loop that runs a number of times: `PON count body DE`.
pub open spec fn kw_times() -> Seq<char> {
    "PON"@
}

/// Closes the body of a loop that runs a number of times.
pub open spec fn kw_times_end() -> Seq<char> {
    "DE"@
}

/// Ends the program: `BAUBAU`.
pub open spec fn kw_end() -> Seq<char> {
    "BAUBAU"@
}

/// The type of text.
pub open spec fn ty_text() -> Seq<char> {
    "KIRA"@
}

/// The type of truth values.
pub open spec fn ty_bool() -> Seq<char> {
    "BAULEAN"@
}

/// The type of numbers.
pub open spec fn ty_number() -> Seq<char> {
    "MOE"@
}

/// The literal for true.
pub open spec fn lit_true() -> Seq<char> {
    "FLUFFY"@
}

/// The literal for false.
pub open spec fn lit_false() -> Seq<char> {
    "FUZZY"@
}

/// The sign between a name and its value.
pub open spec fn sign_assign() -> Seq<char> {
    "="@
}

/// Opens a loop body.
pub open spec fn brace_open() -> Seq<char> {
    "{"@
}

/// Closes the body of a loop over a range.
pub open spec fn brace_close() -> Seq<char> {
    "}"@
}

/// What separates the two bounds of a range.
pub open spec fn range_sign() -> Seq<char> {
    ".."@
}

/// The word that, in a bracketed expression inside a loop body, stands for
/// the number of the current pass.
pub open spec fn counter_word() -> Seq<char> {
    "counter"@
}

/// A quoted string: at least the two quotes.
pub open spec fn is_quoted(token: Seq<char>) -> bool {
    token.len() >= 2 && token[0] == '"' && token.last() == '"'
}

/// A bracketed expression: at least the two brackets.
pub open spec fn is_bracketed(token: Seq<char>) -> bool {
    token.len() >= 2 && token[0] == '<' && token.last() == '>'
}

/// What stands between the first and the last character of `token`.
pub open spec fn inner(token: Seq<char>) -> Seq<char> {
    token.subrange(1, token.len() - 1)
}

/// The truth value that `token` is the literal of.
pub open spec fn truth_literal(token: Seq<char>) -> Option<bool> {
    if token == lit_true() {
        Some(true)
    } else if token == lit_false() {
        Some(false)
    } else {
        None
    }
}

/// Whether `token` can be the name of a variable: not a string, not an
/// expression, not the sign `=` and not a literal.
pub open spec fn is_name(token: Seq<char>) -> bool {
    &&& token.len() > 0
    &&& token[0] != '"'
    &&& token[0] != '<'
    &&& token != sign_assign()
    &&& truth_literal(token) is None
}

/// The operator that `word` spells.
pub open spec fn operator(word: Seq<char>) -> Option<Operator> {
    if word == "+"@ {
        Some(Operator::Add)
    } else if word == "-"@ {
        Some(Operator::Sub)
    } else if word == "*"@ {
        Some(Operator::Mul)
    } else if word == "/"@ {
        Some(Operator::Div)
    } else if word == "%"@ {
        Some(Operator::Rem)
    } else if word == "=="@ {
        Some(Operator::Equal)
    } else if word == "!="@ {
        Some(Operator::Unequal)
    } else if word == ">"@ {
        Some(Operator::Greater)
    } else if word == "<"@ {
        Some(Operator::Less)
    } else if word == ">="@ {
        Some(Operator::AtLeast)
    } else if word == "<="@ {
        Some(Operator::AtMost)
    } else {
        None
    }
}

/// The two bounds of a range `first..last`: what stands before and after
/// the one `..` of the token. A token without `..`, or with more than one,
/// is no range.
pub open spec fn range_bounds(token: Seq<char>) -> Option<(Seq<char>, Seq<char>)> {
    match find(token, range_sign(), 0) {
        Some(at) => if find(token, range_sign(), at + 2) is None {
            Some((token.take(at), token.skip(at + 2)))
        } else {
            None
        },
        None => None,
    }
}

/// The index of the first token `marker` among the tokens from `from` up to
/// `limit`, or `limit` where there is none.
pub open spec fn closing(program: Seq<Seq<char>>, marker: Seq<char>, from: int, limit: int) -> int
    decreases limit - from,
{
    if from >= limit {
        limit
    } else if 0 <= from < program.len() && program[from] == marker {
        from
    } else {
        closing(program, marker, from + 1, limit)
    }
}

/// The closing token lies from `from` up to `limit`, and is `marker` where
/// it lies before `limit`.
pub proof fn lemma_closing_bounds(program: Seq<Seq<char>>, marker: Seq<char>, from: int, limit: int)
    requires
        from <= limit,
    ensures
        from <= closing(program, marker, from, limit) <= limit,
        closing(program, marker, from, limit) < limit ==> 0 <= closing(program, marker, from, limit)
            < program.len() && program[closing(program, marker, from, limit)] == marker,
    decreases limit - from,
{
    if from >= limit {
    } else if 0 <= from < program.len() && program[from] == marker {
    } else {
        lemma_closing_bounds(program, marker, from + 1, limit);
    }
}

/// Tells whether `token` is a quoted string.
pub fn quoted(token: &Vec<char>) -> (b: bool)
    ensures
        b == is_quoted(token@),
{
    token.len() >= 2 && token[0] == '"' && token[token.len() - 1] == '"'
}

/// Tells whether `token` is a bracketed expression.
pub fn bracketed(token: &Vec<char>) -> (b: bool)
    ensures
        b == is_bracketed(token@),
{
    token.len() >= 2 && token[0] == '<' && token[token.len() - 1] == '>'
}

/// `token` without its first and last character.
pub(crate) fn strip(token: &Vec<char>) -> (r: Vec<char>)
    requires
        token.len() >= 2,
    ensures
        r@ == inner(token@),
{
    slice(token, 1, token.len() - 1)
}

/// Reads `token` as a truth literal.
pub fn read_truth(token: &Vec<char>) -> (r: Option<bool>)
    ensures
        r == truth_literal(token@),
{
    if is_word(token, "FLUFFY") {
        Some(true)
    } else if is_word(token, "FUZZY") {
        Some(false)
    } else {
        None
    }
}

/// Tells whether `token` can name a variable.
pub fn nameable(token: &Vec<char>) -> (b: bool)
    ensures
        b == is_name(token@),
{
    token.len() > 0 && token[0] != '"' && token[0] != '<' && !is_word(token, "=") && read_truth(
        token,
    ).is_none()
}

/// Reads `word` as an operator.
pub fn read_operator(word: &Vec<char>) -> (r: Option<Operator>)
    ensures
        r == operator(word@),
{
    if is_word(word, "+") {
        Some(Operator::Add)
    } else if is_word(word, "-") {
        Some(Operator::Sub)
    } else if is_word(word, "*") {
        Some(Operator::Mul)
    } else if is_word(word, "/") {
        Some(Operator::Div)
    } else if is_word(word, "%") {
        Some(Operator::Rem)
    } else if is_word(word, "==") {
        Some(Operator::Equal)
    } else if is_word(word, "!=") {
        Some(Operator::Unequal)
    } else if is_word(word, ">") {
        Some(Operator::Greater)
    } else if is_word(word, "<") {
        Some(Operator::Less)
    } else if is_word(word, ">=") {
        Some(Operator::AtLeast)
    } else if is_word(word, "<=") {
        Some(Operator::AtMost)
    } else {
        None
    }
}

/// Splits the token of a range into its two bounds.
pub fn split_range(token: &Vec<char>) -> (r: Option<(Vec<char>, Vec<char>)>)
    ensures
        match (r, range_bounds(token@)) {
            (Some((first, last)), Some((a, b))) => first@ == a && last@ == b,
            (None, None) => true,
            _ => false,
        },
{
    let sign = chars_of("..");
    proof {
        reveal_strlit("..");
        lemma_find_bounds(token@, sign@, 0);
    }
    match find_in(token, &sign, 0) {
        Some(at) => {
            assert(occurs_at(token@, sign@, at as int));
            assert(at + 2 <= token.len());
            match find_in(token, &sign, at + 2) {
                Some(_) => None,
                None => {
                    let first = slice(token, 0, at);
                    let last = slice(token, at + 2, token.len());
                    Some((first, last))
                },
            }
        },
        None => None,
    }
}

/// Looks for the first token `marker` among the tokens from `from` up to
/// `limit`.
pub(crate) fn find_closing(program: &Vec<Vec<char>>, marker: &str, from: usize, limit: usize) -> (r: usize)
    requires
        limit <= program.len(),
    ensures
        r == closing(crate::lexer::texts(program@), marker@, from as int, limit as int),
{
    let mut i: usize = from;
    while i < limit
        invariant
            limit <= program.len(),
            from <= i,
            closing(crate::lexer::texts(program@), marker@, from as int, limit as int) == closing(
                crate::lexer::texts(program@),
                marker@,
                i as int,
                limit as int,
            ),
        decreases limit - i,
    {
        if is_word(&program[i], marker) {
            return i;
        }
        i += 1;
    }
    limit
}

} // verus!
