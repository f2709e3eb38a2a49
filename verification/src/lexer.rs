//! The scanner: source text in, tokens out.
//!
//! A token is a bare word, a quoted string that keeps its quotes, the sign
//! `=`, or an expression in angle brackets, kept whole with its brackets.

use vstd::prelude::*;
use crate::text::{is_whitespace, text_of, trim, trimmed, whitespace};

verus! {

/// What the scanner remembers between two characters.
pub struct Scanner {
    /// The tokens that are complete.
    pub tokens: Seq<Seq<char>>,
    /// The word or quoted string under way.
    pub word: Seq<char>,
    /// The bracketed expression under way, without its brackets.
    pub span: Seq<char>,
    /// Inside a quoted string.
    pub quoted: bool,
    /// Inside angle brackets.
    pub bracketed: bool,
    /// Inside a comment, which runs to the end of the line.
    pub comment: bool,
}

/// The token that a bracketed expression becomes: its text, trimmed, between
/// `<` and `>`.
pub open spec fn bracket(span: Seq<char>) -> Seq<char> {
    seq!['<'] + trim(span) + seq!['>']
}

impl Scanner {
    /// The scanner before the first character.
    pub open spec fn start() -> Scanner {
        Scanner {
            tokens: Seq::empty(),
            word: Seq::empty(),
            span: Seq::empty(),
            quoted: false,
            bracketed: false,
            comment: false,
        }
    }

    /// Ends the word under way, if there is one.
    pub open spec fn flush(self) -> Scanner {
        if self.word.len() > 0 {
            Scanner { tokens: self.tokens.push(self.word), word: Seq::empty(), ..self }
        } else {
            self
        }
    }

    /// Leaves the angle brackets; what stood between them, unless it is
    /// nothing, becomes a token.
    pub open spec fn close(self) -> Scanner {
        if self.span.len() > 0 {
            Scanner {
                tokens: self.tokens.push(bracket(self.span)),
                span: Seq::empty(),
                bracketed: false,
                ..self
            }
        } else {
            Scanner { bracketed: false, ..self }
        }
    }

    /// Takes a quote character: outside brackets it opens or closes a quoted
    /// string, inside them it is a character like any other.
    pub open spec fn quote(self) -> Scanner {
        if self.bracketed {
            Scanner { span: self.span.push('"'), ..self }
        } else if self.quoted {
            Scanner {
                tokens: self.tokens.push(self.word.push('"')),
                word: Seq::empty(),
                quoted: false,
                ..self
            }
        } else {
            Scanner { word: self.word.push('"'), quoted: true, ..self }
        }
    }

    /// The scanner after the character `c`.
    pub open spec fn advance(self, c: char) -> Scanner {
        if self.comment {
            Scanner { comment: c != '\n', ..self }
        } else if c == ';' {
            Scanner { comment: true, ..self }
        } else if c == '<' && !self.quoted {
            Scanner { bracketed: true, ..self.flush() }
        } else if c == '>' && !self.quoted && self.bracketed {
            self.close()
        } else if c == '"' {
            self.quote()
        } else if c == '=' && !self.quoted && !self.bracketed {
            Scanner { tokens: self.flush().tokens.push(seq!['=']), ..self.flush() }
        } else if is_whitespace(c) && !self.quoted && !self.bracketed {
            self.flush()
        } else if self.bracketed {
            Scanner { span: self.span.push(c), ..self }
        } else {
            Scanner { word: self.word.push(c), ..self }
        }
    }

    /// The tokens once the text has ended: a word under way is kept, and
    /// after it an expression whose closing bracket never came.
    pub open spec fn finish(self) -> Seq<Seq<char>> {
        if self.span.len() > 0 {
            self.flush().tokens.push(bracket(self.span))
        } else {
            self.flush().tokens
        }
    }
}

/// The scanner after all of `s`.
pub open spec fn scan(s: Seq<char>) -> Scanner
    decreases s.len(),
{
    if s.len() == 0 {
        Scanner::start()
    } else {
        scan(s.drop_last()).advance(s.last())
    }
}

/// The tokens of the source text `s`.
pub open spec fn lex(s: Seq<char>) -> Seq<Seq<char>> {
    scan(s).finish()
}

/// Whether none of `tokens` is empty.
pub open spec fn none_empty(tokens: Seq<Seq<char>>) -> bool {
    forall|i: int| 0 <= i < tokens.len() ==> (#[trigger] tokens[i]).len() > 0
}

/// No token is empty.
pub proof fn lemma_tokens_not_empty(s: Seq<char>)
    ensures
        none_empty(lex(s)),
{
    lemma_scanned_not_empty(s);
    let scanner = scan(s);
    assert(none_empty(scanner.flush().tokens));
}

proof fn lemma_scanned_not_empty(s: Seq<char>)
    ensures
        none_empty(scan(s).tokens),
    decreases s.len(),
{
    if s.len() > 0 {
        lemma_scanned_not_empty(s.drop_last());
        let before = scan(s.drop_last());
        assert(none_empty(before.flush().tokens));
        assert(none_empty(before.close().tokens));
        assert(none_empty(before.quote().tokens));
        assert(none_empty(before.flush().tokens.push(seq!['='])));
    }
}

/// What each of `tokens` holds.
pub open spec fn texts(tokens: Seq<Vec<char>>) -> Seq<Seq<char>> {
    Seq::new(tokens.len(), |i: int| tokens[i]@)
}

/// The texts of `strings`.
pub open spec fn string_texts(strings: Seq<String>) -> Seq<Seq<char>> {
    Seq::new(strings.len(), |i: int| strings[i]@)
}

/// The texts of tokens with one more are the texts with its text more.
pub proof fn lemma_texts_push(tokens: Seq<Vec<char>>, token: Vec<char>)
    ensures
        texts(tokens.push(token)) == texts(tokens).push(token@),
{
    assert(texts(tokens.push(token)) =~= texts(tokens).push(token@));
}

/// The token for the bracketed expression `span`.
fn bracketed(span: &Vec<char>) -> (r: Vec<char>)
    ensures
        r@ == bracket(span@),
{
    let inner = trimmed(span);
    let mut r: Vec<char> = Vec::new();
    r.push('<');
    let mut i: usize = 0;
    while i < inner.len()
        invariant
            i <= inner.len(),
            r@ == seq!['<'] + inner@.take(i as int),
        decreases inner.len() - i,
    {
        r.push(inner[i]);
        i += 1;
        assert(r@ =~= seq!['<'] + inner@.take(i as int));
    }
    r.push('>');
    assert(inner@.take(i as int) =~= inner@);
    assert(r@ =~= bracket(span@));
    r
}

/// Scans `code` into tokens, each a vector of characters.
pub fn scan_text(code: &str) -> (tokens: Vec<Vec<char>>)
    ensures
        texts(tokens@) == lex(code@),
{
    let mut tokens: Vec<Vec<char>> = Vec::new();
    let mut word: Vec<char> = Vec::new();
    let mut span: Vec<char> = Vec::new();
    let mut quoted = false;
    let mut in_brackets = false;
    let mut comment = false;
    proof {
        assert(texts(tokens@) =~= Seq::<Seq<char>>::empty());
        assert(code@.take(0) =~= Seq::<char>::empty());
    }
    for c in it: code.chars()
        invariant
            it.seq() == code@,
            scan(code@.take(it.index() as int)) == (Scanner {
                tokens: texts(tokens@),
                word: word@,
                span: span@,
                quoted: quoted,
                bracketed: in_brackets,
                comment: comment,
            }),
    {
        let ghost before = scan(code@.take(it.index() as int));
        proof {
            let next = code@.take(it.index() + 1);
            assert(next.drop_last() =~= code@.take(it.index() as int));
            assert(next.last() == c);
            assert(scan(next) == before.advance(c));
        }
        if comment {
            comment = c != '\n';
        } else if c == ';' {
            comment = true;
        } else if c == '<' && !quoted {
            if word.len() > 0 {
                proof {
                    lemma_texts_push(tokens@, word);
                }
                tokens.push(word);
                word = Vec::new();
            }
            in_brackets = true;
        } else if c == '>' && !quoted && in_brackets {
            if span.len() > 0 {
                let token = bracketed(&span);
                proof {
                    lemma_texts_push(tokens@, token);
                }
                tokens.push(token);
                span = Vec::new();
            }
            in_brackets = false;
        } else if c == '"' {
            if in_brackets {
                span.push(c);
            } else if quoted {
                word.push(c);
                proof {
                    lemma_texts_push(tokens@, word);
                }
                tokens.push(word);
                word = Vec::new();
                quoted = false;
            } else {
                word.push(c);
                quoted = true;
            }
        } else if c == '=' && !quoted && !in_brackets {
            if word.len() > 0 {
                proof {
                    lemma_texts_push(tokens@, word);
                }
                tokens.push(word);
                word = Vec::new();
            }
            let mut sign: Vec<char> = Vec::new();
            sign.push('=');
            proof {
                assert(sign@ =~= seq!['=']);
                lemma_texts_push(tokens@, sign);
            }
            tokens.push(sign);
        } else if whitespace(c) && !quoted && !in_brackets {
            if word.len() > 0 {
                proof {
                    lemma_texts_push(tokens@, word);
                }
                tokens.push(word);
                word = Vec::new();
            }
        } else if in_brackets {
            span.push(c);
        } else {
            word.push(c);
        }
    }
    proof {
        assert(code@.take(code@.len() as int) =~= code@);
    }
    if word.len() > 0 {
        proof {
            lemma_texts_push(tokens@, word);
        }
        tokens.push(word);
    }
    if span.len() > 0 {
        let token = bracketed(&span);
        proof {
            lemma_texts_push(tokens@, token);
        }
        tokens.push(token);
    }
    tokens
}

/// Scans source text into its tokens.
pub fn tokenize(code: &str) -> (tokens: Vec<String>)
    ensures
        string_texts(tokens@) == lex(code@),
{
    let scanned = scan_text(code);
    let mut tokens: Vec<String> = Vec::new();
    let mut i: usize = 0;
    while i < scanned.len()
        invariant
            i <= scanned.len(),
            tokens@.len() == i,
            forall|j: int| 0 <= j < i ==> (#[trigger] tokens@[j])@ == scanned@[j]@,
        decreases scanned.len() - i,
    {
        let token = text_of(&scanned[i]);
        tokens.push(token);
        i += 1;
    }
    assert(string_texts(tokens@) =~= texts(scanned@));
    tokens
}

} // verus!
