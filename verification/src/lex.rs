//! The lexer: scans raw source characters into a flat token sequence, plus
//! the scalar literal type and its arithmetic.

use vstd::prelude::*;

verus! {

/// An executable operator of the language, each a pure transformation on the
/// value stack.
#[derive(Debug, Clone, Copy, PartialEq, Eq, Structural)]
pub enum Primitive {
    Add,
    Sub,
    Flip,
    Duplicate,
    Drop,
    LessThan,
    GreaterThan,
    Select,
}

/// Error conditions of literal-level operations.
///
/// Only `Number` literals exist today, so `Unit` and `NotNumber` are latent:
/// the variant space is reserved for future literal kinds. `ExpectedWhole` is
/// likewise latent while every representable number is whole.
#[derive(Debug, Clone, Copy, PartialEq, Eq, Structural)]
pub enum LiteralError {
    Unit,
    NotNumber,
    ExpectedWhole,
}

/// A scalar literal: a whole number.
#[derive(Debug, Clone, Copy, PartialEq, Eq, Structural)]
pub enum Literal {
    Number(i64),
}

impl View for Literal {
    type V = i64;

    open spec fn view(&self) -> i64 {
        match self {
            Literal::Number(n) => *n,
        }
    }
}

/// Selects which dyadic arithmetic a literal operation applies, given the
/// first-popped operand `a` and the second-popped operand `b`.
#[derive(Debug, Clone, Copy, PartialEq, Eq, Structural)]
pub enum DyadicOp {
    Add,
    Sub,
    Lt,
    Gt,
}

impl DyadicOp {
    /// The number the operation yields. The stack convention puts the
    /// second-popped operand `b` on the left: `Sub` is `b - a`, and the
    /// comparisons ask how `b` relates to `a`, yielding `1` or `0`.
    pub open spec fn eval(self, a: i64, b: i64) -> i64 {
        match self {
            DyadicOp::Add => vstd::wrapping::i64_specs::wrapping_add(a, b),
            DyadicOp::Sub => vstd::wrapping::i64_specs::wrapping_sub(b, a),
            DyadicOp::Lt => if b < a { 1 } else { 0 },
            DyadicOp::Gt => if b > a { 1 } else { 0 },
        }
    }
}

/// The index a scalar converts to: negative numbers clamp to zero and numbers
/// beyond the machine's range clamp to the largest index.
pub open spec fn index_of(n: i64) -> usize {
    if n < 0 {
        0usize
    } else if n > usize::MAX {
        usize::MAX
    } else {
        n as usize
    }
}

impl Literal {
    /// The scalar as a plain number.
    pub fn as_number(self) -> (r: Result<i64, LiteralError>)
        ensures
            r == Ok::<i64, LiteralError>(self@),
    {
        match self {
            Literal::Number(n) => Ok(n),
        }
    }

    /// The scalar as an unsigned index, clamped as `index_of` says.
    pub fn as_number_whole(self) -> (r: Result<usize, LiteralError>)
        ensures
            r == Ok::<usize, LiteralError>(index_of(self@)),
    {
        match self {
            Literal::Number(n) => {
                if n < 0 {
                    Ok(0)
                } else if (n as u64) > (usize::MAX as u64) {
                    Ok(usize::MAX)
                } else {
                    Ok(n as usize)
                }
            }
        }
    }

    /// Applies a dyadic operation to two numeric literals; `self` is the
    /// first-popped operand `a`, `other` the second-popped operand `b`.
    pub fn dyadic_nums(self, other: Self, op: DyadicOp) -> (r: Result<Self, LiteralError>)
        ensures
            r == Ok::<Literal, LiteralError>(Literal::Number(op.eval(self@, other@))),
    {
        match (self, other) {
            (Literal::Number(a), Literal::Number(b)) => {
                let n: i64 = match op {
                    DyadicOp::Add => a.wrapping_add(b),
                    DyadicOp::Sub => b.wrapping_sub(a),
                    DyadicOp::Lt => if b < a { 1 } else { 0 },
                    DyadicOp::Gt => if b > a { 1 } else { 0 },
                };
                Ok(Literal::Number(n))
            }
        }
    }

    /// The sum of the two operands.
    pub fn add(self, other: Self) -> (r: Result<Self, LiteralError>)
        ensures
            r == Ok::<Literal, LiteralError>(Literal::Number(DyadicOp::Add.eval(self@, other@))),
    {
        self.dyadic_nums(other, DyadicOp::Add)
    }

    /// The second-popped operand minus the first: `other - self`.
    pub fn sub(self, other: Self) -> (r: Result<Self, LiteralError>)
        ensures
            r == Ok::<Literal, LiteralError>(Literal::Number(DyadicOp::Sub.eval(self@, other@))),
    {
        self.dyadic_nums(other, DyadicOp::Sub)
    }

    /// `1` when `other < self`, else `0`.
    pub fn lt(self, other: Self) -> (r: Result<Self, LiteralError>)
        ensures
            r == Ok::<Literal, LiteralError>(Literal::Number(DyadicOp::Lt.eval(self@, other@))),
    {
        self.dyadic_nums(other, DyadicOp::Lt)
    }

    /// `1` when `other > self`, else `0`.
    pub fn gt(self, other: Self) -> (r: Result<Self, LiteralError>)
        ensures
            r == Ok::<Literal, LiteralError>(Literal::Number(DyadicOp::Gt.eval(self@, other@))),
    {
        self.dyadic_nums(other, DyadicOp::Gt)
    }
}

/// A lexical token: a primitive operator, a literal, or a bracket delimiter.
#[derive(Debug, Clone, Copy, PartialEq, Eq, Structural)]
pub enum Token {
    Pri(Primitive),
    Lit(Literal),
    LBracket,
    RBracket,
}

impl From<Primitive> for Token {
    /// Wraps a primitive operator as a token.
    fn from(p: Primitive) -> (r: Token)
        ensures
            r == Token::Pri(p),
    {
        Token::Pri(p)
    }
}

impl vstd::std_specs::convert::FromSpecImpl<Primitive> for Token {
    open spec fn obeys_from_spec() -> bool {
        true
    }

    open spec fn from_spec(p: Primitive) -> Token {
        Token::Pri(p)
    }
}

impl From<Literal> for Token {
    /// Wraps a literal as a token.
    fn from(l: Literal) -> (r: Token)
        ensures
            r == Token::Lit(l),
    {
        Token::Lit(l)
    }
}

impl vstd::std_specs::convert::FromSpecImpl<Literal> for Token {
    open spec fn obeys_from_spec() -> bool {
        true
    }

    open spec fn from_spec(l: Literal) -> Token {
        Token::Lit(l)
    }
}

/// The fixed character-to-token table. Unrecognized characters (whitespace
/// among them) yield no token.
pub open spec fn token_of_char(c: char) -> Option<Token> {
    if c == '+' {
        Some(Token::Pri(Primitive::Add))
    } else if c == '-' {
        Some(Token::Pri(Primitive::Sub))
    } else if c == ':' {
        Some(Token::Pri(Primitive::Flip))
    } else if c == '.' {
        Some(Token::Pri(Primitive::Duplicate))
    } else if c == '[' {
        Some(Token::LBracket)
    } else if c == ']' {
        Some(Token::RBracket)
    } else if c == '>' {
        Some(Token::Pri(Primitive::GreaterThan))
    } else if c == '<' {
        Some(Token::Pri(Primitive::LessThan))
    } else if c == ';' {
        Some(Token::Pri(Primitive::Drop))
    } else if c == '\u{228F}' {
        Some(Token::Pri(Primitive::Select))
    } else if '0' <= c && c <= '9' {
        Some(Token::Lit(Literal::Number(((c as int) - ('0' as int)) as i64)))
    } else {
        None
    }
}

/// The tokens of the source characters from position `i` on, appended to the
/// tokens accumulated so far.
pub open spec fn lex_from(s: Seq<char>, i: int, acc: Seq<Token>) -> Seq<Token>
    decreases s.len() - i,
{
    if i < 0 || i >= s.len() {
        acc
    } else {
        match token_of_char(s[i]) {
            Some(t) => lex_from(s, i + 1, acc.push(t)),
            None => lex_from(s, i + 1, acc),
        }
    }
}

/// The token sequence of a whole source text.
pub open spec fn lex_chars(s: Seq<char>) -> Seq<Token> {
    lex_from(s, 0, Seq::empty())
}

/// The lexer: a cursor over the source characters and the tokens produced
/// so far.
#[derive(Debug)]
pub struct Lexer<'a> {
    pub src: &'a str,
    pub pos: usize,
    pub tokens: Vec<Token>,
}

impl<'a> Lexer<'a> {
    /// A fresh lexer at the start of `src` with no tokens yet.
    pub fn new(src: &'a str) -> (r: Self)
        ensures
            r.src@ == src@,
            r.pos == 0,
            r.tokens@ == Seq::<Token>::empty(),
    {
        Lexer { src, pos: 0, tokens: Vec::new() }
    }

    /// The character one past the cursor, if any; the cursor does not move.
    pub fn peek_char(&self) -> (r: Option<char>)
        ensures
            r == if self.pos + 1 < self.src@.len() {
                Some(self.src@[self.pos + 1])
            } else {
                None::<char>
            },
    {
        let n = self.src.unicode_len();
        if self.pos < n && n - self.pos > 1 {
            Some(self.src.get_char(self.pos + 1))
        } else {
            None
        }
    }

    /// The character under the cursor, advancing past it; `None` at the end
    /// of the source.
    pub fn next_char(&mut self) -> (r: Option<char>)
        ensures
            old(self).pos < old(self).src@.len() ==> {
                &&& r == Some(old(self).src@[old(self).pos as int])
                &&& final(self).pos == old(self).pos + 1
            },
            old(self).pos >= old(self).src@.len() ==> {
                &&& r == None::<char>
                &&& final(self).pos == old(self).pos
            },
            final(self).src@ == old(self).src@,
            final(self).tokens@ == old(self).tokens@,
    {
        if self.pos < self.src.unicode_len() {
            let c = self.src.get_char(self.pos);
            self.pos += 1;
            Some(c)
        } else {
            None
        }
    }

    /// Appends one token to the accumulated sequence.
    pub fn add_token(&mut self, tok: Token)
        ensures
            final(self).tokens@ == old(self).tokens@.push(tok),
            final(self).src@ == old(self).src@,
            final(self).pos == old(self).pos,
    {
        self.tokens.push(tok);
    }

    /// Scans the rest of the source and returns every token in source order,
    /// per the fixed character-to-token table.
    pub fn run(self) -> (r: Vec<Token>)
        ensures
            r@ == lex_from(self.src@, self.pos as int, self.tokens@),
    {
        let mut lexer = self;
        loop
            invariant
                lex_from(lexer.src@, lexer.pos as int, lexer.tokens@)
                    == lex_from(self.src@, self.pos as int, self.tokens@),
            ensures
                lexer.pos >= lexer.src@.len(),
                lex_from(lexer.src@, lexer.pos as int, lexer.tokens@)
                    == lex_from(self.src@, self.pos as int, self.tokens@),
            decreases lexer.src@.len() - lexer.pos,
        {
            let c = match lexer.next_char() {
                Some(c) => c,
                None => { break; },
            };
            match c {
                '+' => lexer.add_token(Token::Pri(Primitive::Add)),
                '-' => lexer.add_token(Token::Pri(Primitive::Sub)),
                ':' => lexer.add_token(Token::Pri(Primitive::Flip)),
                '.' => lexer.add_token(Token::Pri(Primitive::Duplicate)),
                '[' => lexer.add_token(Token::LBracket),
                ']' => lexer.add_token(Token::RBracket),
                '>' => lexer.add_token(Token::Pri(Primitive::GreaterThan)),
                '<' => lexer.add_token(Token::Pri(Primitive::LessThan)),
                ';' => lexer.add_token(Token::Pri(Primitive::Drop)),
                '\u{228F}' => lexer.add_token(Token::Pri(Primitive::Select)),
                _ => {
                    if '0' <= c && c <= '9' {
                        lexer.add_token(Token::Lit(Literal::Number((c as i64) - ('0' as i64))));
                    }
                },
            }
        }
        lexer.tokens
    }
}

/// Lexing is total and order-preserving: a source never yields more tokens
/// than it has characters, and each character contributes at most the one
/// token of the fixed table, in source order.
pub proof fn lemma_lex_len(s: Seq<char>)
    ensures
        lex_chars(s).len() <= s.len(),
{
    lemma_lex_from_len(s, 0, Seq::empty());
}

/// Tokens already produced pass through unchanged: the rest of the scan only
/// appends.
proof fn lemma_lex_from_acc(s: Seq<char>, i: int, acc: Seq<Token>)
    ensures
        lex_from(s, i, acc) == acc + lex_from(s, i, Seq::empty()),
    decreases s.len() - i,
{
    if i < 0 || i >= s.len() {
        assert(acc + Seq::<Token>::empty() =~= acc);
    } else {
        match token_of_char(s[i]) {
            Some(t) => {
                lemma_lex_from_acc(s, i + 1, acc.push(t));
                lemma_lex_from_acc(s, i + 1, Seq::empty().push(t));
                assert(acc.push(t) + lex_from(s, i + 1, Seq::empty()) =~= acc + (
                Seq::empty().push(t) + lex_from(s, i + 1, Seq::empty())));
            }
            None => {
                lemma_lex_from_acc(s, i + 1, acc);
            }
        }
    }
}

/// Scanning from position `i` is scanning the source with its first
/// character removed, one position earlier.
proof fn lemma_lex_shift(s: Seq<char>, i: int, acc: Seq<Token>)
    requires
        1 <= i,
        1 <= s.len(),
    ensures
        lex_from(s, i, acc) == lex_from(s.drop_first(), i - 1, acc),
    decreases s.len() - i,
{
    if i < s.len() {
        assert(s.drop_first()[i - 1] == s[i]);
        match token_of_char(s[i]) {
            Some(t) => {
                lemma_lex_shift(s, i + 1, acc.push(t));
            }
            None => {
                lemma_lex_shift(s, i + 1, acc);
            }
        }
    }
}

/// Re-scanning character by character matches the fixed table: the first
/// character contributes exactly its table entry (nothing, for an
/// unrecognized character), and the rest of the tokens are the rest of the
/// source's, in order.
pub proof fn lemma_lex_step(s: Seq<char>)
    requires
        s.len() > 0,
    ensures
        lex_chars(s) == match token_of_char(s[0]) {
            Some(t) => seq![t] + lex_chars(s.drop_first()),
            None => lex_chars(s.drop_first()),
        },
{
    match token_of_char(s[0]) {
        Some(t) => {
            lemma_lex_shift(s, 1, Seq::empty().push(t));
            lemma_lex_from_acc(s.drop_first(), 0, Seq::empty().push(t));
            assert(Seq::empty().push(t) =~= seq![t]);
        }
        None => {
            lemma_lex_shift(s, 1, Seq::empty());
        }
    }
}

/// From position `i` on, at most one token is produced per remaining
/// character.
proof fn lemma_lex_from_len(s: Seq<char>, i: int, acc: Seq<Token>)
    requires
        0 <= i <= s.len(),
    ensures
        lex_from(s, i, acc).len() <= acc.len() + s.len() - i,
    decreases s.len() - i,
{
    if i < s.len() {
        match token_of_char(s[i]) {
            Some(t) => lemma_lex_from_len(s, i + 1, acc.push(t)),
            None => lemma_lex_from_len(s, i + 1, acc),
        }
    }
}

} // verus!
