//! The parser: consumes the token sequence, builds literal arrays from
//! bracket pairs, and partitions tokens into a value stack (literals, pushed
//! to the front in source order) and a function stack (operators).

use vstd::prelude::*;

use crate::lex::{Primitive, Token};
use crate::stack::Stack;
use crate::value::{ValModel, Value, lemma_seq_models_insert_front, lemma_seq_models_push, seq_models};

verus! {

/// A parse error: an unexpected closing bracket, or a primitive operator
/// inside a literal array. Parsing continues past either.
#[derive(Debug, Clone, Copy, PartialEq, Eq, Structural)]
pub enum ParseError {
    Unit,
}

/// Keeps a resumption index within `[lo, hi]`. Parsing always resumes past
/// what it consumed and never beyond the tokens, so on the indices that
/// actually arise this is the identity; it only makes the recursion's
/// progress evident.
pub open spec fn clip_index(k: int, lo: int, hi: int) -> int {
    if k < lo {
        lo
    } else if k > hi {
        hi
    } else {
        k
    }
}

/// Parses the contents of a bracketed array literal from token `i` on, with
/// the elements built so far in `elems` and `errs` errors so far: literals
/// and nested arrays become elements in encounter order; a primitive is a
/// parse error and is skipped; the matching `]` closes the array, and running
/// out of tokens closes it silently. Yields the elements, the index one past
/// the consumed tokens, and the error count.
pub open spec fn parse_array_from(toks: Seq<Token>, i: int, elems: Seq<ValModel>, errs: int) -> (
    Seq<ValModel>,
    int,
    int,
)
    decreases toks.len() - i,
{
    if i < 0 || i >= toks.len() {
        (elems, i, errs)
    } else {
        match toks[i] {
            Token::Lit(l) => parse_array_from(toks, i + 1, elems.push(ValModel::Atom(l@)), errs),
            Token::LBracket => {
                let (inner, k, e2) = parse_array_from(toks, i + 1, Seq::empty(), errs);
                let k2 = clip_index(k, i + 1, toks.len() as int);
                parse_array_from(toks, k2, elems.push(ValModel::Array(inner)), e2)
            }
            Token::RBracket => (elems, i + 1, errs),
            Token::Pri(_) => parse_array_from(toks, i + 1, elems, errs + 1),
        }
    }
}

/// An array parse resumes past the token it started at and never beyond the
/// tokens.
pub proof fn lemma_parse_array_range(toks: Seq<Token>, i: int, elems: Seq<ValModel>, errs: int)
    requires
        0 <= i <= toks.len(),
    ensures
        ({
            let (_, k, _) = parse_array_from(toks, i, elems, errs);
            &&& i <= k <= toks.len()
            &&& i < toks.len() ==> i + 1 <= k
        }),
    decreases toks.len() - i,
{
    if 0 <= i < toks.len() {
        match toks[i] {
            Token::Lit(l) => {
                lemma_parse_array_range(toks, i + 1, elems.push(ValModel::Atom(l@)), errs);
            }
            Token::LBracket => {
                let (inner, k, e2) = parse_array_from(toks, i + 1, Seq::empty(), errs);
                lemma_parse_array_range(toks, i + 1, Seq::empty(), errs);
                let k2 = clip_index(k, i + 1, toks.len() as int);
                lemma_parse_array_range(toks, k2, elems.push(ValModel::Array(inner)), e2);
            }
            Token::RBracket => {}
            Token::Pri(_) => {
                lemma_parse_array_range(toks, i + 1, elems, errs + 1);
            }
        }
    }
}

/// Parses the whole program from token `i` on, with the function stack,
/// value stack and error count built so far: a literal is pushed to the
/// front of the value stack, a primitive to the end of the function stack,
/// a `[` opens an array literal whose value is pushed to the front of the
/// value stack, and a stray `]` is a parse error that is otherwise skipped.
pub open spec fn parse_from(
    toks: Seq<Token>,
    i: int,
    fns: Seq<Primitive>,
    vals: Seq<ValModel>,
    errs: int,
) -> (Seq<Primitive>, Seq<ValModel>, int)
    decreases toks.len() - i,
{
    if i < 0 || i >= toks.len() {
        (fns, vals, errs)
    } else {
        match toks[i] {
            Token::Pri(p) => parse_from(toks, i + 1, fns.push(p), vals, errs),
            Token::Lit(l) => parse_from(toks, i + 1, fns, vals.insert(0, ValModel::Atom(l@)), errs),
            Token::RBracket => parse_from(toks, i + 1, fns, vals, errs + 1),
            Token::LBracket => {
                let (inner, k, e2) = parse_array_from(toks, i + 1, Seq::empty(), errs);
                let k2 = clip_index(k, i + 1, toks.len() as int);
                parse_from(toks, k2, fns, vals.insert(0, ValModel::Array(inner)), e2)
            }
        }
    }
}

/// The parser: a cursor over the tokens, the stack being built, and the
/// errors found so far.
pub struct Parse {
    pub toks: Vec<Token>,
    pub index: usize,
    pub stack: Stack,
    pub errors: Vec<ParseError>,
}

impl Parse {
    /// A fresh parser over `toks`, at the first token, with an empty stack
    /// and no errors.
    pub fn new(toks: Vec<Token>) -> (r: Parse)
        ensures
            r.toks@ == toks@,
            r.index == 0,
            r.stack.fn_stack@ == Seq::<Primitive>::empty(),
            r.stack.val_stack@ == Seq::<Value>::empty(),
            r.errors@ == Seq::<ParseError>::empty(),
    {
        Parse { toks, index: 0, stack: Stack::default(), errors: Vec::new() }
    }

    /// Advances past the current token and returns the one now under the
    /// cursor, if any.
    pub fn next_token(&mut self) -> (r: Option<Token>)
        requires
            old(self).index < usize::MAX,
        ensures
            final(self).index == old(self).index + 1,
            final(self).toks@ == old(self).toks@,
            final(self).stack == old(self).stack,
            final(self).errors@ == old(self).errors@,
            r == if old(self).index + 1 < old(self).toks@.len() {
                Some(old(self).toks@[old(self).index + 1])
            } else {
                None::<Token>
            },
    {
        self.index += 1;
        if self.index < self.toks.len() {
            Some(self.toks[self.index])
        } else {
            None
        }
    }

    /// Parses an array literal whose `[` has just been consumed, advancing
    /// the cursor past the array's tokens.
    pub fn parse_array(&mut self) -> (v: Value)
        requires
            old(self).index <= old(self).toks@.len(),
        ensures
            ({
                let (elems, k, e2) = parse_array_from(
                    old(self).toks@,
                    old(self).index as int,
                    Seq::empty(),
                    old(self).errors@.len() as int,
                );
                &&& v@ == ValModel::Array(elems)
                &&& final(self).index == k
                &&& final(self).errors@.len() == e2
                &&& final(self).toks@ == old(self).toks@
                &&& final(self).stack == old(self).stack
            }),
        decreases self.toks@.len() - self.index,
    {
        let mut arr: Vec<Value> = Vec::new();
        proof {
            assert(seq_models(arr@) =~= Seq::<ValModel>::empty());
        }
        loop
            invariant_except_break
                parse_array_from(
                    old(self).toks@,
                    old(self).index as int,
                    Seq::empty(),
                    old(self).errors@.len() as int,
                ) == parse_array_from(
                    self.toks@,
                    self.index as int,
                    seq_models(arr@),
                    self.errors@.len() as int,
                ),
            invariant
                self.index <= self.toks@.len(),
                old(self).index <= self.index,
                self.toks@ == old(self).toks@,
                self.stack == old(self).stack,
            ensures
                self.toks@ == old(self).toks@,
                self.stack == old(self).stack,
                ({
                    let (elems, k, e2) = parse_array_from(
                        old(self).toks@,
                        old(self).index as int,
                        Seq::empty(),
                        old(self).errors@.len() as int,
                    );
                    &&& elems == seq_models(arr@)
                    &&& k == self.index
                    &&& e2 == self.errors@.len()
                }),
            decreases self.toks@.len() - self.index,
        {
            if self.index >= self.toks.len() {
                break;
            }
            let tok = self.toks[self.index];
            match tok {
                Token::Lit(lit) => {
                    let v = Value::Atom(lit);
                    proof {
                        lemma_seq_models_push(arr@, v);
                    }
                    arr.push(v);
                    self.index += 1;
                }
                Token::LBracket => {
                    self.index += 1;
                    proof {
                        lemma_parse_array_range(
                            self.toks@,
                            self.index as int,
                            Seq::empty(),
                            self.errors@.len() as int,
                        );
                    }
                    let inner = self.parse_array();
                    proof {
                        lemma_seq_models_push(arr@, inner);
                    }
                    arr.push(inner);
                }
                Token::RBracket => {
                    self.index += 1;
                    break;
                }
                Token::Pri(_) => {
                    self.errors.push(ParseError::Unit);
                    self.index += 1;
                }
            }
        }
        Value::Array(arr)
    }

    /// Parses every token into the program stack, collecting parse errors
    /// rather than failing: the result is the best-effort stack together
    /// with the errors found.
    pub fn parse(self) -> (r: (Stack, Vec<ParseError>))
        ensures
            ({
                let (fns, vals, errs) = parse_from(
                    self.toks@,
                    self.index as int,
                    self.stack.fns(),
                    self.stack.vals(),
                    self.errors@.len() as int,
                );
                &&& r.0.fns() == fns
                &&& r.0.vals() == vals
                &&& r.1@.len() == errs
            }),
    {
        let mut p = self;
        while p.index < p.toks.len()
            invariant
                parse_from(
                    p.toks@,
                    p.index as int,
                    p.stack.fns(),
                    p.stack.vals(),
                    p.errors@.len() as int,
                ) == parse_from(
                    self.toks@,
                    self.index as int,
                    self.stack.fns(),
                    self.stack.vals(),
                    self.errors@.len() as int,
                ),
            decreases p.toks@.len() - p.index,
        {
            let tok = p.toks[p.index];
            match tok {
                Token::LBracket => {
                    p.index += 1;
                    proof {
                        lemma_parse_array_range(
                            p.toks@,
                            p.index as int,
                            Seq::empty(),
                            p.errors@.len() as int,
                        );
                    }
                    let val = p.parse_array();
                    proof {
                        lemma_seq_models_insert_front(p.stack.val_stack@, val);
                    }
                    p.stack.val_stack.insert(0, val);
                }
                Token::RBracket => {
                    p.errors.push(ParseError::Unit);
                    p.index += 1;
                }
                Token::Lit(lit) => {
                    let v = Value::Atom(lit);
                    proof {
                        lemma_seq_models_insert_front(p.stack.val_stack@, v);
                    }
                    p.stack.val_stack.insert(0, v);
                    p.index += 1;
                }
                Token::Pri(pri) => {
                    p.stack.fn_stack.push(pri);
                    p.index += 1;
                }
            }
        }
        (p.stack, p.errors)
    }
}

} // verus!
