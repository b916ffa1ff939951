use stacklang::lex::{Lexer, Literal, Primitive, Token};

#[test]
fn lex_every_operator() {
    let toks = Lexer::new("+-:.[]><;\u{228F}").run();
    assert_eq!(
        toks,
        vec![
            Token::Pri(Primitive::Add),
            Token::Pri(Primitive::Sub),
            Token::Pri(Primitive::Flip),
            Token::Pri(Primitive::Duplicate),
            Token::LBracket,
            Token::RBracket,
            Token::Pri(Primitive::GreaterThan),
            Token::Pri(Primitive::LessThan),
            Token::Pri(Primitive::Drop),
            Token::Pri(Primitive::Select),
        ]
    );
}

#[test]
fn lex_digits_are_single_character() {
    let toks = Lexer::new("12").run();
    assert_eq!(
        toks,
        vec![
            Token::Lit(Literal::Number(1)),
            Token::Lit(Literal::Number(2)),
        ]
    );
}

#[test]
fn lex_skips_unrecognized_characters() {
    assert_eq!(Lexer::new("a b\nc\tz!?").run(), vec![]);
    let toks = Lexer::new("x1 y2").run();
    assert_eq!(
        toks,
        vec![
            Token::Lit(Literal::Number(1)),
            Token::Lit(Literal::Number(2)),
        ]
    );
}

#[test]
fn lex_never_yields_more_tokens_than_characters() {
    for src in ["", "2 2 +", "[1 2 3] .", "hello world", "0123456789"] {
        let n_chars = src.chars().count();
        let toks = Lexer::new(src).run();
        assert!(toks.len() <= n_chars);
    }
}

#[test]
fn lex_preserves_source_order() {
    let toks = Lexer::new("2 2 +").run();
    assert_eq!(
        toks,
        vec![
            Token::Lit(Literal::Number(2)),
            Token::Lit(Literal::Number(2)),
            Token::Pri(Primitive::Add),
        ]
    );
}

#[test]
fn lexer_peek_and_next() {
    let mut lx = Lexer::new("+-");
    assert_eq!(lx.peek_char(), Some('-'));
    assert_eq!(lx.next_char(), Some('+'));
    assert_eq!(lx.peek_char(), None);
    assert_eq!(lx.next_char(), Some('-'));
    assert_eq!(lx.next_char(), None);
}

#[test]
fn tokens_from_primitives_and_literals() {
    assert_eq!(Token::from(Primitive::Flip), Token::Pri(Primitive::Flip));
    assert_eq!(Token::from(Literal::Number(3)), Token::Lit(Literal::Number(3)));
}

#[test]
fn literal_as_number() {
    assert_eq!(Literal::Number(7).as_number(), Ok(7));
}

#[test]
fn literal_as_number_whole_clamps_negatives() {
    assert_eq!(Literal::Number(4).as_number_whole(), Ok(4));
    assert_eq!(Literal::Number(-3).as_number_whole(), Ok(0));
    assert_eq!(Literal::Number(0).as_number_whole(), Ok(0));
}

#[test]
fn literal_add_and_sub_conventions() {
    // `a` is the first-popped operand, `b` the second: sub yields b - a.
    let a = Literal::Number(1);
    let b = Literal::Number(3);
    assert_eq!(a.add(b), Ok(Literal::Number(4)));
    assert_eq!(a.sub(b), Ok(Literal::Number(2)));
    assert_eq!(b.sub(a), Ok(Literal::Number(-2)));
}

#[test]
fn literal_comparisons_yield_zero_or_one() {
    let a = Literal::Number(5);
    let b = Literal::Number(2);
    // lt asks whether b < a, gt whether b > a.
    assert_eq!(a.lt(b), Ok(Literal::Number(1)));
    assert_eq!(a.gt(b), Ok(Literal::Number(0)));
    assert_eq!(b.lt(a), Ok(Literal::Number(0)));
    assert_eq!(b.gt(a), Ok(Literal::Number(1)));
    assert_eq!(a.lt(a), Ok(Literal::Number(0)));
}

#[test]
fn literal_add_wraps_at_the_machine_limit() {
    let a = Literal::Number(i64::MAX);
    let b = Literal::Number(1);
    assert_eq!(a.add(b), Ok(Literal::Number(i64::MIN)));
}
