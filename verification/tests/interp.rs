use stacklang::lex::{Lexer, Literal, Primitive, Token};
use stacklang::parse::Parse;
use stacklang::stack::{Stack, StackError};
use stacklang::value::{Value, ValueError};

fn atom(n: i64) -> Value {
    Value::Atom(Literal::Number(n))
}

fn arr(ns: &[i64]) -> Value {
    Value::Array(ns.iter().map(|&n| atom(n)).collect())
}

fn run_source(src: &str) -> Result<Vec<Value>, StackError> {
    let toks = Lexer::new(src).run();
    let (stack, _) = Parse::new(toks).parse();
    stack.run()
}

#[test]
fn parse_partitions_values_and_functions() {
    let toks = Lexer::new("2 3 +").run();
    let (stack, errors) = Parse::new(toks).parse();
    // Values are inserted at the front, so they end up in reverse source order.
    assert_eq!(stack.val_stack, vec![atom(3), atom(2)]);
    assert_eq!(stack.fn_stack, vec![Primitive::Add]);
    assert!(errors.is_empty());
}

#[test]
fn parse_builds_array_literals() {
    let toks = Lexer::new("[1 2 3]").run();
    let (stack, errors) = Parse::new(toks).parse();
    assert_eq!(stack.val_stack, vec![arr(&[1, 2, 3])]);
    assert!(stack.fn_stack.is_empty());
    assert!(errors.is_empty());
}

#[test]
fn parse_builds_nested_array_literals() {
    let toks = Lexer::new("[[1 2] 3]").run();
    let (stack, _) = Parse::new(toks).parse();
    assert_eq!(
        stack.val_stack,
        vec![Value::Array(vec![arr(&[1, 2]), atom(3)])]
    );
}

#[test]
fn parse_stray_closing_bracket_is_an_error_and_is_skipped() {
    let toks = Lexer::new("] 1").run();
    let (stack, errors) = Parse::new(toks).parse();
    assert_eq!(errors.len(), 1);
    assert_eq!(stack.val_stack, vec![atom(1)]);
}

#[test]
fn parse_primitive_inside_array_is_an_error_and_is_skipped() {
    let toks = Lexer::new("[1 + 2]").run();
    let (stack, errors) = Parse::new(toks).parse();
    assert_eq!(errors.len(), 1);
    assert_eq!(stack.val_stack, vec![arr(&[1, 2])]);
    assert!(stack.fn_stack.is_empty());
}

#[test]
fn parse_unterminated_array_closes_silently() {
    let toks = Lexer::new("[1 2").run();
    let (stack, errors) = Parse::new(toks).parse();
    assert!(errors.is_empty());
    assert_eq!(stack.val_stack, vec![arr(&[1, 2])]);
}

#[test]
fn next_token_advances_then_reads() {
    let toks = Lexer::new("12").run();
    let mut p = Parse::new(toks);
    assert_eq!(p.next_token(), Some(Token::Lit(Literal::Number(2))));
    assert_eq!(p.next_token(), None);
}

#[test]
fn stack_flip_swaps_the_top_two() {
    let mut st = Stack::default();
    st.val_stack = vec![atom(1), atom(2), atom(3)];
    assert_eq!(st.flip(), Ok(()));
    assert_eq!(st.val_stack, vec![atom(1), atom(3), atom(2)]);
}

#[test]
fn stack_duplicate_then_drop_restores_the_stack() {
    let mut st = Stack::default();
    st.val_stack = vec![atom(1), arr(&[2, 3])];
    let before = vec![atom(1), arr(&[2, 3])];
    assert_eq!(st.duplicate(), Ok(()));
    assert_eq!(
        st.val_stack,
        vec![atom(1), arr(&[2, 3]), arr(&[2, 3])]
    );
    assert_eq!(st.drop(), Ok(()));
    assert_eq!(st.val_stack, before);
}

#[test]
fn stack_operations_on_an_empty_stack_fail() {
    let mut st = Stack::default();
    assert_eq!(st.add(), Err(StackError::StackEmpty));
    assert_eq!(st.flip(), Err(StackError::StackEmpty));
    assert_eq!(st.duplicate(), Err(StackError::StackEmpty));
    assert_eq!(st.drop(), Err(StackError::StackEmpty));
    assert_eq!(st.select(), Err(StackError::StackEmpty));
    assert!(matches!(st.value_last(), Err(StackError::StackEmpty)));
    assert_eq!(st.value_pop(), Err(StackError::StackEmpty));
}

#[test]
fn stack_dyadic_with_one_operand_fails() {
    let mut st = Stack::default();
    st.val_stack = vec![atom(1)];
    assert_eq!(st.add(), Err(StackError::StackEmpty));
}

#[test]
fn stack_exec_dispatches() {
    let mut st = Stack::default();
    st.val_stack = vec![atom(2), atom(5)];
    assert_eq!(st.exec(Primitive::Sub), Ok(()));
    // a = 5 popped first, b = 2 popped second: the result is b - a.
    assert_eq!(st.val_stack, vec![atom(-3)]);
}

#[test]
fn scenario_two_plus_two() {
    let toks = Lexer::new("2 2 +").run();
    assert_eq!(
        toks,
        vec![
            Token::Lit(Literal::Number(2)),
            Token::Lit(Literal::Number(2)),
            Token::Pri(Primitive::Add),
        ]
    );
    let (stack, _) = Parse::new(toks).parse();
    assert_eq!(stack.val_stack, vec![atom(2), atom(2)]);
    assert_eq!(stack.fn_stack, vec![Primitive::Add]);
    assert_eq!(stack.run(), Ok(vec![atom(4)]));
}

#[test]
fn scenario_three_minus_one() {
    let toks = Lexer::new("3 1 -").run();
    assert_eq!(
        toks,
        vec![
            Token::Lit(Literal::Number(3)),
            Token::Lit(Literal::Number(1)),
            Token::Pri(Primitive::Sub),
        ]
    );
    // Front-insertion leaves [1, 3]; the evaluator pops a = 3, then b = 1,
    // and subtraction yields b - a: the pinned-down result is -2.
    assert_eq!(run_source("3 1 -"), Ok(vec![atom(-2)]));
}

#[test]
fn scenario_duplicate_array() {
    let result = run_source("[1 2 3] .").expect("evaluation succeeds");
    assert_eq!(result, vec![arr(&[1, 2, 3]), arr(&[1, 2, 3])]);
    assert_eq!(result[0], result[1]);
}

#[test]
fn scenario_duplicate_then_drop_is_identity() {
    // Primitives execute from the end of the function stack, so the source
    // reads right to left: duplicate first, then drop.
    assert_eq!(run_source("; . 5"), Ok(vec![atom(5)]));
    assert_eq!(run_source("; . [1 2]"), Ok(vec![arr(&[1, 2])]));
}

#[test]
fn run_shape_mismatch_aborts() {
    assert_eq!(
        run_source("[1 2] [1 2 3] +"),
        Err(StackError::Val(ValueError::ShapeMismatch))
    );
}

#[test]
fn run_missing_operand_aborts() {
    assert_eq!(run_source("+"), Err(StackError::StackEmpty));
    assert_eq!(run_source("1 +"), Err(StackError::StackEmpty));
}

#[test]
fn run_select_source() {
    // The selector is popped first, so it stands later in the source.
    assert_eq!(run_source("1 [4 5 6] \u{228F}"), Ok(vec![atom(5)]));
}

#[test]
fn run_broadcast_source() {
    assert_eq!(run_source("[1 2 3] 1 +"), Ok(vec![arr(&[2, 3, 4])]));
}

#[test]
fn run_empty_source_yields_an_empty_stack() {
    assert_eq!(run_source(""), Ok(vec![]));
}

#[test]
fn run_flip_source() {
    assert_eq!(run_source("1 2 :"), Ok(vec![atom(1), atom(2)]));
}

#[test]
fn run_comparison_source() {
    // "1 2 <" leaves [2, 1]; a = 1, b = 2; lt asks b < a: no.
    assert_eq!(run_source("1 2 <"), Ok(vec![atom(0)]));
    assert_eq!(run_source("1 2 >"), Ok(vec![atom(1)]));
}
