use stacklang::lex::{DyadicOp, Literal};
use stacklang::value::{Value, ValueError};

fn atom(n: i64) -> Value {
    Value::Atom(Literal::Number(n))
}

fn arr(ns: &[i64]) -> Value {
    Value::Array(ns.iter().map(|&n| atom(n)).collect())
}

#[test]
fn add_atoms() {
    assert_eq!(atom(2).add(atom(2)), Ok(atom(4)));
}

#[test]
fn add_equal_length_arrays_elementwise() {
    assert_eq!(arr(&[1, 2]).add(arr(&[10, 20])), Ok(arr(&[11, 22])));
}

#[test]
fn add_mismatched_lengths_fails() {
    assert_eq!(
        arr(&[1, 2]).add(arr(&[1, 2, 3])),
        Err(ValueError::ShapeMismatch)
    );
    assert_eq!(
        arr(&[1, 2, 3]).add(arr(&[1, 2])),
        Err(ValueError::ShapeMismatch)
    );
}

#[test]
fn add_broadcasts_an_atom_on_either_side() {
    assert_eq!(atom(10).add(arr(&[1, 2, 3])), Ok(arr(&[11, 12, 13])));
    assert_eq!(arr(&[1, 2, 3]).add(atom(10)), Ok(arr(&[11, 12, 13])));
    assert_eq!(atom(1).add(arr(&[])), Ok(arr(&[])));
}

#[test]
fn add_commutes_on_matched_shapes() {
    let pairs: [(Value, Value); 3] = [
        (atom(3), atom(9)),
        (arr(&[1, 2]), arr(&[5, 6])),
        (atom(4), arr(&[7, 8])),
    ];
    for (a, b) in pairs {
        assert_eq!(a.clone().add(b.clone()), b.add(a));
    }
}

#[test]
fn sub_broadcast_preserves_operand_orientation() {
    // The second-popped operand is the minuend: sub(a, b) = b - a, per element.
    assert_eq!(atom(1).sub(arr(&[5, 7])), Ok(arr(&[4, 6])));
    assert_eq!(arr(&[5, 7]).sub(atom(1)), Ok(arr(&[-4, -6])));
}

#[test]
fn lt_and_gt_on_arrays() {
    // lt(a, b) asks b < a elementwise.
    assert_eq!(atom(5).lt(arr(&[3, 5, 9])), Ok(arr(&[1, 0, 0])));
    assert_eq!(atom(5).gt(arr(&[3, 5, 9])), Ok(arr(&[0, 0, 1])));
}

#[test]
fn dyadic_lits_nested_broadcast() {
    let nested = Value::Array(vec![arr(&[1, 2]), atom(3)]);
    let expect = Value::Array(vec![arr(&[11, 12]), atom(13)]);
    assert_eq!(nested.dyadic_lits(atom(10), DyadicOp::Add), Ok(expect));
}

#[test]
fn select_atom_from_array() {
    assert_eq!(atom(1).select(arr(&[4, 5])), Ok(atom(5)));
    assert_eq!(atom(0).select(arr(&[4, 5])), Ok(atom(4)));
}

#[test]
fn select_out_of_bounds_carries_the_index() {
    assert_eq!(
        atom(2).select(arr(&[4, 5])),
        Err(ValueError::OutOfBounds(atom(2)))
    );
    assert_eq!(
        atom(7).select(arr(&[])),
        Err(ValueError::OutOfBounds(atom(7)))
    );
}

#[test]
fn select_negative_index_clamps_to_zero() {
    assert_eq!(atom(-3).select(arr(&[4, 5])), Ok(atom(4)));
}

#[test]
fn select_atom_from_atom_only_at_zero() {
    assert_eq!(atom(0).select(atom(9)), Ok(atom(9)));
    assert_eq!(
        atom(3).select(atom(9)),
        Err(ValueError::OutOfBounds(atom(3)))
    );
}

#[test]
fn select_maps_an_array_of_selectors() {
    assert_eq!(
        arr(&[1, 0, 1]).select(arr(&[4, 5])),
        Ok(arr(&[5, 4, 5]))
    );
}

#[test]
fn select_propagates_the_first_failure() {
    assert_eq!(
        arr(&[0, 9]).select(arr(&[4, 5])),
        Err(ValueError::OutOfBounds(atom(9)))
    );
}

#[test]
fn as_atom_distinguishes_atoms_from_arrays() {
    assert_eq!(atom(6).as_atom(), Some(Literal::Number(6)));
    assert_eq!(arr(&[1]).as_atom(), None);
}

#[test]
fn clone_is_structural() {
    let v = Value::Array(vec![arr(&[1, 2]), atom(3), Value::Array(vec![])]);
    assert_eq!(v.clone(), v);
}
