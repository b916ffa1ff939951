//! The runtime value model: scalar atoms and arbitrarily nested arrays,
//! together with the dyadic operations defined over them and their
//! broadcasting rules.

use vstd::prelude::*;

use crate::lex::{DyadicOp, Literal, LiteralError, index_of};

verus! {

broadcast use vstd::std_specs::vec::group_vec_axioms;

/// Mathematical model of a [`Value`]: a scalar number or a nested sequence.
#[verifier::ext_equal]
pub enum ValModel {
    Atom(i64),
    Array(Seq<ValModel>),
}

/// Mathematical model of a [`ValueError`].
#[verifier::ext_equal]
pub enum ValErrModel {
    Lit(LiteralError),
    ShapeMismatch,
    OutOfBounds(ValModel),
}

/// A runtime value: a scalar atom or an arbitrarily nested array of values.
#[derive(Debug, PartialEq)]
pub enum Value {
    Atom(Literal),
    Array(Vec<Value>),
}

/// An error of a value-level operation.
#[derive(Debug, Clone, PartialEq)]
pub enum ValueError {
    Lit(LiteralError),
    ShapeMismatch,
    OutOfBounds(Value),
}

/// The models of a sequence of values, in order.
pub open spec fn seq_models(s: Seq<Value>) -> Seq<ValModel>
    decreases s,
{
    Seq::new(
        s.len(),
        |i: int|
            if 0 <= i < s.len() {
                s[i]@
            } else {
                ValModel::Atom(0)
            },
    )
}

impl View for Value {
    type V = ValModel;

    open spec fn view(&self) -> ValModel
        decreases self,
    {
        match self {
            Value::Atom(l) => ValModel::Atom(l@),
            Value::Array(vs) => ValModel::Array(seq_models(vs@)),
        }
    }
}

impl DeepView for Value {
    type V = ValModel;

    open spec fn deep_view(&self) -> ValModel {
        self.view()
    }
}

impl View for ValueError {
    type V = ValErrModel;

    open spec fn view(&self) -> ValErrModel {
        match self {
            ValueError::Lit(e) => ValErrModel::Lit(*e),
            ValueError::ShapeMismatch => ValErrModel::ShapeMismatch,
            ValueError::OutOfBounds(v) => ValErrModel::OutOfBounds(v@),
        }
    }
}

/// The model of the outcome of a value-level operation.
pub open spec fn res_model(r: Result<Value, ValueError>) -> Result<ValModel, ValErrModel> {
    match r {
        Ok(v) => Ok(v@),
        Err(e) => Err(e@),
    }
}

/// Appending a value appends its model.
pub proof fn lemma_seq_models_push(s: Seq<Value>, v: Value)
    ensures
        seq_models(s.push(v)) == seq_models(s).push(v@),
{
    assert(seq_models(s.push(v)) =~= seq_models(s).push(v@));
}

/// Inserting a value at the front prepends its model.
pub proof fn lemma_seq_models_insert_front(s: Seq<Value>, v: Value)
    ensures
        seq_models(s.insert(0, v)) == seq_models(s).insert(0, v@),
{
    assert(seq_models(s.insert(0, v)) =~= seq_models(s).insert(0, v@));
}

/// Dropping the last value drops its model.
pub proof fn lemma_seq_models_drop_last(s: Seq<Value>)
    requires
        s.len() > 0,
    ensures
        seq_models(s.drop_last()) == seq_models(s).drop_last(),
{
    assert(seq_models(s.drop_last()) =~= seq_models(s).drop_last());
}

/// The result of applying `op` to two value models with broadcasting: atoms
/// combine directly; equal-length arrays combine elementwise, and unequal
/// lengths fail with `ShapeMismatch`; an atom broadcasts across every element
/// of an array, on either side, preserving the operand orientation. The first
/// failing element aborts the whole operation.
pub open spec fn sem_dyadic(op: DyadicOp, a: ValModel, b: ValModel) -> Result<ValModel, ValErrModel>
    decreases a, b, 0int,
{
    match (a, b) {
        (ValModel::Atom(x), ValModel::Atom(y)) => Ok(ValModel::Atom(op.eval(x, y))),
        (ValModel::Array(aa), ValModel::Array(bb)) => {
            if aa.len() == bb.len() {
                match sem_dyadic_elems(op, aa, bb, 0, Seq::empty()) {
                    Ok(s) => Ok(ValModel::Array(s)),
                    Err(e) => Err(e),
                }
            } else {
                Err(ValErrModel::ShapeMismatch)
            }
        }
        (ValModel::Atom(x), ValModel::Array(bb)) => {
            match sem_dyadic_bcast_left(op, ValModel::Atom(x), bb, 0, Seq::empty()) {
                Ok(s) => Ok(ValModel::Array(s)),
                Err(e) => Err(e),
            }
        }
        (ValModel::Array(aa), ValModel::Atom(y)) => {
            match sem_dyadic_bcast_right(op, aa, ValModel::Atom(y), 0, Seq::empty()) {
                Ok(s) => Ok(ValModel::Array(s)),
                Err(e) => Err(e),
            }
        }
    }
}

/// Elementwise application of `op` to equal-length arrays, from index `i` on,
/// with the elements produced so far in `acc`.
pub open spec fn sem_dyadic_elems(
    op: DyadicOp,
    aa: Seq<ValModel>,
    bb: Seq<ValModel>,
    i: int,
    acc: Seq<ValModel>,
) -> Result<Seq<ValModel>, ValErrModel>
    decreases aa, bb, aa.len() - i,
{
    if i < 0 || i >= aa.len() || i >= bb.len() {
        Ok(acc)
    } else {
        match sem_dyadic(op, aa[i], bb[i]) {
            Ok(v) => sem_dyadic_elems(op, aa, bb, i + 1, acc.push(v)),
            Err(e) => Err(e),
        }
    }
}

/// Broadcasts the atom `a` against every element of `bb` from index `i` on,
/// keeping `a` as the first operand.
pub open spec fn sem_dyadic_bcast_left(
    op: DyadicOp,
    a: ValModel,
    bb: Seq<ValModel>,
    i: int,
    acc: Seq<ValModel>,
) -> Result<Seq<ValModel>, ValErrModel>
    decreases a, bb, bb.len() - i,
{
    if i < 0 || i >= bb.len() {
        Ok(acc)
    } else {
        match sem_dyadic(op, a, bb[i]) {
            Ok(v) => sem_dyadic_bcast_left(op, a, bb, i + 1, acc.push(v)),
            Err(e) => Err(e),
        }
    }
}

/// Broadcasts the atom `b` against every element of `aa` from index `i` on,
/// keeping `b` as the second operand.
pub open spec fn sem_dyadic_bcast_right(
    op: DyadicOp,
    aa: Seq<ValModel>,
    b: ValModel,
    i: int,
    acc: Seq<ValModel>,
) -> Result<Seq<ValModel>, ValErrModel>
    decreases aa, b, aa.len() - i,
{
    if i < 0 || i >= aa.len() {
        Ok(acc)
    } else {
        match sem_dyadic(op, aa[i], b) {
            Ok(v) => sem_dyadic_bcast_right(op, aa, b, i + 1, acc.push(v)),
            Err(e) => Err(e),
        }
    }
}

/// The index atom carried by an out-of-bounds selection: the converted index
/// itself.
pub open spec fn index_atom(x: i64) -> i64 {
    index_of(x) as i64
}

/// The result of `select`: an atom indexes into an array (or, degenerately,
/// selects an atom when the index is zero), and an array of selectors maps
/// the selection over its elements against the same right-hand operand.
pub open spec fn sem_select(a: ValModel, b: ValModel) -> Result<ValModel, ValErrModel>
    decreases a, b, 0int,
{
    match (a, b) {
        (ValModel::Atom(x), ValModel::Atom(y)) => {
            if x == 0 {
                Ok(ValModel::Atom(y))
            } else {
                Err(ValErrModel::OutOfBounds(ValModel::Atom(x)))
            }
        }
        (ValModel::Atom(x), ValModel::Array(bb)) => {
            if index_of(x) < bb.len() {
                Ok(bb[index_of(x) as int])
            } else {
                Err(ValErrModel::OutOfBounds(ValModel::Atom(index_atom(x))))
            }
        }
        (ValModel::Array(aa), _) => {
            match sem_select_elems(aa, b, 0, Seq::empty()) {
                Ok(s) => Ok(ValModel::Array(s)),
                Err(e) => Err(e),
            }
        }
    }
}

/// Maps `select` over the elements of `aa` from index `i` on, against the
/// same right-hand operand `b`.
pub open spec fn sem_select_elems(
    aa: Seq<ValModel>,
    b: ValModel,
    i: int,
    acc: Seq<ValModel>,
) -> Result<Seq<ValModel>, ValErrModel>
    decreases aa, b, aa.len() - i,
{
    if i < 0 || i >= aa.len() {
        Ok(acc)
    } else {
        match sem_select(aa[i], b) {
            Ok(v) => sem_select_elems(aa, b, i + 1, acc.push(v)),
            Err(e) => Err(e),
        }
    }
}

/// Addition commutes on whole values: swapping the operands of `Add` gives
/// the same result, matched shapes combining elementwise and atoms
/// broadcasting from either side; even the failures agree.
pub proof fn lemma_add_commutative(a: ValModel, b: ValModel)
    ensures
        sem_dyadic(DyadicOp::Add, a, b) == sem_dyadic(DyadicOp::Add, b, a),
    decreases a, b, 0int,
{
    match (a, b) {
        (ValModel::Atom(x), ValModel::Atom(y)) => {
        }
        (ValModel::Array(aa), ValModel::Array(bb)) => {
            if aa.len() == bb.len() {
                lemma_add_comm_elems(aa, bb, 0, Seq::empty());
            }
        }
        (ValModel::Atom(x), ValModel::Array(bb)) => {
            lemma_add_comm_bcast_left(a, bb, 0, Seq::empty());
        }
        (ValModel::Array(aa), ValModel::Atom(y)) => {
            lemma_add_comm_bcast_right(aa, b, 0, Seq::empty());
        }
    }
}

/// Elementwise addition commutes, element by element.
proof fn lemma_add_comm_elems(aa: Seq<ValModel>, bb: Seq<ValModel>, i: int, acc: Seq<ValModel>)
    ensures
        sem_dyadic_elems(DyadicOp::Add, aa, bb, i, acc) == sem_dyadic_elems(
            DyadicOp::Add,
            bb,
            aa,
            i,
            acc,
        ),
    decreases aa, bb, aa.len() - i,
{
    if 0 <= i && i < aa.len() && i < bb.len() {
        lemma_add_commutative(aa[i], bb[i]);
        match sem_dyadic(DyadicOp::Add, aa[i], bb[i]) {
            Ok(v) => {
                lemma_add_comm_elems(aa, bb, i + 1, acc.push(v));
            }
            Err(_) => {
            }
        }
    }
}

/// Broadcasting an atom from the left equals broadcasting it from the right
/// with the operands swapped, under `Add`.
proof fn lemma_add_comm_bcast_left(a: ValModel, bb: Seq<ValModel>, i: int, acc: Seq<ValModel>)
    ensures
        sem_dyadic_bcast_left(DyadicOp::Add, a, bb, i, acc) == sem_dyadic_bcast_right(
            DyadicOp::Add,
            bb,
            a,
            i,
            acc,
        ),
    decreases a, bb, bb.len() - i,
{
    if 0 <= i && i < bb.len() {
        lemma_add_commutative(a, bb[i]);
        match sem_dyadic(DyadicOp::Add, a, bb[i]) {
            Ok(v) => {
                lemma_add_comm_bcast_left(a, bb, i + 1, acc.push(v));
            }
            Err(_) => {
            }
        }
    }
}

/// Broadcasting an atom from the right equals broadcasting it from the left
/// with the operands swapped, under `Add`.
proof fn lemma_add_comm_bcast_right(aa: Seq<ValModel>, b: ValModel, i: int, acc: Seq<ValModel>)
    ensures
        sem_dyadic_bcast_right(DyadicOp::Add, aa, b, i, acc) == sem_dyadic_bcast_left(
            DyadicOp::Add,
            b,
            aa,
            i,
            acc,
        ),
    decreases aa, b, aa.len() - i,
{
    if 0 <= i && i < aa.len() {
        lemma_add_commutative(aa[i], b);
        match sem_dyadic(DyadicOp::Add, aa[i], b) {
            Ok(v) => {
                lemma_add_comm_bcast_right(aa, b, i + 1, acc.push(v));
            }
            Err(_) => {
            }
        }
    }
}

/// Adding an atom to any value always succeeds, on either side: an atom
/// broadcasts across an array of any length and any nesting.
pub proof fn lemma_add_atom_total(x: i64, b: ValModel)
    ensures
        sem_dyadic(DyadicOp::Add, ValModel::Atom(x), b) is Ok,
        sem_dyadic(DyadicOp::Add, b, ValModel::Atom(x)) is Ok,
    decreases b, 0int,
{
    match b {
        ValModel::Atom(_) => {
        }
        ValModel::Array(bb) => {
            lemma_add_atom_total_elems(x, bb, 0, Seq::empty());
        }
    }
    lemma_add_commutative(ValModel::Atom(x), b);
}

/// Broadcasting an atom across elements never fails under `Add`.
proof fn lemma_add_atom_total_elems(x: i64, bb: Seq<ValModel>, i: int, acc: Seq<ValModel>)
    ensures
        sem_dyadic_bcast_left(DyadicOp::Add, ValModel::Atom(x), bb, i, acc) is Ok,
    decreases bb, bb.len() - i,
{
    if 0 <= i && i < bb.len() {
        lemma_add_atom_total(x, bb[i]);
        match sem_dyadic(DyadicOp::Add, ValModel::Atom(x), bb[i]) {
            Ok(v) => {
                lemma_add_atom_total_elems(x, bb, i + 1, acc.push(v));
            }
            Err(_) => {
            }
        }
    }
}

impl Clone for Value {
    /// A structural deep copy: the copy has the same model as the original.
    #[verifier::loop_isolation(false)]
    fn clone(&self) -> (r: Value)
        ensures
            r@ == self@,
        decreases self,
    {
        match self {
            Value::Atom(l) => Value::Atom(*l),
            Value::Array(vs) => {
                let mut out: Vec<Value> = Vec::new();
                let mut i: usize = 0;
                while i < vs.len()
                    invariant
                        i <= vs.len(),
                        out@.len() == i,
                        forall|j: int| 0 <= j < i ==> out@[j]@ == vs@[j]@,
                    decreases vs.len() - i,
                {
                    proof {
                        assert(decreases_to!((*self) => (*self)->Array_0));
                        assert(decreases_to!(*vs => vs@[i as int]));
                    }
                    out.push(vs[i].clone());
                    i += 1;
                }
                let r = Value::Array(out);
                proof {
                    assert(seq_models(out@) =~= seq_models(vs@));
                }
                r
            }
        }
    }
}

/// Applies `op` to two values by reference; `a` is the first-popped operand,
/// `b` the second-popped one.
#[verifier::loop_isolation(false)]
fn dyadic_ref(a: &Value, b: &Value, op: DyadicOp) -> (r: Result<Value, ValueError>)
    ensures
        res_model(r) == sem_dyadic(op, a@, b@),
    decreases *a, *b, 0int,
{
    match (a, b) {
        (Value::Atom(x), Value::Atom(y)) => {
            match x.dyadic_nums(*y, op) {
                Ok(l) => Ok(Value::Atom(l)),
                Err(e) => Err(ValueError::Lit(e)),
            }
        }
        (Value::Array(aa), Value::Array(bb)) => {
            if aa.len() == bb.len() {
                let ghost ma = seq_models(aa@);
                let ghost mb = seq_models(bb@);
                let mut out: Vec<Value> = Vec::new();
                let mut i: usize = 0;
                proof {
                    assert(seq_models(out@) =~= Seq::<ValModel>::empty());
                }
                while i < aa.len()
                    invariant
                        i <= aa.len(),
                        out@.len() == i,
                        sem_dyadic_elems(op, ma, mb, 0, Seq::empty())
                            == sem_dyadic_elems(op, ma, mb, i as int, seq_models(out@)),
                    decreases aa.len() - i,
                {
                    proof {
                        assert(decreases_to!((*a) => (*a)->Array_0));
                        assert(decreases_to!(*aa => aa@[i as int]));
                        assert(decreases_to!((*b) => (*b)->Array_0));
                        assert(decreases_to!(*bb => bb@[i as int]));
                    }
                    match dyadic_ref(&aa[i], &bb[i], op) {
                        Ok(v) => {
                            proof {
                                lemma_seq_models_push(out@, v);
                            }
                            out.push(v);
                        }
                        Err(e) => {
                            return Err(e);
                        }
                    }
                    i += 1;
                }
                Ok(Value::Array(out))
            } else {
                proof {
                    assert(seq_models(aa@).len() != seq_models(bb@).len());
                    assert(sem_dyadic(op, a@, b@) == Err::<ValModel, ValErrModel>(
                        ValErrModel::ShapeMismatch));
                }
                Err(ValueError::ShapeMismatch)
            }
        }
        (Value::Atom(_), Value::Array(bb)) => {
            let ghost mb = seq_models(bb@);
            let mut out: Vec<Value> = Vec::new();
            let mut i: usize = 0;
            proof {
                assert(seq_models(out@) =~= Seq::<ValModel>::empty());
            }
            while i < bb.len()
                invariant
                    i <= bb.len(),
                    out@.len() == i,
                    sem_dyadic_bcast_left(op, a@, mb, 0, Seq::empty())
                        == sem_dyadic_bcast_left(op, a@, mb, i as int, seq_models(out@)),
                decreases bb.len() - i,
            {
                proof {
                    assert(decreases_to!((*b) => (*b)->Array_0));
                    assert(decreases_to!(*bb => bb@[i as int]));
                }
                match dyadic_ref(a, &bb[i], op) {
                    Ok(v) => {
                        proof {
                            lemma_seq_models_push(out@, v);
                        }
                        out.push(v);
                    }
                    Err(e) => {
                        return Err(e);
                    }
                }
                i += 1;
            }
            Ok(Value::Array(out))
        }
        (Value::Array(aa), Value::Atom(_)) => {
            let ghost ma = seq_models(aa@);
            let mut out: Vec<Value> = Vec::new();
            let mut i: usize = 0;
            proof {
                assert(seq_models(out@) =~= Seq::<ValModel>::empty());
            }
            while i < aa.len()
                invariant
                    i <= aa.len(),
                    out@.len() == i,
                    sem_dyadic_bcast_right(op, ma, b@, 0, Seq::empty())
                        == sem_dyadic_bcast_right(op, ma, b@, i as int, seq_models(out@)),
                decreases aa.len() - i,
            {
                proof {
                    assert(decreases_to!((*a) => (*a)->Array_0));
                    assert(decreases_to!(*aa => aa@[i as int]));
                }
                match dyadic_ref(&aa[i], b, op) {
                    Ok(v) => {
                        proof {
                            lemma_seq_models_push(out@, v);
                        }
                        out.push(v);
                    }
                    Err(e) => {
                        return Err(e);
                    }
                }
                i += 1;
            }
            Ok(Value::Array(out))
        }
    }
}

/// Selects from `b` by the selector `a`, both by reference.
#[verifier::loop_isolation(false)]
fn select_ref(a: &Value, b: &Value) -> (r: Result<Value, ValueError>)
    ensures
        res_model(r) == sem_select(a@, b@),
    decreases *a, *b,
{
    match (a, b) {
        (Value::Atom(x), Value::Atom(y)) => {
            match x.as_number() {
                Ok(num) => {
                    if num == 0 {
                        proof {
                            assert(sem_select(a@, b@) == Ok::<ValModel, ValErrModel>(
                                ValModel::Atom(y@)));
                        }
                        Ok(Value::Atom(*y))
                    } else {
                        proof {
                            assert(sem_select(a@, b@) == Err::<ValModel, ValErrModel>(
                                ValErrModel::OutOfBounds(ValModel::Atom(num))));
                        }
                        Err(ValueError::OutOfBounds(Value::Atom(Literal::Number(num))))
                    }
                }
                Err(e) => Err(ValueError::Lit(e)),
            }
        }
        (Value::Atom(x), Value::Array(bb)) => {
            match x.as_number_whole() {
                Ok(i) => {
                    if i < bb.len() {
                        let r = bb[i].clone();
                        proof {
                            assert(sem_select(a@, b@) == Ok::<ValModel, ValErrModel>(
                                seq_models(bb@)[i as int]));
                        }
                        Ok(r)
                    } else {
                        proof {
                            assert(i <= i64::MAX);
                            assert(!(index_of(x@) < seq_models(bb@).len()));
                            assert(sem_select(a@, b@) == Err::<ValModel, ValErrModel>(
                                ValErrModel::OutOfBounds(ValModel::Atom(index_atom(x@)))));
                        }
                        Err(ValueError::OutOfBounds(Value::Atom(Literal::Number(i as i64))))
                    }
                }
                Err(e) => Err(ValueError::Lit(e)),
            }
        }
        (Value::Array(aa), _) => {
            let ghost ma = seq_models(aa@);
            let mut out: Vec<Value> = Vec::new();
            let mut i: usize = 0;
            proof {
                assert(seq_models(out@) =~= Seq::<ValModel>::empty());
            }
            while i < aa.len()
                invariant
                    i <= aa.len(),
                    out@.len() == i,
                    sem_select_elems(ma, b@, 0, Seq::empty())
                        == sem_select_elems(ma, b@, i as int, seq_models(out@)),
                decreases aa.len() - i,
            {
                proof {
                    assert(decreases_to!((*a) => (*a)->Array_0));
                    assert(decreases_to!(*aa => aa@[i as int]));
                }
                match select_ref(&aa[i], b) {
                    Ok(v) => {
                        proof {
                            lemma_seq_models_push(out@, v);
                        }
                        out.push(v);
                    }
                    Err(e) => {
                        proof {
                            assert(sem_select(a@, b@) == Err::<ValModel, ValErrModel>(e@));
                        }
                        return Err(e);
                    }
                }
                i += 1;
            }
            let r = Value::Array(out);
            proof {
                assert(sem_select(a@, b@) == Ok::<ValModel, ValErrModel>(
                    ValModel::Array(seq_models(out@))));
            }
            Ok(r)
        }
    }
}

impl Value {
    /// Applies `op` to two values with broadcasting; `self` is the
    /// first-popped operand `a`, `other` the second-popped operand `b`.
    pub fn dyadic_lits(self, other: Self, op: DyadicOp) -> (r: Result<Self, ValueError>)
        ensures
            res_model(r) == sem_dyadic(op, self@, other@),
    {
        dyadic_ref(&self, &other, op)
    }

    /// The broadcast sum of the two operands.
    pub fn add(self, other: Self) -> (r: Result<Self, ValueError>)
        ensures
            res_model(r) == sem_dyadic(DyadicOp::Add, self@, other@),
    {
        self.dyadic_lits(other, DyadicOp::Add)
    }

    /// The broadcast difference `other - self`.
    pub fn sub(self, other: Self) -> (r: Result<Self, ValueError>)
        ensures
            res_model(r) == sem_dyadic(DyadicOp::Sub, self@, other@),
    {
        self.dyadic_lits(other, DyadicOp::Sub)
    }

    /// The broadcast comparison `other < self`, as `1` or `0` per element.
    pub fn lt(self, other: Self) -> (r: Result<Self, ValueError>)
        ensures
            res_model(r) == sem_dyadic(DyadicOp::Lt, self@, other@),
    {
        self.dyadic_lits(other, DyadicOp::Lt)
    }

    /// The broadcast comparison `other > self`, as `1` or `0` per element.
    pub fn gt(self, other: Self) -> (r: Result<Self, ValueError>)
        ensures
            res_model(r) == sem_dyadic(DyadicOp::Gt, self@, other@),
    {
        self.dyadic_lits(other, DyadicOp::Gt)
    }

    /// Selects from `other` by the selector `self`.
    pub fn select(self, other: Self) -> (r: Result<Self, ValueError>)
        ensures
            res_model(r) == sem_select(self@, other@),
    {
        select_ref(&self, &other)
    }

    /// The literal of an atom; `None` for an array.
    pub fn as_atom(self) -> (r: Option<Literal>)
        ensures
            r == match self@ {
                ValModel::Atom(x) => Some(Literal::Number(x)),
                ValModel::Array(_) => None::<Literal>,
            },
    {
        match self {
            Value::Atom(lit) => Some(lit),
            Value::Array(_) => None,
        }
    }
}

} // verus!
