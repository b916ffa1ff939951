//! The stack evaluator: pops primitives off the function stack (last in,
//! first out) and executes each against the value stack.

use vstd::prelude::*;

use crate::lex::{DyadicOp, Primitive};
use crate::value::{
    ValErrModel, ValModel, Value, ValueError, lemma_seq_models_drop_last, lemma_seq_models_push,
    sem_dyadic, sem_select, seq_models,
};

verus! {

/// Mathematical model of a [`StackError`].
#[verifier::ext_equal]
pub enum StackErrModel {
    StackEmpty,
    Val(ValErrModel),
}

/// An error of stack evaluation.
#[derive(Debug, Clone, PartialEq)]
pub enum StackError {
    StackEmpty,
    Val(ValueError),
}

impl View for StackError {
    type V = StackErrModel;

    open spec fn view(&self) -> StackErrModel {
        match self {
            StackError::StackEmpty => StackErrModel::StackEmpty,
            StackError::Val(e) => StackErrModel::Val(e@),
        }
    }
}

/// The model of the outcome of one stack operation.
pub open spec fn status_model(r: Result<(), StackError>) -> Result<(), StackErrModel> {
    match r {
        Ok(_) => Ok(()),
        Err(e) => Err(e@),
    }
}

/// The program state: the pending primitives and the values they act on.
#[derive(Debug)]
pub struct Stack {
    pub fn_stack: Vec<Primitive>,
    pub val_stack: Vec<Value>,
}

impl Default for Stack {
    /// An empty program: no pending primitives, no values.
    fn default() -> (r: Self)
        ensures
            r.fn_stack@ == Seq::<Primitive>::empty(),
            r.val_stack@ == Seq::<Value>::empty(),
    {
        Stack { fn_stack: Vec::new(), val_stack: Vec::new() }
    }
}

impl Stack {
    /// The models of the values on the value stack, bottom first.
    pub open spec fn vals(self) -> Seq<ValModel> {
        seq_models(self.val_stack@)
    }

    /// The pending primitives; the one at the end executes first.
    pub open spec fn fns(self) -> Seq<Primitive> {
        self.fn_stack@
    }
}

/// The value stack after a dyadic primitive, with its outcome: the top two
/// values are popped (an absent operand fails with `StackEmpty`, after a lone
/// first operand has already been popped), `op` is applied with broadcasting,
/// and the result is pushed.
pub open spec fn step_dyadic(op: DyadicOp, vals: Seq<ValModel>) -> (Seq<ValModel>, Result<
    (),
    StackErrModel,
>) {
    if vals.len() == 0 {
        (vals, Err(StackErrModel::StackEmpty))
    } else if vals.len() == 1 {
        (vals.drop_last(), Err(StackErrModel::StackEmpty))
    } else {
        let a = vals[vals.len() - 1];
        let b = vals[vals.len() - 2];
        let rest = vals.take(vals.len() - 2);
        match sem_dyadic(op, a, b) {
            Ok(v) => (rest.push(v), Ok(())),
            Err(e) => (rest, Err(StackErrModel::Val(e))),
        }
    }
}

/// The value stack after the selection primitive, with its outcome, popping
/// operands exactly as `step_dyadic` does.
pub open spec fn step_select(vals: Seq<ValModel>) -> (Seq<ValModel>, Result<(), StackErrModel>) {
    if vals.len() == 0 {
        (vals, Err(StackErrModel::StackEmpty))
    } else if vals.len() == 1 {
        (vals.drop_last(), Err(StackErrModel::StackEmpty))
    } else {
        let a = vals[vals.len() - 1];
        let b = vals[vals.len() - 2];
        let rest = vals.take(vals.len() - 2);
        match sem_select(a, b) {
            Ok(v) => (rest.push(v), Ok(())),
            Err(e) => (rest, Err(StackErrModel::Val(e))),
        }
    }
}

/// The value stack after executing one primitive, with its outcome.
pub open spec fn exec_step(p: Primitive, vals: Seq<ValModel>) -> (Seq<ValModel>, Result<
    (),
    StackErrModel,
>) {
    match p {
        Primitive::Add => step_dyadic(DyadicOp::Add, vals),
        Primitive::Sub => step_dyadic(DyadicOp::Sub, vals),
        Primitive::LessThan => step_dyadic(DyadicOp::Lt, vals),
        Primitive::GreaterThan => step_dyadic(DyadicOp::Gt, vals),
        Primitive::Select => step_select(vals),
        Primitive::Flip => {
            if vals.len() == 0 {
                (vals, Err(StackErrModel::StackEmpty))
            } else if vals.len() == 1 {
                (vals.drop_last(), Err(StackErrModel::StackEmpty))
            } else {
                let a = vals[vals.len() - 1];
                let b = vals[vals.len() - 2];
                (vals.take(vals.len() - 2).push(a).push(b), Ok(()))
            }
        }
        Primitive::Duplicate => {
            if vals.len() == 0 {
                (vals, Err(StackErrModel::StackEmpty))
            } else {
                (vals.push(vals.last()), Ok(()))
            }
        }
        Primitive::Drop => {
            if vals.len() == 0 {
                (vals, Err(StackErrModel::StackEmpty))
            } else {
                (vals.drop_last(), Ok(()))
            }
        }
    }
}

/// The final value stack of a whole run: primitives execute from the end of
/// the function stack, one after the other; the first error aborts the run.
pub open spec fn run_spec(fns: Seq<Primitive>, vals: Seq<ValModel>) -> Result<
    Seq<ValModel>,
    StackErrModel,
>
    decreases fns.len(),
{
    if fns.len() == 0 {
        Ok(vals)
    } else {
        let (vals2, r) = exec_step(fns.last(), vals);
        match r {
            Ok(_) => run_spec(fns.drop_last(), vals2),
            Err(e) => Err(e),
        }
    }
}

impl Stack {
    /// A reference to the top value, or `StackEmpty`.
    pub fn value_last(&self) -> (r: Result<&Value, StackError>)
        ensures
            self.val_stack@.len() > 0 ==> (r matches Ok(v) && *v == self.val_stack@.last()),
            self.val_stack@.len() == 0 ==> (r matches Err(e) && e == StackError::StackEmpty),
    {
        if self.val_stack.len() > 0 {
            Ok(&self.val_stack[self.val_stack.len() - 1])
        } else {
            Err(StackError::StackEmpty)
        }
    }

    /// Pops the top value, or fails with `StackEmpty` leaving the stack
    /// unchanged.
    pub fn value_pop(&mut self) -> (r: Result<Value, StackError>)
        ensures
            old(self).val_stack@.len() > 0 ==> {
                &&& r matches Ok(v) && v == old(self).val_stack@.last()
                &&& final(self).val_stack@ == old(self).val_stack@.drop_last()
            },
            old(self).val_stack@.len() == 0 ==> {
                &&& r matches Err(e) && e == StackError::StackEmpty
                &&& final(self).val_stack@ == old(self).val_stack@
            },
            final(self).fn_stack@ == old(self).fn_stack@,
    {
        match self.val_stack.pop() {
            Some(v) => Ok(v),
            None => Err(StackError::StackEmpty),
        }
    }

    /// Pops the operands `a` then `b`, applies `op` with broadcasting, and
    /// pushes the result.
    pub fn dyadic(&mut self, op: DyadicOp) -> (r: Result<(), StackError>)
        ensures
            ({
                let (nv, sr) = step_dyadic(op, old(self).vals());
                &&& final(self).vals() == nv
                &&& final(self).fn_stack@ == old(self).fn_stack@
                &&& status_model(r) == sr
            }),
    {
        proof {
            if old(self).val_stack@.len() > 0 {
                lemma_seq_models_drop_last(old(self).val_stack@);
            }
        }
        let a = match self.value_pop() {
            Ok(v) => v,
            Err(e) => {
                return Err(e);
            }
        };
        proof {
            if self.val_stack@.len() > 0 {
                lemma_seq_models_drop_last(self.val_stack@);
            }
        }
        let b = match self.value_pop() {
            Ok(v) => v,
            Err(e) => {
                proof {
                    assert(self.vals() =~= old(self).vals().drop_last());
                }
                return Err(e);
            }
        };
        proof {
            assert(self.vals() =~= old(self).vals().take(old(self).vals().len() - 2));
            assert(a@ == old(self).vals()[old(self).vals().len() - 1]);
            assert(b@ == old(self).vals()[old(self).vals().len() - 2]);
        }
        match a.dyadic_lits(b, op) {
            Ok(v) => {
                proof {
                    lemma_seq_models_push(self.val_stack@, v);
                }
                self.val_stack.push(v);
                Ok(())
            }
            Err(e) => Err(StackError::Val(e)),
        }
    }

    /// Pops `a` then `b` and pushes their broadcast sum.
    pub fn add(&mut self) -> (r: Result<(), StackError>)
        ensures
            ({
                let (nv, sr) = step_dyadic(DyadicOp::Add, old(self).vals());
                &&& final(self).vals() == nv
                &&& final(self).fn_stack@ == old(self).fn_stack@
                &&& status_model(r) == sr
            }),
    {
        self.dyadic(DyadicOp::Add)
    }

    /// Pops `a` then `b` and pushes the broadcast difference `b - a`.
    pub fn sub(&mut self) -> (r: Result<(), StackError>)
        ensures
            ({
                let (nv, sr) = step_dyadic(DyadicOp::Sub, old(self).vals());
                &&& final(self).vals() == nv
                &&& final(self).fn_stack@ == old(self).fn_stack@
                &&& status_model(r) == sr
            }),
    {
        self.dyadic(DyadicOp::Sub)
    }

    /// Pops `a` then `b` and pushes `1` where `b < a`, else `0`.
    pub fn lt(&mut self) -> (r: Result<(), StackError>)
        ensures
            ({
                let (nv, sr) = step_dyadic(DyadicOp::Lt, old(self).vals());
                &&& final(self).vals() == nv
                &&& final(self).fn_stack@ == old(self).fn_stack@
                &&& status_model(r) == sr
            }),
    {
        self.dyadic(DyadicOp::Lt)
    }

    /// Pops `a` then `b` and pushes `1` where `b > a`, else `0`.
    pub fn gt(&mut self) -> (r: Result<(), StackError>)
        ensures
            ({
                let (nv, sr) = step_dyadic(DyadicOp::Gt, old(self).vals());
                &&& final(self).vals() == nv
                &&& final(self).fn_stack@ == old(self).fn_stack@
                &&& status_model(r) == sr
            }),
    {
        self.dyadic(DyadicOp::Gt)
    }

    /// Pops the top two values and pushes them back swapped.
    pub fn flip(&mut self) -> (r: Result<(), StackError>)
        ensures
            ({
                let (nv, sr) = exec_step(Primitive::Flip, old(self).vals());
                &&& final(self).vals() == nv
                &&& final(self).fn_stack@ == old(self).fn_stack@
                &&& status_model(r) == sr
            }),
    {
        proof {
            if old(self).val_stack@.len() > 0 {
                lemma_seq_models_drop_last(old(self).val_stack@);
            }
        }
        let a = match self.value_pop() {
            Ok(v) => v,
            Err(e) => {
                return Err(e);
            }
        };
        proof {
            if self.val_stack@.len() > 0 {
                lemma_seq_models_drop_last(self.val_stack@);
            }
        }
        let b = match self.value_pop() {
            Ok(v) => v,
            Err(e) => {
                proof {
                    assert(self.vals() =~= old(self).vals().drop_last());
                }
                return Err(e);
            }
        };
        proof {
            lemma_seq_models_push(self.val_stack@, a);
        }
        self.val_stack.push(a);
        proof {
            lemma_seq_models_push(self.val_stack@, b);
        }
        self.val_stack.push(b);
        proof {
            assert(self.vals() =~= old(self).vals().take(old(self).vals().len() - 2).push(
                old(self).vals()[old(self).vals().len() - 1],
            ).push(old(self).vals()[old(self).vals().len() - 2]));
        }
        Ok(())
    }

    /// Clones the top value and pushes the copy.
    pub fn duplicate(&mut self) -> (r: Result<(), StackError>)
        ensures
            ({
                let (nv, sr) = exec_step(Primitive::Duplicate, old(self).vals());
                &&& final(self).vals() == nv
                &&& final(self).fn_stack@ == old(self).fn_stack@
                &&& status_model(r) == sr
            }),
    {
        let new = match self.value_last() {
            Ok(v) => v.clone(),
            Err(e) => {
                return Err(e);
            }
        };
        proof {
            lemma_seq_models_push(self.val_stack@, new);
            assert(new@ == old(self).vals().last());
        }
        self.val_stack.push(new);
        Ok(())
    }

    /// Pops and discards the top value.
    pub fn drop(&mut self) -> (r: Result<(), StackError>)
        ensures
            ({
                let (nv, sr) = exec_step(Primitive::Drop, old(self).vals());
                &&& final(self).vals() == nv
                &&& final(self).fn_stack@ == old(self).fn_stack@
                &&& status_model(r) == sr
            }),
    {
        proof {
            if old(self).val_stack@.len() > 0 {
                lemma_seq_models_drop_last(old(self).val_stack@);
            }
        }
        match self.value_pop() {
            Ok(_) => Ok(()),
            Err(e) => Err(e),
        }
    }

    /// Pops the selector `a` and the subject `b` and pushes the selection.
    pub fn select(&mut self) -> (r: Result<(), StackError>)
        ensures
            ({
                let (nv, sr) = step_select(old(self).vals());
                &&& final(self).vals() == nv
                &&& final(self).fn_stack@ == old(self).fn_stack@
                &&& status_model(r) == sr
            }),
    {
        proof {
            if old(self).val_stack@.len() > 0 {
                lemma_seq_models_drop_last(old(self).val_stack@);
            }
        }
        let a = match self.value_pop() {
            Ok(v) => v,
            Err(e) => {
                return Err(e);
            }
        };
        proof {
            if self.val_stack@.len() > 0 {
                lemma_seq_models_drop_last(self.val_stack@);
            }
        }
        let b = match self.value_pop() {
            Ok(v) => v,
            Err(e) => {
                proof {
                    assert(self.vals() =~= old(self).vals().drop_last());
                }
                return Err(e);
            }
        };
        proof {
            assert(self.vals() =~= old(self).vals().take(old(self).vals().len() - 2));
            assert(a@ == old(self).vals()[old(self).vals().len() - 1]);
            assert(b@ == old(self).vals()[old(self).vals().len() - 2]);
        }
        match a.select(b) {
            Ok(v) => {
                proof {
                    lemma_seq_models_push(self.val_stack@, v);
                }
                self.val_stack.push(v);
                Ok(())
            }
            Err(e) => Err(StackError::Val(e)),
        }
    }

    /// Executes one primitive against the value stack.
    pub fn exec(&mut self, f: Primitive) -> (r: Result<(), StackError>)
        ensures
            ({
                let (nv, sr) = exec_step(f, old(self).vals());
                &&& final(self).vals() == nv
                &&& final(self).fn_stack@ == old(self).fn_stack@
                &&& status_model(r) == sr
            }),
    {
        match f {
            Primitive::Add => self.add(),
            Primitive::Sub => self.sub(),
            Primitive::Flip => self.flip(),
            Primitive::Duplicate => self.duplicate(),
            Primitive::GreaterThan => self.gt(),
            Primitive::LessThan => self.lt(),
            Primitive::Drop => self.drop(),
            Primitive::Select => self.select(),
        }
    }

    /// Executes pending primitives from the end of the function stack until
    /// it is empty, returning the final value stack, or stops at the first
    /// error.
    pub fn run(self) -> (r: Result<Vec<Value>, StackError>)
        ensures
            ({
                let rr = run_spec(self.fns(), self.vals());
                match r {
                    Ok(vs) => rr == Ok::<Seq<ValModel>, StackErrModel>(seq_models(vs@)),
                    Err(e) => rr == Err::<Seq<ValModel>, StackErrModel>(e@),
                }
            }),
    {
        let mut st = self;
        loop
            invariant
                run_spec(st.fns(), st.vals()) == run_spec(self.fns(), self.vals()),
            ensures
                st.fn_stack@.len() == 0,
                run_spec(st.fns(), st.vals()) == run_spec(self.fns(), self.vals()),
            decreases st.fn_stack@.len(),
        {
            let f = match st.fn_stack.pop() {
                Some(f) => f,
                None => {
                    break;
                }
            };
            match st.exec(f) {
                Ok(_) => {}
                Err(e) => {
                    return Err(e);
                }
            }
        }
        Ok(st.val_stack)
    }
}

/// Duplicating the top value and immediately dropping it restores the value
/// stack exactly, and neither step can fail on a non-empty stack.
pub proof fn lemma_duplicate_then_drop(vals: Seq<ValModel>)
    requires
        vals.len() > 0,
    ensures
        ({
            let (v1, r1) = exec_step(Primitive::Duplicate, vals);
            let (v2, r2) = exec_step(Primitive::Drop, v1);
            &&& r1 == Ok::<(), StackErrModel>(())
            &&& r2 == Ok::<(), StackErrModel>(())
            &&& v2 == vals
        }),
{
    let (v1, r1) = exec_step(Primitive::Duplicate, vals);
    assert(v1.drop_last() =~= vals);
}

} // verus!
