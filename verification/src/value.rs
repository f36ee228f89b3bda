//! The closed set of values that flow through the dataflow graph.

use vstd::prelude::*;

use crate::selector::ExecutionEnvironment;

verus! {

/// A single payload of a node: the closed sum of everything a source can emit.
#[derive(Debug, PartialEq, Eq)]
pub enum Scalar {
    /// The unit payload of a pure trigger.
    Unit,
    /// One execution environment.
    Env(ExecutionEnvironment),
    /// An ordered list of available execution environments.
    Envs(Vec<ExecutionEnvironment>),
    /// A two-dimensional extent (width, height) in whole pixels.
    Dim(u32, u32),
}

/// A value carried by a node: either one scalar payload, or the combined
/// latest payloads of a merge-all node's upstreams, in declaration order.
/// Tuples are flat: a merge-all node combines scalar streams, and nesting is
/// rejected when the graph is built.
#[derive(Debug, PartialEq, Eq)]
pub enum Value {
    /// One scalar payload.
    Scalar(Scalar),
    /// The latest payloads of a merge-all node's upstreams.
    Tuple(Vec<Scalar>),
}

/// The static shape of a node's payload, fixed when the node is declared.
#[derive(Clone, Copy, Debug, PartialEq, Eq, Structural)]
pub enum Shape {
    /// The node carries single payloads.
    Scalar,
    /// The node carries merge-all combinations.
    Tuple,
}

/// The mathematical shape of a `Scalar`, with sequences in place of vectors.
pub enum ScalarV {
    /// The unit payload of a pure trigger.
    Unit,
    /// One execution environment.
    Env(ExecutionEnvironment),
    /// An ordered list of available execution environments.
    Envs(Seq<ExecutionEnvironment>),
    /// A two-dimensional extent (width, height) in whole pixels.
    Dim(u32, u32),
}

/// The mathematical shape of a `Value`.
pub enum ValueV {
    /// One scalar payload.
    Scalar(ScalarV),
    /// The latest payloads of a merge-all node's upstreams.
    Tuple(Seq<ScalarV>),
}

impl View for Scalar {
    type V = ScalarV;

    open spec fn view(&self) -> ScalarV {
        match *self {
            Scalar::Unit => ScalarV::Unit,
            Scalar::Env(e) => ScalarV::Env(e),
            Scalar::Envs(es) => ScalarV::Envs(es@),
            Scalar::Dim(x, y) => ScalarV::Dim(x, y),
        }
    }
}

impl View for Value {
    type V = ValueV;

    open spec fn view(&self) -> ValueV {
        match *self {
            Value::Scalar(s) => ValueV::Scalar(s@),
            Value::Tuple(vs) => ValueV::Tuple(Seq::new(vs@.len(), |i: int| vs@[i]@)),
        }
    }
}

/// The shape of a value.
pub open spec fn shape_of(v: ValueV) -> Shape {
    match v {
        ValueV::Scalar(_) => Shape::Scalar,
        ValueV::Tuple(_) => Shape::Tuple,
    }
}

impl Scalar {
    /// A deep copy, proved equal to the original in the view.
    pub fn duplicate(&self) -> (r: Scalar)
        ensures
            r@ == self@,
    {
        match self {
            Scalar::Unit => Scalar::Unit,
            Scalar::Env(e) => Scalar::Env(*e),
            Scalar::Envs(es) => {
                let mut out: Vec<ExecutionEnvironment> = Vec::new();
                let mut i: usize = 0;
                while i < es.len()
                    invariant
                        i <= es.len(),
                        out@ == es@.subrange(0, i as int),
                    decreases es.len() - i,
                {
                    out.push(es[i]);
                    proof {
                        assert(out@ =~= es@.subrange(0, i + 1 as int));
                    }
                    i = i + 1;
                }
                proof {
                    assert(out@ =~= es@);
                }
                Scalar::Envs(out)
            },
            Scalar::Dim(x, y) => Scalar::Dim(*x, *y),
        }
    }
}

impl Value {
    /// A deep copy, proved equal to the original in the view.
    pub fn duplicate(&self) -> (r: Value)
        ensures
            r@ == self@,
    {
        match self {
            Value::Scalar(s) => Value::Scalar(s.duplicate()),
            Value::Tuple(vs) => {
                let mut out: Vec<Scalar> = Vec::new();
                let mut i: usize = 0;
                while i < vs.len()
                    invariant
                        i <= vs.len(),
                        out@.len() == i,
                        forall|j: int| 0 <= j < i ==> out@[j]@ == vs@[j]@,
                    decreases vs.len() - i,
                {
                    let c = vs[i].duplicate();
                    out.push(c);
                    i = i + 1;
                }
                let r = Value::Tuple(out);
                proof {
                    assert(r@ matches ValueV::Tuple(s1) && self@ matches ValueV::Tuple(s2)
                        && s1 =~= s2);
                }
                r
            },
        }
    }
}

} // verus!
