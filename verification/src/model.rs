//! The RESP value: the tagged union shared by the decoder, the encoder and
//! the command dispatcher, together with its mathematical model.

use vstd::prelude::*;

verus! {

/// A RESP wire value. Order of `Array` elements is significant: a top-level
/// array is read positionally as `[command, arg1, arg2, ...]`.
#[derive(PartialEq, Eq, Debug)]
pub enum RespValue {
    /// Non-binary short status text; wire prefix `+`.
    SimpleString(String),
    /// A signed 64-bit integer; wire prefix `:`.
    Integer(i64),
    /// Same framing as `BulkString` but not guaranteed to be valid text.
    BinaryBulkString(Vec<u8>),
    /// Length-prefixed string; wire prefix `$`.
    BulkString(String),
    /// An error message; wire prefix `-`.
    Error(String),
    /// The absent bulk value; canonical wire form `$-1\r\n`.
    Null,
    /// The absent array; canonical wire form `*-1\r\n`.
    NullArray,
    /// An ordered sequence of values; wire prefix `*`.
    Array(Vec<RespValue>),
}

/// The mathematical model of a [`RespValue`]: text as `Seq<char>`, bytes as
/// `Seq<u8>`, arrays as `Seq` of models. Contracts throughout the crate are
/// stated over this type.
pub enum ValueModel {
    SimpleString(Seq<char>),
    Integer(int),
    BinaryBulkString(Seq<u8>),
    BulkString(Seq<char>),
    Error(Seq<char>),
    Null,
    NullArray,
    Array(Seq<ValueModel>),
}

/// The models of the first `n` elements of `vs`, in order.
pub open spec fn models_of_prefix(vs: Vec<RespValue>, n: int) -> Seq<ValueModel>
    decreases vs, n,
{
    if n <= 0 || n > vs.len() {
        Seq::empty()
    } else {
        models_of_prefix(vs, n - 1).push(model_of(vs[n - 1]))
    }
}

/// The model of a value.
pub open spec fn model_of(v: RespValue) -> ValueModel
    decreases v,
{
    match v {
        RespValue::SimpleString(s) => ValueModel::SimpleString(s@),
        RespValue::Integer(n) => ValueModel::Integer(n as int),
        RespValue::BinaryBulkString(b) => ValueModel::BinaryBulkString(b@),
        RespValue::BulkString(s) => ValueModel::BulkString(s@),
        RespValue::Error(s) => ValueModel::Error(s@),
        RespValue::Null => ValueModel::Null,
        RespValue::NullArray => ValueModel::NullArray,
        RespValue::Array(vs) => ValueModel::Array(models_of_prefix(vs, vs.len() as int)),
    }
}

impl View for RespValue {
    type V = ValueModel;

    open spec fn view(&self) -> ValueModel {
        model_of(*self)
    }
}

/// The models of a sequence of values, elementwise.
pub open spec fn models_of(vs: Seq<RespValue>) -> Seq<ValueModel> {
    vs.map_values(|v: RespValue| model_of(v))
}

pub proof fn lemma_models_of_prefix(vs: Vec<RespValue>, n: int)
    requires
        0 <= n <= vs.len(),
    ensures
        models_of_prefix(vs, n).len() == n,
        forall|i: int| 0 <= i < n ==> models_of_prefix(vs, n)[i] == model_of(vs[i]),
    decreases n,
{
    if n > 0 {
        lemma_models_of_prefix(vs, n - 1);
    }
}

impl Clone for RespValue {
    /// Cloning preserves the model, `Array` elements included.
    fn clone(&self) -> (res: RespValue)
        ensures
            res@ == self@,
        decreases self,
    {
        match self {
            RespValue::SimpleString(s) => RespValue::SimpleString(s.clone()),
            RespValue::Integer(n) => RespValue::Integer(*n),
            RespValue::BinaryBulkString(b) => RespValue::BinaryBulkString(b.clone()),
            RespValue::BulkString(s) => RespValue::BulkString(s.clone()),
            RespValue::Error(s) => RespValue::Error(s.clone()),
            RespValue::Null => RespValue::Null,
            RespValue::NullArray => RespValue::NullArray,
            RespValue::Array(vs) => {
                proof {
                    assert(decreases_to!(*self => *vs));
                }
                let mut out: Vec<RespValue> = Vec::new();
                let mut i: usize = 0;
                while i < vs.len()
                    invariant
                        i <= vs.len(),
                        out@.len() == i as int,
                        forall|j: int| 0 <= j < i as int ==> out@[j]@ == vs@[j]@,
                        (decreases_to!(*self => *vs)),
                    decreases vs.len() - i,
                {
                    proof {
                        assert(decreases_to!(*vs => vs@[i as int]));
                    }
                    let e = vs[i].clone();
                    out.push(e);
                    i = i + 1;
                }
                proof {
                    lemma_models_of_prefix(*vs, vs@.len() as int);
                    lemma_models_of_prefix(out, out@.len() as int);
                    assert(models_of_prefix(*vs, vs@.len() as int) =~= models_of_prefix(
                        out,
                        out@.len() as int,
                    ));
                }
                RespValue::Array(out)
            },
        }
    }
}

} // verus!
