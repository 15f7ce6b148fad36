//! The RESP3 value type, its mathematical model, nesting depth, and the total
//! order over values that map encoding relies on.

use vstd::prelude::*;

verus! {

/// A RESP3 value as held in memory.
///
/// Text-like payloads are kept as their wire bytes. A `Double` holds the
/// textual form that travelled on the wire (floating point cannot live in
/// verified code), a `BigNumber` holds its canonical decimal digits, and a
/// `Mapping` holds its entries sorted by the value order with distinct keys.
#[derive(Debug, PartialEq, Eq)]
pub enum Value {
    SimpleString(Vec<u8>),
    SimpleError(Vec<u8>),
    Integer(i64),
    BulkString(Vec<u8>),
    Array(Vec<Value>),
    Null,
    Boolean(bool),
    Double(Vec<u8>),
    BigNumber(Vec<u8>),
    BulkError(Vec<u8>),
    Mapping(Vec<(Value, Value)>),
    SetOf(Vec<Value>),
}

/// The mathematical model of a RESP3 value.
#[verifier::ext_equal]
pub enum ValueModel {
    SimpleString(Seq<u8>),
    SimpleError(Seq<u8>),
    Integer(i64),
    BulkString(Seq<u8>),
    Array(Seq<ValueModel>),
    Null,
    Boolean(bool),
    Double(Seq<u8>),
    BigNumber(Seq<u8>),
    BulkError(Seq<u8>),
    Mapping(Seq<(ValueModel, ValueModel)>),
    SetOf(Seq<ValueModel>),
}

/// Model of a sequence of values.
pub open spec fn view_of_seq(s: Seq<Value>) -> Seq<ValueModel>
    decreases s,
{
    if s.len() == 0 {
        Seq::empty()
    } else {
        seq![view_of(s[0])] + view_of_seq(s.drop_first())
    }
}

/// Model of a sequence of key-value pairs.
pub open spec fn view_of_pairs(s: Seq<(Value, Value)>) -> Seq<(ValueModel, ValueModel)>
    decreases s,
{
    if s.len() == 0 {
        Seq::empty()
    } else {
        seq![(view_of(s[0].0), view_of(s[0].1))] + view_of_pairs(s.drop_first())
    }
}

/// Model of one value.
pub open spec fn view_of(v: Value) -> ValueModel
    decreases v,
{
    match v {
        Value::SimpleString(p) => ValueModel::SimpleString(p@),
        Value::SimpleError(p) => ValueModel::SimpleError(p@),
        Value::Integer(i) => ValueModel::Integer(i),
        Value::BulkString(p) => ValueModel::BulkString(p@),
        Value::Array(a) => ValueModel::Array(view_of_seq(a@)),
        Value::Null => ValueModel::Null,
        Value::Boolean(b) => ValueModel::Boolean(b),
        Value::Double(r) => ValueModel::Double(r@),
        Value::BigNumber(d) => ValueModel::BigNumber(d@),
        Value::BulkError(p) => ValueModel::BulkError(p@),
        Value::Mapping(ps) => ValueModel::Mapping(view_of_pairs(ps@)),
        Value::SetOf(vs) => ValueModel::SetOf(view_of_seq(vs@)),
    }
}

impl View for Value {
    type V = ValueModel;

    open spec fn view(&self) -> ValueModel {
        view_of(*self)
    }
}

/// `view_of_seq` read pointwise.
pub proof fn lemma_view_of_seq(s: Seq<Value>)
    ensures
        view_of_seq(s).len() == s.len(),
        forall|i: int| 0 <= i < s.len() ==> view_of_seq(s)[i] == view_of(s[i]),
    decreases s,
{
    if s.len() > 0 {
        lemma_view_of_seq(s.drop_first());
    }
}

/// Appending one value appends its model.
pub proof fn lemma_view_of_seq_push(s: Seq<Value>, x: Value)
    ensures
        view_of_seq(s.push(x)) == view_of_seq(s) + seq![view_of(x)],
{
    lemma_view_of_seq(s.push(x));
    lemma_view_of_seq(s);
    assert(view_of_seq(s.push(x)) =~= view_of_seq(s) + seq![view_of(x)]);
}

/// `view_of_pairs` read pointwise.
pub proof fn lemma_view_of_pairs(s: Seq<(Value, Value)>)
    ensures
        view_of_pairs(s).len() == s.len(),
        forall|i: int|
            0 <= i < s.len() ==> view_of_pairs(s)[i] == (view_of(s[i].0), view_of(s[i].1)),
    decreases s,
{
    if s.len() > 0 {
        lemma_view_of_pairs(s.drop_first());
    }
}

} // verus!
