//! Encoding values to their RESP3 wire form: the byte-level specification of
//! every frame, and the executable encoder proved against it.

use vstd::prelude::*;
use crate::value::Value;
use crate::value::ValueModel;
use crate::value::view_of;
use crate::value::view_of_seq;
use crate::value::view_of_pairs;
use crate::value::lemma_view_of_seq;
use crate::value::lemma_view_of_pairs;
use crate::num::dec_digits;
use crate::num::dec_i64;
use crate::num::push_dec_u64;
use crate::num::push_dec_i64;

verus! {

/// The line terminator.
pub open spec fn crlf() -> Seq<u8> {
    seq![13u8, 10u8]
}

/// The wire form of one value.
pub open spec fn encode_model(m: ValueModel) -> Seq<u8>
    decreases m,
{
    match m {
        ValueModel::SimpleString(p) => seq![43u8] + p + crlf(),
        ValueModel::SimpleError(p) => seq![45u8] + p + crlf(),
        ValueModel::Integer(i) => seq![58u8] + dec_i64(i) + crlf(),
        ValueModel::BulkString(p) => seq![36u8] + dec_digits(p.len()) + crlf() + p + crlf(),
        ValueModel::Array(vs) => seq![42u8] + dec_digits(vs.len()) + crlf() + encode_list(vs),
        ValueModel::Null => seq![95u8] + crlf(),
        ValueModel::Boolean(b) => if b {
            seq![35u8, 116u8] + crlf()
        } else {
            seq![35u8, 102u8] + crlf()
        },
        ValueModel::Double(r) => seq![44u8] + r + crlf(),
        ValueModel::BigNumber(d) => seq![40u8] + d + crlf(),
        ValueModel::BulkError(p) => seq![33u8] + dec_digits(p.len()) + crlf() + p + crlf(),
        ValueModel::Mapping(ps) => seq![37u8] + dec_digits(ps.len()) + crlf() + encode_pairs(ps),
        ValueModel::SetOf(vs) => seq![126u8] + dec_digits(vs.len()) + crlf() + encode_list(vs),
    }
}

/// The wire form of a sequence of values, one after the other.
pub open spec fn encode_list(vs: Seq<ValueModel>) -> Seq<u8>
    decreases vs,
{
    if vs.len() == 0 {
        Seq::empty()
    } else {
        encode_model(vs[0]) + encode_list(vs.drop_first())
    }
}

/// The wire form of a sequence of pairs, each key before its value.
pub open spec fn encode_pairs(ps: Seq<(ValueModel, ValueModel)>) -> Seq<u8>
    decreases ps,
{
    if ps.len() == 0 {
        Seq::empty()
    } else {
        encode_model(ps[0].0) + encode_model(ps[0].1) + encode_pairs(ps.drop_first())
    }
}

/// Appending one value extends the encoding of a sequence at its end.
pub proof fn lemma_encode_list_push(t: Seq<ValueModel>, x: ValueModel)
    ensures
        encode_list(t.push(x)) == encode_list(t) + encode_model(x),
    decreases t,
{
    if t.len() == 0 {
        reveal_with_fuel(encode_list, 2);
        assert(t.push(x).drop_first() =~= Seq::<ValueModel>::empty());
        assert(t.push(x)[0] == x);
        assert(encode_list(t.push(x)) =~= encode_list(t) + encode_model(x));
    } else {
        assert(t.push(x).drop_first() =~= t.drop_first().push(x));
        lemma_encode_list_push(t.drop_first(), x);
        assert(encode_list(t.push(x)) =~= encode_list(t) + encode_model(x));
    }
}

/// Appending one pair extends the encoding of a pair sequence at its end.
pub proof fn lemma_encode_pairs_push(
    t: Seq<(ValueModel, ValueModel)>,
    x: (ValueModel, ValueModel),
)
    ensures
        encode_pairs(t.push(x)) == encode_pairs(t) + encode_model(x.0) + encode_model(x.1),
    decreases t,
{
    if t.len() == 0 {
        reveal_with_fuel(encode_pairs, 2);
        assert(t.push(x).drop_first() =~= Seq::<(ValueModel, ValueModel)>::empty());
        assert(t.push(x)[0] == x);
        assert(encode_pairs(t.push(x)) =~= encode_pairs(t) + encode_model(x.0) + encode_model(
            x.1,
        ));
    } else {
        assert(t.push(x).drop_first() =~= t.drop_first().push(x));
        lemma_encode_pairs_push(t.drop_first(), x);
        assert(encode_pairs(t.push(x)) =~= encode_pairs(t) + encode_model(x.0) + encode_model(
            x.1,
        ));
    }
}

/// Append every byte of `s` to `out`.
pub fn push_all(out: &mut Vec<u8>, s: &[u8])
    ensures
        final(out)@ == old(out)@ + s@,
{
    let n = s.len();
    let mut i: usize = 0;
    while i < n
        invariant
            n == s@.len(),
            i <= n,
            out@ == old(out)@ + s@.take(i as int),
        decreases n - i,
    {
        out.push(s[i]);
        proof {
            assert(s@.take(i + 1).drop_last() =~= s@.take(i as int));
            assert(out@ =~= old(out)@ + s@.take(i + 1));
        }
        i = i + 1;
    }
    proof {
        assert(s@.take(n as int) =~= s@);
    }
}

/// Append the line terminator to `out`.
fn push_crlf(out: &mut Vec<u8>)
    ensures
        final(out)@ == old(out)@ + crlf(),
{
    out.push(13);
    out.push(10);
    proof {
        assert(out@ =~= old(out)@ + crlf());
    }
}

/// Append the wire form of `v` to `out`.
fn encode_into(v: &Value, out: &mut Vec<u8>)
    ensures
        final(out)@ == old(out)@ + encode_model(v@),
    decreases *v,
{
    match v {
        Value::SimpleString(p) => {
            out.push(43);
            push_all(out, p.as_slice());
            push_crlf(out);
            assert(out@ =~= old(out)@ + encode_model(v@));
        },
        Value::SimpleError(p) => {
            out.push(45);
            push_all(out, p.as_slice());
            push_crlf(out);
            assert(out@ =~= old(out)@ + encode_model(v@));
        },
        Value::Integer(i) => {
            out.push(58);
            push_dec_i64(*i, out);
            push_crlf(out);
            assert(out@ =~= old(out)@ + encode_model(v@));
        },
        Value::BulkString(p) => {
            out.push(36);
            push_dec_u64(p.len() as u64, out);
            push_crlf(out);
            push_all(out, p.as_slice());
            push_crlf(out);
            assert(out@ =~= old(out)@ + encode_model(v@));
        },
        Value::Array(a) => {
            out.push(42);
            push_dec_u64(a.len() as u64, out);
            push_crlf(out);
            encode_seq_into(a, out);
            proof {
                lemma_view_of_seq(a@);
            }
            assert(out@ =~= old(out)@ + encode_model(v@));
        },
        Value::Null => {
            out.push(95);
            push_crlf(out);
            assert(out@ =~= old(out)@ + encode_model(v@));
        },
        Value::Boolean(b) => {
            out.push(35);
            if *b {
                out.push(116);
            } else {
                out.push(102);
            }
            push_crlf(out);
            assert(out@ =~= old(out)@ + encode_model(v@));
        },
        Value::Double(r) => {
            out.push(44);
            push_all(out, r.as_slice());
            push_crlf(out);
            assert(out@ =~= old(out)@ + encode_model(v@));
        },
        Value::BigNumber(d) => {
            out.push(40);
            push_all(out, d.as_slice());
            push_crlf(out);
            assert(out@ =~= old(out)@ + encode_model(v@));
        },
        Value::BulkError(p) => {
            out.push(33);
            push_dec_u64(p.len() as u64, out);
            push_crlf(out);
            push_all(out, p.as_slice());
            push_crlf(out);
            assert(out@ =~= old(out)@ + encode_model(v@));
        },
        Value::Mapping(ps) => {
            out.push(37);
            push_dec_u64(ps.len() as u64, out);
            push_crlf(out);
            encode_pairs_into(ps, out);
            proof {
                lemma_view_of_pairs(ps@);
            }
            assert(out@ =~= old(out)@ + encode_model(v@));
        },
        Value::SetOf(vs) => {
            out.push(126);
            push_dec_u64(vs.len() as u64, out);
            push_crlf(out);
            encode_seq_into(vs, out);
            proof {
                lemma_view_of_seq(vs@);
            }
            assert(out@ =~= old(out)@ + encode_model(v@));
        },
    }
}

/// Append the wire forms of all of `items` to `out`.
fn encode_seq_into(items: &Vec<Value>, out: &mut Vec<u8>)
    ensures
        final(out)@ == old(out)@ + encode_list(view_of_seq(items@)),
    decreases items@,
{
    let n = items.len();
    let mut i: usize = 0;
    proof {
        lemma_view_of_seq(items@);
        assert(view_of_seq(items@).take(0) =~= Seq::<ValueModel>::empty());
    }
    while i < n
        invariant
            n == items@.len(),
            i <= n,
            view_of_seq(items@).len() == n,
            forall|j: int| 0 <= j < n ==> view_of_seq(items@)[j] == view_of(items@[j]),
            out@ == old(out)@ + encode_list(view_of_seq(items@).take(i as int)),
        decreases n - i,
    {
        encode_into(&items[i], out);
        proof {
            let vs = view_of_seq(items@);
            assert(vs.take(i + 1) =~= vs.take(i as int).push(vs[i as int]));
            lemma_encode_list_push(vs.take(i as int), vs[i as int]);
        }
        i = i + 1;
    }
    proof {
        assert(view_of_seq(items@).take(n as int) =~= view_of_seq(items@));
    }
}

/// Append the wire forms of all pairs of `items` to `out`.
fn encode_pairs_into(items: &Vec<(Value, Value)>, out: &mut Vec<u8>)
    ensures
        final(out)@ == old(out)@ + encode_pairs(view_of_pairs(items@)),
    decreases items@,
{
    let n = items.len();
    let mut i: usize = 0;
    proof {
        lemma_view_of_pairs(items@);
        assert(view_of_pairs(items@).take(0) =~= Seq::<(ValueModel, ValueModel)>::empty());
    }
    while i < n
        invariant
            n == items@.len(),
            i <= n,
            view_of_pairs(items@).len() == n,
            forall|j: int|
                0 <= j < n ==> view_of_pairs(items@)[j] == (
                    view_of(items@[j].0),
                    view_of(items@[j].1),
                ),
            out@ == old(out)@ + encode_pairs(view_of_pairs(items@).take(i as int)),
        decreases n - i,
    {
        encode_into(&items[i].0, out);
        encode_into(&items[i].1, out);
        proof {
            let ps = view_of_pairs(items@);
            assert(ps.take(i + 1) =~= ps.take(i as int).push(ps[i as int]));
            lemma_encode_pairs_push(ps.take(i as int), ps[i as int]);
        }
        i = i + 1;
    }
    proof {
        assert(view_of_pairs(items@).take(n as int) =~= view_of_pairs(items@));
    }
}

impl Value {
    /// The RESP3 wire form of this value.
    pub fn to_bytes(&self) -> (r: Vec<u8>)
        ensures
            r@ == encode_model(self@),
    {
        let mut out: Vec<u8> = Vec::new();
        encode_into(self, &mut out);
        out
    }
}

/// The wire form of a simple string with the given text.
pub fn simple_string_to_bytes(payload: &[u8]) -> (r: Vec<u8>)
    ensures
        r@ == encode_model(ValueModel::SimpleString(payload@)),
{
    let mut out: Vec<u8> = Vec::new();
    out.push(43);
    push_all(&mut out, payload);
    push_crlf(&mut out);
    proof {
        assert(out@ =~= encode_model(ValueModel::SimpleString(payload@)));
    }
    out
}

/// The wire form of a simple error with the given text.
pub fn simple_error_to_bytes(payload: &[u8]) -> (r: Vec<u8>)
    ensures
        r@ == encode_model(ValueModel::SimpleError(payload@)),
{
    let mut out: Vec<u8> = Vec::new();
    out.push(45);
    push_all(&mut out, payload);
    push_crlf(&mut out);
    proof {
        assert(out@ =~= encode_model(ValueModel::SimpleError(payload@)));
    }
    out
}

/// The wire form of an integer.
pub fn integer_to_bytes(value: i64) -> (r: Vec<u8>)
    ensures
        r@ == encode_model(ValueModel::Integer(value)),
{
    let mut out: Vec<u8> = Vec::new();
    out.push(58);
    push_dec_i64(value, &mut out);
    push_crlf(&mut out);
    proof {
        assert(out@ =~= encode_model(ValueModel::Integer(value)));
    }
    out
}

/// The wire form of a bulk string with the given payload.
pub fn bulk_string_to_bytes(payload: &[u8]) -> (r: Vec<u8>)
    ensures
        r@ == encode_model(ValueModel::BulkString(payload@)),
{
    let mut out: Vec<u8> = Vec::new();
    out.push(36);
    push_dec_u64(payload.len() as u64, &mut out);
    push_crlf(&mut out);
    push_all(&mut out, payload);
    push_crlf(&mut out);
    proof {
        assert(out@ =~= encode_model(ValueModel::BulkString(payload@)));
    }
    out
}

/// The wire form of the null value.
pub fn null_to_bytes() -> (r: Vec<u8>)
    ensures
        r@ == encode_model(ValueModel::Null),
{
    let mut out: Vec<u8> = Vec::new();
    out.push(95);
    push_crlf(&mut out);
    proof {
        assert(out@ =~= encode_model(ValueModel::Null));
    }
    out
}

/// The wire form of a boolean.
pub fn boolean_to_bytes(value: bool) -> (r: Vec<u8>)
    ensures
        r@ == encode_model(ValueModel::Boolean(value)),
{
    let mut out: Vec<u8> = Vec::new();
    out.push(35);
    if value {
        out.push(116);
    } else {
        out.push(102);
    }
    push_crlf(&mut out);
    proof {
        assert(out@ =~= encode_model(ValueModel::Boolean(value)));
    }
    out
}

/// The wire form of a bulk error with the given payload.
pub fn bulk_error_to_bytes(payload: &[u8]) -> (r: Vec<u8>)
    ensures
        r@ == encode_model(ValueModel::BulkError(payload@)),
{
    let mut out: Vec<u8> = Vec::new();
    out.push(33);
    push_dec_u64(payload.len() as u64, &mut out);
    push_crlf(&mut out);
    push_all(&mut out, payload);
    push_crlf(&mut out);
    proof {
        assert(out@ =~= encode_model(ValueModel::BulkError(payload@)));
    }
    out
}

/// The wire form of a double with the given textual payload.
pub fn double_to_bytes(payload: &[u8]) -> (r: Vec<u8>)
    ensures
        r@ == encode_model(ValueModel::Double(payload@)),
{
    let mut out: Vec<u8> = Vec::new();
    out.push(44);
    push_all(&mut out, payload);
    push_crlf(&mut out);
    proof {
        assert(out@ =~= encode_model(ValueModel::Double(payload@)));
    }
    out
}

/// The wire form of a big number with the given decimal payload.
pub fn big_number_to_bytes(payload: &[u8]) -> (r: Vec<u8>)
    ensures
        r@ == encode_model(ValueModel::BigNumber(payload@)),
{
    let mut out: Vec<u8> = Vec::new();
    out.push(40);
    push_all(&mut out, payload);
    push_crlf(&mut out);
    proof {
        assert(out@ =~= encode_model(ValueModel::BigNumber(payload@)));
    }
    out
}

/// The wire form of an array of values.
pub fn array_to_bytes(arr: &Vec<Value>) -> (r: Vec<u8>)
    ensures
        r@ == encode_model(ValueModel::Array(view_of_seq(arr@))),
{
    let mut out: Vec<u8> = Vec::new();
    out.push(42);
    push_dec_u64(arr.len() as u64, &mut out);
    push_crlf(&mut out);
    encode_seq_into(arr, &mut out);
    proof {
        lemma_view_of_seq(arr@);
        assert(out@ =~= encode_model(ValueModel::Array(view_of_seq(arr@))));
    }
    out
}

/// The wire form of a map, in stored entry order.
pub fn map_to_bytes(entries: &Vec<(Value, Value)>) -> (r: Vec<u8>)
    ensures
        r@ == encode_model(ValueModel::Mapping(view_of_pairs(entries@))),
{
    let mut out: Vec<u8> = Vec::new();
    out.push(37);
    push_dec_u64(entries.len() as u64, &mut out);
    push_crlf(&mut out);
    encode_pairs_into(entries, &mut out);
    proof {
        lemma_view_of_pairs(entries@);
        assert(out@ =~= encode_model(ValueModel::Mapping(view_of_pairs(entries@))));
    }
    out
}

/// The wire form of a set of values, in input order.
pub fn set_to_bytes(items: &Vec<Value>) -> (r: Vec<u8>)
    ensures
        r@ == encode_model(ValueModel::SetOf(view_of_seq(items@))),
{
    let mut out: Vec<u8> = Vec::new();
    out.push(126);
    push_dec_u64(items.len() as u64, &mut out);
    push_crlf(&mut out);
    encode_seq_into(items, &mut out);
    proof {
        lemma_view_of_seq(items@);
        assert(out@ =~= encode_model(ValueModel::SetOf(view_of_seq(items@))));
    }
    out
}

} // verus!
