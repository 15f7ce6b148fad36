//! The codec's laws: a well-formedness notion for values, and the proofs
//! that decoding inverts encoding frame by frame — on one frame, and across
//! concatenated frames.

use vstd::prelude::*;
use vstd::utf8::valid_utf8;
use crate::value::ValueModel;
use crate::bytes::crlf_at;
use crate::bytes::is_digit;
use crate::bytes::lemma_find_crlf_witness;
use crate::num::all_digits;
use crate::num::dec_digits;
use crate::num::dec_i64;
use crate::num::digits_val;
use crate::num::strip_sign;
use crate::num::i64_literal;
use crate::num::i64_literal_val;
use crate::num::u64_literal;
use crate::num::u64_literal_val;
use crate::num::lemma_dec_digits_are_digits;
use crate::num::lemma_dec_digits_val;
use crate::double::double_stored;
use crate::double::number_ok;
use crate::double::exp_ok;
use crate::double::digit_run;
use crate::double::lemma_digit_run;
use crate::double::word_inf;
use crate::double::word_neg_inf;
use crate::double::word_nan;
use crate::double::lemma_double_stored_round;
use crate::bignum::big_canon;
use crate::bignum::lemma_big_canon_round;
use crate::order::val_cmp;
use crate::order::lemma_val_cmp_flip;
use crate::utf8check::lemma_ascii_valid_utf8;
use crate::encode::crlf;
use crate::encode::encode_model;
use crate::encode::encode_list;
use crate::encode::encode_pairs;
use crate::decode::dec_value;
use crate::decode::dec_items;
use crate::decode::ParseOutcome;
use crate::decode::ItemsOutcome;
use crate::decode::mapping_from_items;
use crate::decode::lemma_dec_value_used;
use crate::decode::MAX_DEPTH;

verus! {

/// A byte that never interferes with framing: neither CR nor LF, and ASCII.
pub open spec fn harmless(b: u8) -> bool {
    b != 13 && b != 10 && b <= 127
}

/// A payload whose bytes are all harmless.
pub open spec fn harmless_all(p: Seq<u8>) -> bool {
    forall|i: int| 0 <= i < p.len() ==> harmless(#[trigger] p[i])
}

/// A payload free of CR and LF bytes.
pub open spec fn line_safe(p: Seq<u8>) -> bool {
    forall|i: int| 0 <= i < p.len() ==> #[trigger] p[i] != 13 && p[i] != 10
}

/// A value in the shape the codec round-trips: textual payloads that fit on
/// one line, canonical big numbers and doubles, sorted map keys, and sizes
/// within the wire's length headers.
pub open spec fn wf(m: ValueModel) -> bool
    decreases m,
{
    match m {
        ValueModel::SimpleString(p) => valid_utf8(p) && line_safe(p),
        ValueModel::SimpleError(p) => valid_utf8(p) && line_safe(p),
        ValueModel::Integer(_) => true,
        ValueModel::BulkString(p) => p.len() <= i64::MAX,
        ValueModel::Array(vs) => vs.len() <= u64::MAX && wf_seq(vs),
        ValueModel::Null => true,
        ValueModel::Boolean(_) => true,
        ValueModel::Double(r) => double_stored(r),
        ValueModel::BigNumber(d) => big_canon(d),
        ValueModel::BulkError(p) => p.len() <= u64::MAX,
        ValueModel::Mapping(ps) => ps.len() <= u64::MAX && wf_pairs(ps) && sorted_keys(ps),
        ValueModel::SetOf(vs) => vs.len() <= u64::MAX && wf_seq(vs),
    }
}

/// Every element well formed.
pub open spec fn wf_seq(vs: Seq<ValueModel>) -> bool
    decreases vs,
{
    vs.len() == 0 || (wf(vs[0]) && wf_seq(vs.drop_first()))
}

/// Every key and value well formed.
pub open spec fn wf_pairs(ps: Seq<(ValueModel, ValueModel)>) -> bool
    decreases ps,
{
    ps.len() == 0 || (wf(ps[0].0) && wf(ps[0].1) && wf_pairs(ps.drop_first()))
}

/// Map keys strictly ascending in the value order.
pub open spec fn sorted_keys(ps: Seq<(ValueModel, ValueModel)>) -> bool {
    forall|i: int, j: int|
        0 <= i < j < ps.len() ==> val_cmp(#[trigger] ps[i].0, #[trigger] ps[j].0) < 0
}

/// How deeply aggregates nest in a value; scalars sit at depth zero.
pub open spec fn depth_of(m: ValueModel) -> nat
    decreases m,
{
    match m {
        ValueModel::Array(vs) => 1 + depth_of_seq(vs),
        ValueModel::Mapping(ps) => 1 + depth_of_pairs(ps),
        ValueModel::SetOf(vs) => 1 + depth_of_seq(vs),
        _ => 0,
    }
}

/// The deepest nesting among elements.
pub open spec fn depth_of_seq(vs: Seq<ValueModel>) -> nat
    decreases vs,
{
    if vs.len() == 0 {
        0
    } else {
        let d0 = depth_of(vs[0]);
        let dr = depth_of_seq(vs.drop_first());
        if d0 >= dr {
            d0
        } else {
            dr
        }
    }
}

/// The deepest nesting among keys and values.
pub open spec fn depth_of_pairs(ps: Seq<(ValueModel, ValueModel)>) -> nat
    decreases ps,
{
    if ps.len() == 0 {
        0
    } else {
        let d0 = depth_of(ps[0].0);
        let d1 = depth_of(ps[0].1);
        let dr = depth_of_pairs(ps.drop_first());
        if d0 >= d1 && d0 >= dr {
            d0
        } else if d1 >= dr {
            d1
        } else {
            dr
        }
    }
}

/// The decimal form of an integer is made of harmless bytes.
proof fn lemma_dec_i64_harmless(i: i64)
    ensures
        harmless_all(dec_i64(i)),
{
    if i < 0 {
        lemma_dec_digits_are_digits((-(i as int)) as nat);
        let d = dec_digits((-(i as int)) as nat);
        let s = dec_i64(i);
        assert(s[0] == 45);
        assert(forall|j: int| 0 <= j < d.len() ==> #[trigger] s[j + 1] == d[j]);
        assert forall|j: int| 0 <= j < s.len() implies harmless(#[trigger] s[j]) by {
            if j > 0 {
                assert(is_digit(d[j - 1]));
                assert(s[j] == d[j - 1]);
            }
        }
    } else {
        lemma_dec_digits_are_digits(i as nat);
    }
}

/// The bytes of an exponent part are harmless.
proof fn lemma_exp_harmless(s: Seq<u8>)
    requires
        exp_ok(s),
    ensures
        harmless_all(s),
{
    let t = s.drop_first();
    let u = strip_sign(t, true);
    assert forall|i: int| 0 <= i < s.len() implies harmless(#[trigger] s[i]) by {
        if i == 0 {
        } else {
            assert(t[i - 1] == s[i]);
            if t.len() > 0 && (t[0] == 43 || t[0] == 45) {
                if i == 1 {
                } else {
                    assert(u[i - 2] == s[i]);
                    assert(is_digit(u[i - 2]));
                }
            } else {
                assert(u =~= t);
                assert(is_digit(u[i - 1]));
            }
        }
    }
}

/// The bytes of a decimal float are harmless.
proof fn lemma_number_harmless(s: Seq<u8>)
    requires
        number_ok(s),
    ensures
        harmless_all(s),
{
    lemma_digit_run(s);
    let d = digit_run(s);
    let r = s.skip(d);
    assert(forall|j: int| 0 <= j < r.len() ==> #[trigger] r[j] == s[j + d]);
    if d == 0 {
        let f = r.drop_first();
        assert(forall|j: int| 0 <= j < f.len() ==> #[trigger] f[j] == s[j + 1]);
        lemma_digit_run(f);
        let d2 = digit_run(f);
        let r2 = f.skip(d2);
        assert(forall|j: int| 0 <= j < r2.len() ==> #[trigger] r2[j] == f[j + d2]);
        if r2.len() > 0 {
            lemma_exp_harmless(r2);
        }
        assert forall|i: int| 0 <= i < s.len() implies harmless(#[trigger] s[i]) by {
            if i == 0 {
            } else if i - 1 < d2 {
                assert(is_digit(f[i - 1]));
            } else {
                assert(harmless(r2[i - 1 - d2]));
            }
        }
    } else if r.len() == 0 {
        assert forall|i: int| 0 <= i < s.len() implies harmless(#[trigger] s[i]) by {
            assert(is_digit(s[i]));
        }
    } else if r[0] == 46 {
        let f = r.drop_first();
        assert(forall|j: int| 0 <= j < f.len() ==> #[trigger] f[j] == s[j + d + 1]);
        lemma_digit_run(f);
        let d2 = digit_run(f);
        let r2 = f.skip(d2);
        assert(forall|j: int| 0 <= j < r2.len() ==> #[trigger] r2[j] == f[j + d2]);
        if r2.len() > 0 {
            lemma_exp_harmless(r2);
        }
        assert forall|i: int| 0 <= i < s.len() implies harmless(#[trigger] s[i]) by {
            if i < d {
                assert(is_digit(s[i]));
            } else if i == d {
            } else if i - d - 1 < d2 {
                assert(is_digit(f[i - d - 1]));
            } else {
                assert(harmless(r2[i - d - 1 - d2]));
            }
        }
    } else {
        lemma_exp_harmless(r);
        assert forall|i: int| 0 <= i < s.len() implies harmless(#[trigger] s[i]) by {
            if i < d {
                assert(is_digit(s[i]));
            } else {
                assert(harmless(r[i - d]));
            }
        }
    }
}

/// The stored payload of a double is harmless bytes.
proof fn lemma_double_stored_harmless(r: Seq<u8>)
    requires
        double_stored(r),
    ensures
        harmless_all(r),
{
    if r == word_inf() || r == word_neg_inf() || r == word_nan() {
    } else {
        let t = strip_sign(r, true);
        lemma_number_harmless(t);
        assert forall|i: int| 0 <= i < r.len() implies harmless(#[trigger] r[i]) by {
            if r.len() > 0 && (r[0] == 43 || r[0] == 45) {
                if i > 0 {
                    assert(t[i - 1] == r[i]);
                }
            } else {
                assert(t =~= r);
                assert(harmless(t[i]));
            }
        }
    }
}

/// The canonical payload of a big number is harmless bytes.
proof fn lemma_big_canon_harmless(d: Seq<u8>)
    requires
        big_canon(d),
    ensures
        harmless_all(d),
{
    if d.len() >= 1 && d[0] == 45 {
        let t = d.drop_first();
        assert(forall|j: int| 0 <= j < t.len() ==> #[trigger] t[j] == d[j + 1]);
        assert forall|i: int| 0 <= i < d.len() implies harmless(#[trigger] d[i]) by {
            if i > 0 {
                assert(is_digit(t[i - 1]));
            }
        }
    } else {
        assert forall|i: int| 0 <= i < d.len() implies harmless(#[trigger] d[i]) by {
            assert(is_digit(d[i]));
        }
    }
}

/// A one-line frame `prefix ++ header ++ CRLF` followed by anything finds
/// its CRLF exactly after the header.
proof fn lemma_line_frame(p: u8, h: Seq<u8>, tail: Seq<u8>)
    requires
        p != 13,
        line_safe(h),
    ensures
        ({
            let s = seq![p] + h + crlf() + tail;
            &&& crate::bytes::find_crlf(s) == Option::Some(1 + h.len() as int)
            &&& s.subrange(1, 1 + h.len() as int) == h
            &&& s[0] == p
            &&& s.skip(1 + h.len() as int + 2) == tail
            &&& s.len() == 3 + h.len() + tail.len()
        }),
{
    let s = seq![p] + h + crlf() + tail;
    let n = 1 + h.len() as int;
    assert(s[0] == p);
    assert(forall|j: int| 0 <= j < h.len() ==> #[trigger] s[j + 1] == h[j]);
    assert(s[n] == 13 && s[n + 1] == 10);
    assert(crlf_at(s, n));
    assert forall|j: int| 0 <= j < n implies !crlf_at(s, j) by {
        if j == 0 {
            assert(s[0] == p && p != 13);
        } else {
            assert(s[j] == h[j - 1]);
            assert(h[j - 1] != 13);
        }
    }
    lemma_find_crlf_witness(s, n);
    assert(s.subrange(1, n) =~= h);
    assert(s.skip(n + 2) =~= tail);
}

} // verus!

verus! {

/// The decimal form of an integer parses back to it.
proof fn lemma_dec_i64_literal(i: i64)
    ensures
        i64_literal(dec_i64(i)),
        i64_literal_val(dec_i64(i)) == i,
{
    if i >= 0 {
        let d = dec_digits(i as nat);
        lemma_dec_digits_are_digits(i as nat);
        lemma_dec_digits_val(i as nat);
        assert(d[0] != 43 && d[0] != 45);
        assert(strip_sign(d, true) == d);
    } else {
        let g = dec_digits((-(i as int)) as nat);
        let s = dec_i64(i);
        lemma_dec_digits_are_digits((-(i as int)) as nat);
        lemma_dec_digits_val((-(i as int)) as nat);
        assert(s[0] == 45);
        assert(strip_sign(s, true) =~= g);
    }
}

/// The decimal form of an unsigned length parses back to it.
proof fn lemma_dec_digits_literal(n: nat)
    requires
        n <= u64::MAX,
    ensures
        u64_literal(dec_digits(n)),
        u64_literal_val(dec_digits(n)) == n,
        n <= i64::MAX ==> i64_literal(dec_digits(n)) && i64_literal_val(dec_digits(n)) == n,
{
    let d = dec_digits(n);
    lemma_dec_digits_are_digits(n);
    lemma_dec_digits_val(n);
    assert(d[0] != 43 && d[0] != 45);
    assert(strip_sign(d, false) == d);
    assert(strip_sign(d, true) == d);
}

/// The items of a pair sequence, keys and values interleaved.
pub open spec fn flatten_pairs(ps: Seq<(ValueModel, ValueModel)>) -> Seq<ValueModel>
    decreases ps,
{
    if ps.len() == 0 {
        Seq::empty()
    } else {
        seq![ps[0].0, ps[0].1] + flatten_pairs(ps.drop_first())
    }
}

/// Flattening doubles the length.
proof fn lemma_flatten_pairs_len(ps: Seq<(ValueModel, ValueModel)>)
    ensures
        flatten_pairs(ps).len() == 2 * ps.len(),
    decreases ps,
{
    if ps.len() > 0 {
        lemma_flatten_pairs_len(ps.drop_first());
    }
}

/// Appending one pair appends its two items.
proof fn lemma_flatten_pairs_push(ps: Seq<(ValueModel, ValueModel)>, x: (ValueModel, ValueModel))
    ensures
        flatten_pairs(ps.push(x)) == flatten_pairs(ps) + seq![x.0, x.1],
    decreases ps,
{
    if ps.len() == 0 {
        reveal_with_fuel(flatten_pairs, 2);
        assert(ps.push(x).drop_first() =~= Seq::<(ValueModel, ValueModel)>::empty());
        assert(ps.push(x)[0] == x);
        assert(flatten_pairs(ps.push(x)) =~= flatten_pairs(ps) + seq![x.0, x.1]);
    } else {
        assert(ps.push(x).drop_first() =~= ps.drop_first().push(x));
        lemma_flatten_pairs_push(ps.drop_first(), x);
        assert(flatten_pairs(ps.push(x)) =~= flatten_pairs(ps) + seq![x.0, x.1]);
    }
}

/// Refolding the flattened items of a sorted entry list restores it.
proof fn lemma_mapping_refold(ps: Seq<(ValueModel, ValueModel)>)
    requires
        sorted_keys(ps),
    ensures
        mapping_from_items(Seq::empty(), flatten_pairs(ps)) == ps,
    decreases ps.len(),
{
    if ps.len() == 0 {
        assert(flatten_pairs(ps).len() == 0);
        assert(mapping_from_items(Seq::empty(), flatten_pairs(ps)) =~= ps);
    } else {
        let q = ps.drop_last();
        let kv = ps.last();
        assert(forall|j: int| 0 <= j < q.len() ==> #[trigger] q[j] == ps[j]);
        lemma_mapping_refold(q);
        assert(ps =~= q.push(kv));
        lemma_flatten_pairs_push(q, kv);
        lemma_flatten_pairs_len(q);
        crate::decode::lemma_mapping_from_items_snoc(Seq::empty(), flatten_pairs(q), kv.0, kv.1);
        assert forall|j: int| 0 <= j < q.len() implies val_cmp(kv.0, #[trigger] q[j].0) > 0 by {
            assert(val_cmp(ps[j].0, ps[ps.len() - 1].0) < 0);
            lemma_val_cmp_flip(kv.0, q[j].0);
        }
        crate::decode::lemma_mapping_insert_splice(q, kv.0, kv.1, q.len() as int);
        assert(q.insert(q.len() as int, kv) =~= ps);
    }
}

/// Decoding the encoding of one well-formed value, whatever follows it,
/// yields that value and consumes exactly its frame.
pub proof fn lemma_decode_encode(m: ValueModel, tail: Seq<u8>, depth: nat)
    requires
        wf(m),
        depth_of(m) <= depth,
    ensures
        dec_value(encode_model(m) + tail, depth) == (ParseOutcome::Done {
            v: m,
            used: encode_model(m).len() as int,
        }),
    decreases m,
{
    let s = encode_model(m) + tail;
    match m {
        ValueModel::SimpleString(p) => {
            assert(s =~= seq![43u8] + p + crlf() + tail);
            lemma_line_frame(43, p, tail);
        },
        ValueModel::SimpleError(p) => {
            assert(s =~= seq![45u8] + p + crlf() + tail);
            lemma_line_frame(45, p, tail);
        },
        ValueModel::Integer(i) => {
            let h = dec_i64(i);
            assert(s =~= seq![58u8] + h + crlf() + tail);
            lemma_dec_i64_harmless(i);
            lemma_line_frame(58, h, tail);
            lemma_dec_i64_literal(i);
        },
        ValueModel::Null => {
            let h = Seq::<u8>::empty();
            assert(s =~= seq![95u8] + h + crlf() + tail);
            lemma_line_frame(95, h, tail);
        },
        ValueModel::Boolean(b) => {
            let h: Seq<u8> = if b {
                seq![116u8]
            } else {
                seq![102u8]
            };
            assert(s =~= seq![35u8] + h + crlf() + tail);
            lemma_line_frame(35, h, tail);
        },
        ValueModel::Double(r) => {
            assert(s =~= seq![44u8] + r + crlf() + tail);
            lemma_double_stored_harmless(r);
            lemma_line_frame(44, r, tail);
            lemma_ascii_valid_utf8(r);
            lemma_double_stored_round(r);
        },
        ValueModel::BigNumber(d) => {
            assert(s =~= seq![40u8] + d + crlf() + tail);
            lemma_big_canon_harmless(d);
            lemma_line_frame(40, d, tail);
            lemma_ascii_valid_utf8(d);
            lemma_big_canon_round(d);
        },
        ValueModel::BulkString(p) => {
            let h = dec_digits(p.len());
            let t2 = p + crlf() + tail;
            assert(s =~= seq![36u8] + h + crlf() + t2);
            lemma_dec_digits_are_digits(p.len());
            lemma_line_frame(36, h, t2);
            lemma_dec_digits_literal(p.len());
            let n = 1 + h.len() as int;
            let used0 = n + 2;
            let len = p.len() as int;
            assert(s.skip(used0) == t2);
            assert(forall|j: int| 0 <= j < t2.len() ==> s[used0 + j] == #[trigger] t2[j]);
            assert(t2[len] == 13 && t2[len + 1] == 10);
            assert(s.len() == used0 + len + 2 + tail.len());
            assert(s.subrange(used0, used0 + len) =~= p);
            assert(encode_model(m).len() == used0 + len + 2);
        },
        ValueModel::BulkError(p) => {
            let h = dec_digits(p.len());
            let t2 = p + crlf() + tail;
            assert(s =~= seq![33u8] + h + crlf() + t2);
            lemma_dec_digits_are_digits(p.len());
            lemma_line_frame(33, h, t2);
            lemma_dec_digits_literal(p.len());
            let n = 1 + h.len() as int;
            let used0 = n + 2;
            let len = p.len() as int;
            assert(s.skip(used0) == t2);
            assert(forall|j: int| 0 <= j < t2.len() ==> s[used0 + j] == #[trigger] t2[j]);
            assert(t2[len] == 13 && t2[len + 1] == 10);
            assert(s.len() == used0 + len + 2 + tail.len());
            assert(s.subrange(used0, used0 + len) =~= p);
            assert(encode_model(m).len() == used0 + len + 2);
        },
        ValueModel::Array(vs) => {
            let h = dec_digits(vs.len());
            let body = encode_list(vs);
            assert(s =~= seq![42u8] + h + crlf() + (body + tail));
            lemma_dec_digits_are_digits(vs.len());
            lemma_line_frame(42, h, body + tail);
            lemma_dec_digits_literal(vs.len());
            let used0 = 1 + h.len() as int + 2;
            assert(s.skip(used0) == body + tail);
            lemma_decode_encode_list(vs, tail, (depth - 1) as nat);
            assert(encode_model(m).len() == used0 + body.len());
        },
        ValueModel::SetOf(vs) => {
            let h = dec_digits(vs.len());
            let body = encode_list(vs);
            assert(s =~= seq![126u8] + h + crlf() + (body + tail));
            lemma_dec_digits_are_digits(vs.len());
            lemma_line_frame(126, h, body + tail);
            lemma_dec_digits_literal(vs.len());
            let used0 = 1 + h.len() as int + 2;
            assert(s.skip(used0) == body + tail);
            lemma_decode_encode_list(vs, tail, (depth - 1) as nat);
            assert(encode_model(m).len() == used0 + body.len());
        },
        ValueModel::Mapping(ps) => {
            let h = dec_digits(ps.len());
            let body = encode_pairs(ps);
            assert(s =~= seq![37u8] + h + crlf() + (body + tail));
            lemma_dec_digits_are_digits(ps.len());
            lemma_line_frame(37, h, body + tail);
            lemma_dec_digits_literal(ps.len());
            let used0 = 1 + h.len() as int + 2;
            assert(s.skip(used0) == body + tail);
            lemma_decode_encode_pairs(ps, tail, (depth - 1) as nat);
            lemma_mapping_refold(ps);
            assert(encode_model(m).len() == used0 + body.len());
        },
    }
}

/// Decoding the encodings of a run of well-formed values, whatever follows
/// them, yields those values in order.
pub proof fn lemma_decode_encode_list(vs: Seq<ValueModel>, tail: Seq<u8>, depth: nat)
    requires
        wf_seq(vs),
        depth_of_seq(vs) <= depth,
    ensures
        dec_items(encode_list(vs) + tail, vs.len(), depth) == (ItemsOutcome::Done {
            vs,
            used: encode_list(vs).len() as int,
        }),
    decreases vs,
{
    if vs.len() == 0 {
        assert(dec_items(encode_list(vs) + tail, vs.len(), depth) == (ItemsOutcome::Done {
            vs: Seq::<ValueModel>::empty(),
            used: 0,
        }));
        assert(vs =~= Seq::<ValueModel>::empty());
        assert(encode_list(vs).len() == 0);
    } else {
        let e0 = encode_model(vs[0]);
        let rest = encode_list(vs.drop_first());
        let s = encode_list(vs) + tail;
        assert(s =~= e0 + (rest + tail));
        lemma_decode_encode(vs[0], rest + tail, depth);
        lemma_dec_value_used(s, depth);
        assert(s.skip(e0.len() as int) =~= rest + tail);
        lemma_decode_encode_list(vs.drop_first(), tail, depth);
        assert(seq![vs[0]] + vs.drop_first() =~= vs);
        assert(encode_list(vs).len() == e0.len() + rest.len());
    }
}

/// Decoding the encodings of a run of well-formed pairs yields keys and
/// values interleaved.
#[verifier::rlimit(100)]
pub proof fn lemma_decode_encode_pairs(
    ps: Seq<(ValueModel, ValueModel)>,
    tail: Seq<u8>,
    depth: nat,
)
    requires
        wf_pairs(ps),
        depth_of_pairs(ps) <= depth,
    ensures
        dec_items(encode_pairs(ps) + tail, (2 * ps.len()) as nat, depth) == (ItemsOutcome::Done {
            vs: flatten_pairs(ps),
            used: encode_pairs(ps).len() as int,
        }),
    decreases ps,
{
    if ps.len() == 0 {
        assert(flatten_pairs(ps) =~= Seq::<ValueModel>::empty());
        assert(encode_pairs(ps).len() == 0);
    } else {
        let ek = encode_model(ps[0].0);
        let ev = encode_model(ps[0].1);
        let rest = encode_pairs(ps.drop_first());
        let s = encode_pairs(ps) + tail;
        let n2: nat = (2 * ps.len()) as nat;
        assert(s =~= ek + (ev + (rest + tail)));
        lemma_decode_encode(ps[0].0, ev + (rest + tail), depth);
        lemma_dec_value_used(s, depth);
        let s1 = s.skip(ek.len() as int);
        assert(s1 =~= ev + (rest + tail));
        assert(dec_items(s, n2, depth) == crate::decode::items_extend(
            seq![ps[0].0],
            ek.len() as int,
            dec_items(s1, (n2 - 1) as nat, depth),
        ));
        lemma_decode_encode(ps[0].1, rest + tail, depth);
        lemma_dec_value_used(s1, depth);
        let s2 = s1.skip(ev.len() as int);
        assert(s2 =~= rest + tail);
        assert(dec_items(s1, (n2 - 1) as nat, depth) == crate::decode::items_extend(
            seq![ps[0].1],
            ev.len() as int,
            dec_items(s2, (n2 - 2) as nat, depth),
        ));
        lemma_decode_encode_pairs(ps.drop_first(), tail, depth);
        assert((n2 - 2) as nat == (2 * ps.drop_first().len()) as nat);
        assert(dec_items(s2, (n2 - 2) as nat, depth) == (ItemsOutcome::Done {
            vs: flatten_pairs(ps.drop_first()),
            used: rest.len() as int,
        }));
        assert(seq![ps[0].0] + (seq![ps[0].1] + flatten_pairs(ps.drop_first())) =~= flatten_pairs(
            ps,
        ));
        assert(encode_pairs(ps).len() == ek.len() + ev.len() + rest.len());
    }
}

/// Round trip: decoding the encoding of a well-formed value of supported
/// nesting depth yields exactly that value, consuming the whole frame.
pub proof fn lemma_round_trip(m: ValueModel)
    requires
        wf(m),
        depth_of(m) <= MAX_DEPTH,
    ensures
        dec_value(encode_model(m), MAX_DEPTH as nat) == (ParseOutcome::Done {
            v: m,
            used: encode_model(m).len() as int,
        }),
{
    lemma_decode_encode(m, Seq::empty(), MAX_DEPTH as nat);
    assert(encode_model(m) + Seq::<u8>::empty() =~= encode_model(m));
}

/// Null forms: the legacy null bulk frame decodes to `Null`, while `Null`
/// encodes as the dedicated null frame; the codec inverts on values, not on
/// raw bytes.
pub proof fn lemma_null_forms()
    ensures
        dec_value(seq![36u8, 45u8, 49u8, 13u8, 10u8], MAX_DEPTH as nat) == (ParseOutcome::Done {
            v: ValueModel::Null,
            used: 5,
        }),
        encode_model(ValueModel::Null) == seq![95u8, 13u8, 10u8],
{
    let s = seq![36u8, 45u8, 49u8, 13u8, 10u8];
    assert(crlf_at(s, 3));
    assert forall|j: int| 0 <= j < 3 implies !crlf_at(s, j) by {
        assert(s[0] == 36 && s[1] == 45 && s[2] == 49);
    }
    lemma_find_crlf_witness(s, 3);
    let h = s.subrange(1, 3);
    assert(h =~= seq![45u8, 49u8]);
    let t = strip_sign(h, true);
    assert(t =~= seq![49u8]);
    assert(all_digits(t));
    assert(digits_val(t) == 1) by {
        reveal_with_fuel(digits_val, 3);
        assert(t.drop_last() =~= Seq::<u8>::empty());
        assert(digits_val(Seq::<u8>::empty()) == 0);
    }
    assert(i64_literal(h) && i64_literal_val(h) == -1);
    assert(encode_model(ValueModel::Null) =~= seq![95u8, 13u8, 10u8]);
}

/// Framing: two independently encoded well-formed values decode one after
/// the other from their concatenation, with no interference between frames.
pub proof fn lemma_framing(m1: ValueModel, m2: ValueModel)
    requires
        wf(m1),
        wf(m2),
        depth_of(m1) <= MAX_DEPTH,
        depth_of(m2) <= MAX_DEPTH,
    ensures
        ({
            let s = encode_model(m1) + encode_model(m2);
            &&& dec_value(s, MAX_DEPTH as nat) == (ParseOutcome::Done {
                v: m1,
                used: encode_model(m1).len() as int,
            })
            &&& dec_value(s.skip(encode_model(m1).len() as int), MAX_DEPTH as nat)
                == (ParseOutcome::Done { v: m2, used: encode_model(m2).len() as int })
        }),
{
    let s = encode_model(m1) + encode_model(m2);
    lemma_decode_encode(m1, encode_model(m2), MAX_DEPTH as nat);
    assert(s.skip(encode_model(m1).len() as int) =~= encode_model(m2));
    lemma_round_trip(m2);
}

} // verus!
