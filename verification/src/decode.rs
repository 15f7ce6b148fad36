//! Decoding RESP3 frames: the byte-level specification of what one frame
//! means, the reader capability the decoder consumes, and the executable
//! decoder proved against the specification.
//!
//! The wire grammar nests aggregates without bound; the decoder supports
//! nesting up to [`MAX_DEPTH`] and answers deeper frames with a
//! `NestingTooDeep` error rather than exhausting the native stack.

use vstd::prelude::*;
use vstd::utf8::valid_utf8;
use crate::bytes::find_crlf;
use crate::bytes::crlf_at;
use crate::bytes::lemma_find_crlf;
use crate::value::Value;
use crate::value::ValueModel;
use crate::value::view_of;
use crate::value::view_of_seq;
use crate::value::view_of_pairs;
use crate::value::lemma_view_of_seq;
use crate::value::lemma_view_of_pairs;
use crate::value::lemma_view_of_seq_push;
use crate::reader::BytesReader;
use crate::num::i64_literal;
use crate::num::i64_literal_val;
use crate::num::u64_literal;
use crate::num::u64_literal_val;
use crate::num::parse_i64;
use crate::num::parse_u64;
use crate::double::double_literal;
use crate::double::double_canon_of;
use crate::double::classify_double;
use crate::bignum::big_literal;
use crate::bignum::big_canon_of;
use crate::bignum::big_number_from_wire;
use crate::order::val_cmp;
use crate::order::compare_values;
use crate::error::ParseError;
use crate::utf8check::is_valid_utf8;
use vstd::slice::slice_to_vec;

verus! {

/// How many levels of aggregate nesting the decoder accepts.
pub const MAX_DEPTH: u64 = 64;

/// The meaning of decoding one frame from a byte prefix.
pub enum ParseOutcome {
    /// A complete frame: its value and how many bytes it occupied.
    Done { v: ValueModel, used: int },
    /// The bytes end before the frame does.
    Incomplete,
    /// The frame is malformed: the error and how many bytes were consumed.
    Fail { e: ParseError, used: int },
}

/// The meaning of decoding a run of frames.
pub enum ItemsOutcome {
    Done { vs: Seq<ValueModel>, used: int },
    Incomplete,
    Fail { e: ParseError, used: int },
}

/// Insert a key-value pair into an entry list sorted by the value order;
/// an order-equal key is replaced, last write winning.
pub open spec fn mapping_insert(
    m: Seq<(ValueModel, ValueModel)>,
    k: ValueModel,
    v: ValueModel,
) -> Seq<(ValueModel, ValueModel)>
    decreases m,
{
    if m.len() == 0 {
        seq![(k, v)]
    } else if val_cmp(k, m[0].0) < 0 {
        seq![(k, v)] + m
    } else if val_cmp(k, m[0].0) == 0 {
        seq![(k, v)] + m.drop_first()
    } else {
        seq![m[0]] + mapping_insert(m.drop_first(), k, v)
    }
}

/// Fold a run of decoded items, taken two at a time as key then value, into
/// sorted map entries.
pub open spec fn mapping_from_items(
    acc: Seq<(ValueModel, ValueModel)>,
    items: Seq<ValueModel>,
) -> Seq<(ValueModel, ValueModel)>
    decreases items.len(),
{
    if items.len() < 2 {
        acc
    } else {
        mapping_from_items(mapping_insert(acc, items[0], items[1]), items.skip(2))
    }
}

/// The meaning of one frame at the head of `s`, with `depth` aggregate
/// levels still allowed.
pub open spec fn dec_value(s: Seq<u8>, depth: nat) -> ParseOutcome
    decreases s.len(), 0nat,
{
    match find_crlf(s) {
        Option::None => ParseOutcome::Incomplete,
        Option::Some(n) => {
            let used0 = n + 2;
            let h = s.subrange(1, n);
            if n == 0 {
                ParseOutcome::Fail { e: ParseError::UnsupportedDataType(13), used: used0 }
            } else {
                let p = s[0];
                if p == 43 {
                    if valid_utf8(h) {
                        ParseOutcome::Done { v: ValueModel::SimpleString(h), used: used0 }
                    } else {
                        ParseOutcome::Fail {
                            e: ParseError::WrongStringByteSequence,
                            used: used0,
                        }
                    }
                } else if p == 45 {
                    if valid_utf8(h) {
                        ParseOutcome::Done { v: ValueModel::SimpleError(h), used: used0 }
                    } else {
                        ParseOutcome::Fail {
                            e: ParseError::WrongStringByteSequence,
                            used: used0,
                        }
                    }
                } else if p == 58 {
                    if i64_literal(h) {
                        ParseOutcome::Done {
                            v: ValueModel::Integer(i64_literal_val(h) as i64),
                            used: used0,
                        }
                    } else {
                        ParseOutcome::Fail { e: ParseError::ExpectedNumber, used: used0 }
                    }
                } else if p == 95 {
                    ParseOutcome::Done { v: ValueModel::Null, used: used0 }
                } else if p == 35 {
                    if h.len() > 0 && h[0] == 116 {
                        ParseOutcome::Done { v: ValueModel::Boolean(true), used: used0 }
                    } else if h.len() > 0 && h[0] == 102 {
                        ParseOutcome::Done { v: ValueModel::Boolean(false), used: used0 }
                    } else {
                        ParseOutcome::Fail { e: ParseError::ExpectedBool, used: used0 }
                    }
                } else if p == 44 {
                    if !valid_utf8(h) {
                        ParseOutcome::Fail {
                            e: ParseError::WrongStringByteSequence,
                            used: used0,
                        }
                    } else if double_literal(h) {
                        ParseOutcome::Done {
                            v: ValueModel::Double(double_canon_of(h)),
                            used: used0,
                        }
                    } else {
                        ParseOutcome::Fail {
                            e: ParseError::WrongFloatingPointFormat,
                            used: used0,
                        }
                    }
                } else if p == 40 {
                    if !valid_utf8(h) {
                        ParseOutcome::Fail {
                            e: ParseError::WrongStringByteSequence,
                            used: used0,
                        }
                    } else if big_literal(h) {
                        ParseOutcome::Done {
                            v: ValueModel::BigNumber(big_canon_of(h)),
                            used: used0,
                        }
                    } else {
                        ParseOutcome::Fail { e: ParseError::WrongBigNumberFormat, used: used0 }
                    }
                } else if p == 36 {
                    if !i64_literal(h) {
                        ParseOutcome::Fail { e: ParseError::ExpectedNumber, used: used0 }
                    } else {
                        let len = i64_literal_val(h);
                        if len == -1 {
                            ParseOutcome::Done { v: ValueModel::Null, used: used0 }
                        } else if len < -1 {
                            ParseOutcome::Fail { e: ParseError::ExpectedNumber, used: used0 }
                        } else if s.len() < used0 + len + 2 {
                            ParseOutcome::Incomplete
                        } else if s[used0 + len] == 13 && s[used0 + len + 1] == 10 {
                            ParseOutcome::Done {
                                v: ValueModel::BulkString(s.subrange(used0, used0 + len)),
                                used: used0 + len + 2,
                            }
                        } else {
                            ParseOutcome::Fail {
                                e: ParseError::MissingSeparator,
                                used: used0 + len + 2,
                            }
                        }
                    }
                } else if p == 33 {
                    if !u64_literal(h) {
                        ParseOutcome::Fail { e: ParseError::ExpectedNumber, used: used0 }
                    } else {
                        let len = u64_literal_val(h);
                        if s.len() < used0 + len + 2 {
                            ParseOutcome::Incomplete
                        } else if s[used0 + len] == 13 && s[used0 + len + 1] == 10 {
                            ParseOutcome::Done {
                                v: ValueModel::BulkError(s.subrange(used0, used0 + len)),
                                used: used0 + len + 2,
                            }
                        } else {
                            ParseOutcome::Fail {
                                e: ParseError::MissingSeparator,
                                used: used0 + len + 2,
                            }
                        }
                    }
                } else if p == 42 {
                    if !u64_literal(h) {
                        ParseOutcome::Fail { e: ParseError::ExpectedNumber, used: used0 }
                    } else if depth == 0 {
                        ParseOutcome::Fail { e: ParseError::NestingTooDeep, used: used0 }
                    } else if used0 < 2 || s.len() < used0 {
                        ParseOutcome::Incomplete
                    } else {
                        match dec_items(
                            s.skip(used0),
                            u64_literal_val(h) as nat,
                            (depth - 1) as nat,
                        ) {
                            ItemsOutcome::Done { vs, used } => ParseOutcome::Done {
                                v: ValueModel::Array(vs),
                                used: used0 + used,
                            },
                            ItemsOutcome::Incomplete => ParseOutcome::Incomplete,
                            ItemsOutcome::Fail { e, used } => ParseOutcome::Fail {
                                e,
                                used: used0 + used,
                            },
                        }
                    }
                } else if p == 37 {
                    if !u64_literal(h) {
                        ParseOutcome::Fail { e: ParseError::ExpectedNumber, used: used0 }
                    } else if depth == 0 {
                        ParseOutcome::Fail { e: ParseError::NestingTooDeep, used: used0 }
                    } else if used0 < 2 || s.len() < used0 {
                        ParseOutcome::Incomplete
                    } else {
                        match dec_items(
                            s.skip(used0),
                            (2 * u64_literal_val(h)) as nat,
                            (depth - 1) as nat,
                        ) {
                            ItemsOutcome::Done { vs, used } => ParseOutcome::Done {
                                v: ValueModel::Mapping(mapping_from_items(Seq::empty(), vs)),
                                used: used0 + used,
                            },
                            ItemsOutcome::Incomplete => ParseOutcome::Incomplete,
                            ItemsOutcome::Fail { e, used } => ParseOutcome::Fail {
                                e,
                                used: used0 + used,
                            },
                        }
                    }
                } else if p == 126 {
                    if !u64_literal(h) {
                        ParseOutcome::Fail { e: ParseError::ExpectedNumber, used: used0 }
                    } else if depth == 0 {
                        ParseOutcome::Fail { e: ParseError::NestingTooDeep, used: used0 }
                    } else if used0 < 2 || s.len() < used0 {
                        ParseOutcome::Incomplete
                    } else {
                        match dec_items(
                            s.skip(used0),
                            u64_literal_val(h) as nat,
                            (depth - 1) as nat,
                        ) {
                            ItemsOutcome::Done { vs, used } => ParseOutcome::Done {
                                v: ValueModel::SetOf(vs),
                                used: used0 + used,
                            },
                            ItemsOutcome::Incomplete => ParseOutcome::Incomplete,
                            ItemsOutcome::Fail { e, used } => ParseOutcome::Fail {
                                e,
                                used: used0 + used,
                            },
                        }
                    }
                } else {
                    ParseOutcome::Fail { e: ParseError::UnsupportedDataType(p), used: used0 }
                }
            }
        },
    }
}

/// The meaning of `n` consecutive frames at the head of `s`.
pub open spec fn dec_items(s: Seq<u8>, n: nat, depth: nat) -> ItemsOutcome
    decreases s.len(), n + 1,
{
    if n == 0 {
        ItemsOutcome::Done { vs: Seq::empty(), used: 0 }
    } else {
        match dec_value(s, depth) {
            ParseOutcome::Done { v, used } => {
                if 1 <= used <= s.len() {
                    match dec_items(s.skip(used), (n - 1) as nat, depth) {
                        ItemsOutcome::Done { vs, used: u2 } => ItemsOutcome::Done {
                            vs: seq![v] + vs,
                            used: used + u2,
                        },
                        ItemsOutcome::Incomplete => ItemsOutcome::Incomplete,
                        ItemsOutcome::Fail { e, used: u2 } => ItemsOutcome::Fail {
                            e,
                            used: used + u2,
                        },
                    }
                } else {
                    ItemsOutcome::Incomplete
                }
            },
            ParseOutcome::Incomplete => ItemsOutcome::Incomplete,
            ParseOutcome::Fail { e, used } => ItemsOutcome::Fail { e, used },
        }
    }
}

/// A finished or failed frame occupies between 2 bytes and the whole prefix.
pub proof fn lemma_dec_value_used(s: Seq<u8>, depth: nat)
    ensures
        match dec_value(s, depth) {
            ParseOutcome::Done { used, .. } => 2 <= used <= s.len(),
            ParseOutcome::Fail { used, .. } => 2 <= used <= s.len(),
            ParseOutcome::Incomplete => true,
        },
    decreases s.len(), 0nat,
{
    lemma_find_crlf(s);
    match find_crlf(s) {
        Option::None => {},
        Option::Some(n) => {
            assert(crlf_at(s, n));
            if n > 0 {
                let p = s[0];
                let h = s.subrange(1, n);
                let used0 = n + 2;
                assert(2 <= used0 <= s.len());
                if p == 33 && u64_literal(h) {
                    crate::num::lemma_digits_val_nonneg(crate::num::strip_sign(h, false));
                    assert(u64_literal_val(h) >= 0);
                }
                if p == 42 || p == 37 || p == 126 {
                    if u64_literal(h) && depth > 0 {
                        let count: nat = if p == 37 {
                            (2 * u64_literal_val(h)) as nat
                        } else {
                            u64_literal_val(h) as nat
                        };
                        lemma_dec_items_used(s.skip(used0), count, (depth - 1) as nat);
                        assert(s.skip(used0).len() == s.len() - used0);
                        match dec_items(s.skip(used0), count, (depth - 1) as nat) {
                            ItemsOutcome::Done { used, .. } => {
                                assert(2 <= used0 + used <= s.len());
                            },
                            ItemsOutcome::Fail { used, .. } => {
                                assert(2 <= used0 + used <= s.len());
                            },
                            ItemsOutcome::Incomplete => {},
                        }
                    }
                }
            }
        },
    }
}

/// A finished or failed run of frames occupies at most the whole prefix.
pub proof fn lemma_dec_items_used(s: Seq<u8>, n: nat, depth: nat)
    ensures
        match dec_items(s, n, depth) {
            ItemsOutcome::Done { used, .. } => 0 <= used <= s.len(),
            ItemsOutcome::Fail { used, .. } => 2 <= used <= s.len(),
            ItemsOutcome::Incomplete => true,
        },
    decreases s.len(), n + 1,
{
    if n > 0 {
        lemma_dec_value_used(s, depth);
        match dec_value(s, depth) {
            ParseOutcome::Done { v, used } => {
                if 1 <= used <= s.len() {
                    lemma_dec_items_used(s.skip(used), (n - 1) as nat, depth);
                }
            },
            _ => {},
        }
    }
}

/// A decode failure is always a protocol error, never a closed or failed
/// connection.
pub proof fn lemma_dec_fail_recoverable(s: Seq<u8>, depth: nat)
    ensures
        dec_value(s, depth) matches ParseOutcome::Fail { e, .. } ==> !(e is ConnectionClosed)
            && !(e is ConnectionError),
    decreases s.len(), 0nat,
{
    match find_crlf(s) {
        Option::None => {},
        Option::Some(n) => {
            if n > 0 {
                let p = s[0];
                let h = s.subrange(1, n);
                let used0 = n + 2;
                if p == 42 || p == 37 || p == 126 {
                    if u64_literal(h) && depth > 0 && !(used0 < 2 || s.len() < used0) {
                        let count: nat = if p == 37 {
                            (2 * u64_literal_val(h)) as nat
                        } else {
                            u64_literal_val(h) as nat
                        };
                        lemma_dec_items_fail_recoverable(s.skip(used0), count, (depth - 1) as nat);
                    }
                }
            }
        },
    }
}

/// A failed run of frames fails with a protocol error.
proof fn lemma_dec_items_fail_recoverable(s: Seq<u8>, n: nat, depth: nat)
    ensures
        dec_items(s, n, depth) matches ItemsOutcome::Fail { e, .. } ==> !(e is ConnectionClosed)
            && !(e is ConnectionError),
    decreases s.len(), n + 1,
{
    if n > 0 {
        lemma_dec_fail_recoverable(s, depth);
        match dec_value(s, depth) {
            ParseOutcome::Done { v, used } => {
                if 1 <= used <= s.len() {
                    lemma_dec_items_fail_recoverable(s.skip(used), (n - 1) as nat, depth);
                }
            },
            _ => {},
        }
    }
}

} // verus!

verus! {

/// A run outcome with earlier items and consumed bytes put in front.
pub open spec fn items_extend(vs0: Seq<ValueModel>, used0: int, rest: ItemsOutcome) -> ItemsOutcome {
    match rest {
        ItemsOutcome::Done { vs, used } => ItemsOutcome::Done { vs: vs0 + vs, used: used0 + used },
        ItemsOutcome::Incomplete => ItemsOutcome::Incomplete,
        ItemsOutcome::Fail { e, used } => ItemsOutcome::Fail { e, used: used0 + used },
    }
}

/// Folding two more items inserts them as one entry at the end.
pub proof fn lemma_mapping_from_items_snoc(
    acc: Seq<(ValueModel, ValueModel)>,
    s: Seq<ValueModel>,
    k: ValueModel,
    v: ValueModel,
)
    requires
        s.len() % 2 == 0,
    ensures
        mapping_from_items(acc, s + seq![k, v]) == mapping_insert(mapping_from_items(acc, s), k, v),
    decreases s.len(),
{
    if s.len() == 0 {
        let t = s + seq![k, v];
        assert(t.len() == 2 && t[0] == k && t[1] == v);
        assert(t.skip(2) =~= Seq::<ValueModel>::empty());
        assert(mapping_from_items(mapping_insert(acc, k, v), t.skip(2)) == mapping_insert(
            acc,
            k,
            v,
        ));
    } else {
        let t = s + seq![k, v];
        assert(t[0] == s[0] && t[1] == s[1]);
        assert(t.skip(2) =~= s.skip(2) + seq![k, v]);
        lemma_mapping_from_items_snoc(mapping_insert(acc, s[0], s[1]), s.skip(2), k, v);
    }
}

/// Where a key lands in a sorted entry list: replacing at `i`, or inserted
/// before `i`.
pub proof fn lemma_mapping_insert_splice(
    m: Seq<(ValueModel, ValueModel)>,
    k: ValueModel,
    v: ValueModel,
    i: int,
)
    requires
        0 <= i <= m.len(),
        forall|j: int| 0 <= j < i ==> val_cmp(k, #[trigger] m[j].0) > 0,
        i < m.len() ==> val_cmp(k, m[i].0) <= 0,
    ensures
        i < m.len() && val_cmp(k, m[i].0) == 0 ==> mapping_insert(m, k, v) == m.update(i, (k, v)),
        (i == m.len() || val_cmp(k, m[i].0) < 0) ==> mapping_insert(m, k, v) == m.insert(
            i,
            (k, v),
        ),
    decreases m.len(),
{
    if i == 0 {
        if m.len() == 0 {
            assert(mapping_insert(m, k, v) =~= m.insert(0, (k, v)));
        } else if val_cmp(k, m[0].0) < 0 {
            assert(mapping_insert(m, k, v) =~= m.insert(0, (k, v)));
        } else if val_cmp(k, m[0].0) == 0 {
            assert(mapping_insert(m, k, v) =~= m.update(0, (k, v)));
        }
    } else {
        assert(val_cmp(k, m[0].0) > 0);
        let r = m.drop_first();
        assert(forall|j: int| 0 <= j < r.len() ==> #[trigger] r[j] == m[j + 1]);
        lemma_mapping_insert_splice(r, k, v, i - 1);
        if i < m.len() && val_cmp(k, m[i].0) == 0 {
            assert(mapping_insert(r, k, v) == r.update(i - 1, (k, v)));
            assert(seq![m[0]] + r.update(i - 1, (k, v)) =~= m.update(i, (k, v)));
        } else if i == m.len() || val_cmp(k, m[i].0) < 0 {
            assert(mapping_insert(r, k, v) == r.insert(i - 1, (k, v)));
            assert(seq![m[0]] + r.insert(i - 1, (k, v)) =~= m.insert(i, (k, v)));
        }
    }
}

/// Insert a key-value pair into a sorted entry vector, keeping it sorted and
/// replacing an order-equal key.
fn insert_mapping(entries: &mut Vec<(Value, Value)>, k: Value, v: Value)
    ensures
        view_of_pairs(final(entries)@) == mapping_insert(
            view_of_pairs(old(entries)@),
            view_of(k),
            view_of(v),
        ),
{
    let ghost m = view_of_pairs(old(entries)@);
    proof {
        lemma_view_of_pairs(old(entries)@);
    }
    let n = entries.len();
    let mut i: usize = 0;
    while i < n
        invariant
            i <= n,
            n == entries@.len(),
            entries@ == old(entries)@,
            m == view_of_pairs(entries@),
            m.len() == n,
            forall|j: int| 0 <= j < n ==> m[j] == (view_of(entries@[j].0), view_of(entries@[j].1)),
            forall|j: int| 0 <= j < i ==> val_cmp(view_of(k), #[trigger] m[j].0) > 0,
        decreases n - i,
    {
        let c = compare_values(&k, &entries[i].0);
        if c == 0 {
            proof {
                lemma_mapping_insert_splice(m, view_of(k), view_of(v), i as int);
            }
            entries.set(i, (k, v));
            proof {
                lemma_view_of_pairs(entries@);
                assert(view_of_pairs(entries@) =~= m.update(i as int, (view_of(k), view_of(v))));
            }
            return;
        }
        if c < 0 {
            proof {
                lemma_mapping_insert_splice(m, view_of(k), view_of(v), i as int);
            }
            entries.insert(i, (k, v));
            proof {
                lemma_view_of_pairs(entries@);
                assert(view_of_pairs(entries@) =~= m.insert(i as int, (view_of(k), view_of(v))));
            }
            return;
        }
        i = i + 1;
    }
    proof {
        lemma_mapping_insert_splice(m, view_of(k), view_of(v), n as int);
    }
    entries.push((k, v));
    proof {
        lemma_view_of_pairs(entries@);
        assert(view_of_pairs(entries@) =~= m.insert(n as int, (view_of(k), view_of(v))));
        assert(m.insert(n as int, (view_of(k), view_of(v))) =~= m.push((view_of(k), view_of(v))));
    }
}

/// What decoding one frame from a reader guarantees: the outcome and the
/// consumed bytes follow `dec_value` on the bytes that were available.
pub open spec fn decode_result_ok(
    pre: Seq<u8>,
    post: Seq<u8>,
    r: Result<Value, ParseError>,
    depth: nat,
) -> bool {
    match dec_value(pre, depth) {
        ParseOutcome::Done { v, used } => {
            &&& r matches Result::Ok(val)
            &&& view_of(val) == v
            &&& post == pre.skip(used)
        },
        ParseOutcome::Incomplete => r == Result::<Value, ParseError>::Err(
            ParseError::ConnectionClosed,
        ),
        ParseOutcome::Fail { e, used } => {
            &&& r == Result::<Value, ParseError>::Err(e)
            &&& post == pre.skip(used)
        },
    }
}

/// Decode one frame with `depth` aggregate levels still allowed.
#[verifier::loop_isolation(false)]
fn decode_value_depth<R: BytesReader>(reader: &mut R, depth: u64) -> (r: Result<
    Value,
    ParseError,
>)
    requires
        old(reader).data().len() <= usize::MAX,
    ensures
        decode_result_ok(old(reader).data(), final(reader).data(), r, depth as nat),
        final(reader).full() == old(reader).full(),
    decreases old(reader).data().len(), 0nat,
{
    let ghost pre = reader.data();
    let line = match reader.read_line() {
        Result::Ok(l) => l,
        Result::Err(e) => {
            return Result::Err(e);
        },
    };
    let ghost n = find_crlf(pre)->Some_0;
    proof {
        lemma_find_crlf(pre);
        assert(crlf_at(pre, n));
    }
    if line.len() == 0 {
        return Result::Err(ParseError::UnsupportedDataType(13));
    }
    let p = line[0];
    let ghost h = pre.subrange(1, n);
    let header: &[u8] = &line.as_slice()[1..line.len()];
    proof {
        assert(line@ == pre.take(n));
        assert(header@ =~= h);
        assert(p == pre[0]);
    }
    if p == 43 {
        if is_valid_utf8(header) {
            Result::Ok(Value::SimpleString(slice_to_vec(header)))
        } else {
            Result::Err(ParseError::WrongStringByteSequence)
        }
    } else if p == 45 {
        if is_valid_utf8(header) {
            Result::Ok(Value::SimpleError(slice_to_vec(header)))
        } else {
            Result::Err(ParseError::WrongStringByteSequence)
        }
    } else if p == 58 {
        match parse_i64(header) {
            Option::Some(i) => Result::Ok(Value::Integer(i)),
            Option::None => Result::Err(ParseError::ExpectedNumber),
        }
    } else if p == 95 {
        Result::Ok(Value::Null)
    } else if p == 35 {
        if header.len() > 0 && header[0] == 116 {
            Result::Ok(Value::Boolean(true))
        } else if header.len() > 0 && header[0] == 102 {
            Result::Ok(Value::Boolean(false))
        } else {
            Result::Err(ParseError::ExpectedBool)
        }
    } else if p == 44 {
        if !is_valid_utf8(header) {
            Result::Err(ParseError::WrongStringByteSequence)
        } else {
            match classify_double(header) {
                Option::Some(c) => Result::Ok(Value::Double(c)),
                Option::None => Result::Err(ParseError::WrongFloatingPointFormat),
            }
        }
    } else if p == 40 {
        if !is_valid_utf8(header) {
            Result::Err(ParseError::WrongStringByteSequence)
        } else {
            match big_number_from_wire(header) {
                Option::Some(c) => Result::Ok(Value::BigNumber(c)),
                Option::None => Result::Err(ParseError::WrongBigNumberFormat),
            }
        }
    } else if p == 36 {
        let len64 = match parse_i64(header) {
            Option::Some(l) => l,
            Option::None => {
                return Result::Err(ParseError::ExpectedNumber);
            },
        };
        if len64 == -1 {
            return Result::Ok(Value::Null);
        }
        if len64 < -1 {
            return Result::Err(ParseError::ExpectedNumber);
        }
        if (len64 as u64) > (usize::MAX - 2) as u64 {
            return Result::Err(ParseError::ConnectionClosed);
        }
        let l = len64 as usize;
        let want = l + 2;
        let chunk = match reader.read_bytes(want) {
            Result::Ok(c) => c,
            Result::Err(e) => {
                return Result::Err(e);
            },
        };
        proof {
            assert(forall|j: int|
                0 <= j < chunk@.len() ==> #[trigger] chunk@[j] == pre[n + 2 + j]);
        }
        if chunk[l] == 13 && chunk[l + 1] == 10 {
            let payload = slice_to_vec(&chunk.as_slice()[0..l]);
            proof {
                assert(payload@ =~= pre.subrange(n + 2, n + 2 + l));
                assert(pre.skip(n + 2).skip(want as int) =~= pre.skip(n + 2 + want));
            }
            Result::Ok(Value::BulkString(payload))
        } else {
            proof {
                assert(pre.skip(n + 2).skip(want as int) =~= pre.skip(n + 2 + want));
            }
            Result::Err(ParseError::MissingSeparator)
        }
    } else if p == 33 {
        let len64 = match parse_u64(header) {
            Option::Some(l) => l,
            Option::None => {
                return Result::Err(ParseError::ExpectedNumber);
            },
        };
        if len64 > (usize::MAX - 2) as u64 {
            return Result::Err(ParseError::ConnectionClosed);
        }
        let l = len64 as usize;
        let want = l + 2;
        let chunk = match reader.read_bytes(want) {
            Result::Ok(c) => c,
            Result::Err(e) => {
                return Result::Err(e);
            },
        };
        proof {
            assert(forall|j: int|
                0 <= j < chunk@.len() ==> #[trigger] chunk@[j] == pre[n + 2 + j]);
        }
        if chunk[l] == 13 && chunk[l + 1] == 10 {
            let payload = slice_to_vec(&chunk.as_slice()[0..l]);
            proof {
                assert(payload@ =~= pre.subrange(n + 2, n + 2 + l));
                assert(pre.skip(n + 2).skip(want as int) =~= pre.skip(n + 2 + want));
            }
            Result::Ok(Value::BulkError(payload))
        } else {
            proof {
                assert(pre.skip(n + 2).skip(want as int) =~= pre.skip(n + 2 + want));
            }
            Result::Err(ParseError::MissingSeparator)
        }
    } else if p == 42 {
        let count = match parse_u64(header) {
            Option::Some(c) => c,
            Option::None => {
                return Result::Err(ParseError::ExpectedNumber);
            },
        };
        if depth == 0 {
            return Result::Err(ParseError::NestingTooDeep);
        }
        match decode_seq(reader, count, depth - 1) {
            Result::Ok(items) => {
                proof {
                    finish_aggregate_proof(pre, n, count as nat, (depth - 1) as nat);
                }
                Result::Ok(Value::Array(items))
            },
            Result::Err(e) => {
                proof {
                    finish_aggregate_proof(pre, n, count as nat, (depth - 1) as nat);
                }
                Result::Err(e)
            },
        }
    } else if p == 37 {
        let count = match parse_u64(header) {
            Option::Some(c) => c,
            Option::None => {
                return Result::Err(ParseError::ExpectedNumber);
            },
        };
        if depth == 0 {
            return Result::Err(ParseError::NestingTooDeep);
        }
        match decode_mapping(reader, count, depth - 1) {
            Result::Ok(entries) => {
                proof {
                    finish_aggregate_proof(pre, n, (2 * count) as nat, (depth - 1) as nat);
                }
                Result::Ok(Value::Mapping(entries))
            },
            Result::Err(e) => {
                proof {
                    finish_aggregate_proof(pre, n, (2 * count) as nat, (depth - 1) as nat);
                }
                Result::Err(e)
            },
        }
    } else if p == 126 {
        let count = match parse_u64(header) {
            Option::Some(c) => c,
            Option::None => {
                return Result::Err(ParseError::ExpectedNumber);
            },
        };
        if depth == 0 {
            return Result::Err(ParseError::NestingTooDeep);
        }
        match decode_seq(reader, count, depth - 1) {
            Result::Ok(items) => {
                proof {
                    finish_aggregate_proof(pre, n, count as nat, (depth - 1) as nat);
                }
                Result::Ok(Value::SetOf(items))
            },
            Result::Err(e) => {
                proof {
                    finish_aggregate_proof(pre, n, count as nat, (depth - 1) as nat);
                }
                Result::Err(e)
            },
        }
    } else {
        Result::Err(ParseError::UnsupportedDataType(p))
    }
}

/// Bounds and skip algebra shared by the three aggregate arms.
proof fn finish_aggregate_proof(pre: Seq<u8>, n: int, count: nat, depth: nat)
    requires
        crlf_at(pre, n),
    ensures
        match dec_items(pre.skip(n + 2), count, depth) {
            ItemsOutcome::Done { used, .. } => pre.skip(n + 2).skip(used) == pre.skip(
                n + 2 + used,
            ),
            ItemsOutcome::Fail { used, .. } => pre.skip(n + 2).skip(used) == pre.skip(
                n + 2 + used,
            ),
            ItemsOutcome::Incomplete => true,
        },
{
    lemma_dec_items_used(pre.skip(n + 2), count, depth);
    match dec_items(pre.skip(n + 2), count, depth) {
        ItemsOutcome::Done { used, .. } => {
            assert(pre.skip(n + 2).skip(used) =~= pre.skip(n + 2 + used));
        },
        ItemsOutcome::Fail { used, .. } => {
            assert(pre.skip(n + 2).skip(used) =~= pre.skip(n + 2 + used));
        },
        ItemsOutcome::Incomplete => {},
    }
}

/// Decode `count` consecutive frames.
#[verifier::loop_isolation(false)]
fn decode_seq<R: BytesReader>(reader: &mut R, count: u64, depth: u64) -> (r: Result<
    Vec<Value>,
    ParseError,
>)
    requires
        old(reader).data().len() <= usize::MAX,
    ensures
        match dec_items(old(reader).data(), count as nat, depth as nat) {
            ItemsOutcome::Done { vs, used } => {
                &&& r matches Result::Ok(items)
                &&& view_of_seq(items@) == vs
                &&& final(reader).data() == old(reader).data().skip(used)
            },
            ItemsOutcome::Incomplete => r == Result::<Vec<Value>, ParseError>::Err(
                ParseError::ConnectionClosed,
            ),
            ItemsOutcome::Fail { e, used } => {
                &&& r == Result::<Vec<Value>, ParseError>::Err(e)
                &&& final(reader).data() == old(reader).data().skip(used)
            },
        },
        final(reader).full() == old(reader).full(),
    decreases old(reader).data().len(), count + 1nat,
{
    let ghost pre = reader.data();
    let mut items: Vec<Value> = Vec::new();
    let ghost mut used_acc: int = 0;
    let mut i: u64 = 0;
    proof {
        assert(pre.skip(0) =~= pre);
        assert(view_of_seq(items@) =~= Seq::<ValueModel>::empty());
    }
    while i < count
        invariant
            i <= count,
            0 <= used_acc <= pre.len(),
            reader.data() == pre.skip(used_acc),
            reader.full() == old(reader).full(),
            view_of_seq(items@).len() == i,
            dec_items(pre, count as nat, depth as nat) == items_extend(
                view_of_seq(items@),
                used_acc,
                dec_items(reader.data(), (count - i) as nat, depth as nat),
            ),
        decreases count - i,
    {
        let ghost cur = reader.data();
        proof {
            lemma_view_of_seq(items@);
            lemma_dec_value_used(cur, depth as nat);
        }
        match decode_value_depth(reader, depth) {
            Result::Ok(v) => {
                let ghost u1 = dec_value(cur, depth as nat)->Done_used;
                proof {
                    let rest = dec_items(cur.skip(u1), (count - i - 1) as nat, depth as nat);
                    lemma_view_of_seq_push(items@, v);
                    assert(view_of_seq(items@) + seq![view_of(v)] + match rest {
                        ItemsOutcome::Done { vs, .. } => vs,
                        _ => Seq::<ValueModel>::empty(),
                    } =~= view_of_seq(items@) + (seq![view_of(v)] + match rest {
                        ItemsOutcome::Done { vs, .. } => vs,
                        _ => Seq::<ValueModel>::empty(),
                    }));
                    used_acc = used_acc + u1;
                    assert(pre.skip(used_acc - u1).skip(u1) =~= pre.skip(used_acc));
                }
                items.push(v);
                i = i + 1;
            },
            Result::Err(e) => {
                let ghost u1 = dec_value(cur, depth as nat)->Fail_used;
                proof {
                    if dec_value(cur, depth as nat) is Fail {
                        assert(cur.skip(u1) =~= pre.skip(used_acc + u1));
                    }
                }
                return Result::Err(e);
            },
        }
    }
    proof {
        assert(view_of_seq(items@) + Seq::<ValueModel>::empty() =~= view_of_seq(items@));
    }
    Result::Ok(items)
}

/// Decode `count` key-value pairs into sorted map entries.
#[verifier::loop_isolation(false)]
#[verifier::rlimit(60)]
fn decode_mapping<R: BytesReader>(reader: &mut R, count: u64, depth: u64) -> (r: Result<
    Vec<(Value, Value)>,
    ParseError,
>)
    requires
        old(reader).data().len() <= usize::MAX,
    ensures
        match dec_items(old(reader).data(), (2 * count) as nat, depth as nat) {
            ItemsOutcome::Done { vs, used } => {
                &&& r matches Result::Ok(entries)
                &&& view_of_pairs(entries@) == mapping_from_items(Seq::empty(), vs)
                &&& final(reader).data() == old(reader).data().skip(used)
            },
            ItemsOutcome::Incomplete => r == Result::<Vec<(Value, Value)>, ParseError>::Err(
                ParseError::ConnectionClosed,
            ),
            ItemsOutcome::Fail { e, used } => {
                &&& r == Result::<Vec<(Value, Value)>, ParseError>::Err(e)
                &&& final(reader).data() == old(reader).data().skip(used)
            },
        },
        final(reader).full() == old(reader).full(),
    decreases old(reader).data().len(), count + 1nat,
{
    let ghost pre = reader.data();
    let mut entries: Vec<(Value, Value)> = Vec::new();
    let ghost mut vs0: Seq<ValueModel> = Seq::empty();
    let ghost mut used_acc: int = 0;
    let mut i: u64 = 0;
    proof {
        assert(pre.skip(0) =~= pre);
        assert(view_of_pairs(entries@) =~= Seq::<(ValueModel, ValueModel)>::empty());
    }
    while i < count
        invariant
            i <= count,
            0 <= used_acc <= pre.len(),
            reader.data() == pre.skip(used_acc),
            reader.full() == old(reader).full(),
            vs0.len() == 2 * i,
            view_of_pairs(entries@) == mapping_from_items(Seq::empty(), vs0),
            dec_items(pre, (2 * count) as nat, depth as nat) == items_extend(
                vs0,
                used_acc,
                dec_items(reader.data(), (2 * (count - i)) as nat, depth as nat),
            ),
        decreases count - i,
    {
        let ghost cur0 = reader.data();
        let ghost m: nat = (2 * (count - i)) as nat;
        proof {
            lemma_dec_value_used(cur0, depth as nat);
        }
        let key = match decode_value_depth(reader, depth) {
            Result::Ok(k) => k,
            Result::Err(e) => {
                proof {
                    match dec_value(cur0, depth as nat) {
                        ParseOutcome::Incomplete => {
                            assert(dec_items(cur0, m, depth as nat) is Incomplete);
                        },
                        ParseOutcome::Fail { e: e0, used: u } => {
                            assert(dec_items(cur0, m, depth as nat) == ItemsOutcome::Fail {
                                e: e0,
                                used: u,
                            });
                            assert(cur0.skip(u) =~= pre.skip(used_acc + u));
                        },
                        ParseOutcome::Done { .. } => {
                            assert(false);
                        },
                    }
                }
                return Result::Err(e);
            },
        };
        let ghost u1 = dec_value(cur0, depth as nat)->Done_used;
        let ghost cur1 = reader.data();
        proof {
            assert(cur1 == cur0.skip(u1));
            assert(dec_items(cur0, m, depth as nat) == items_extend(
                seq![view_of(key)],
                u1,
                dec_items(cur1, (m - 1) as nat, depth as nat),
            ));
            lemma_dec_value_used(cur1, depth as nat);
        }
        let val = match decode_value_depth(reader, depth) {
            Result::Ok(v) => v,
            Result::Err(e) => {
                proof {
                    match dec_value(cur1, depth as nat) {
                        ParseOutcome::Incomplete => {
                            assert(dec_items(cur1, (m - 1) as nat, depth as nat) is Incomplete);
                        },
                        ParseOutcome::Fail { e: e0, used: u } => {
                            assert(dec_items(cur1, (m - 1) as nat, depth as nat)
                                == ItemsOutcome::Fail { e: e0, used: u });
                            assert(cur1.skip(u) =~= pre.skip(used_acc + u1 + u));
                        },
                        ParseOutcome::Done { .. } => {
                            assert(false);
                        },
                    }
                }
                return Result::Err(e);
            },
        };
        let ghost u2 = dec_value(cur1, depth as nat)->Done_used;
        let ghost cur2 = reader.data();
        proof {
            assert(cur2 == cur1.skip(u2));
            assert(dec_items(cur1, (m - 1) as nat, depth as nat) == items_extend(
                seq![view_of(val)],
                u2,
                dec_items(cur2, (m - 2) as nat, depth as nat),
            ));
            lemma_mapping_from_items_snoc(Seq::empty(), vs0, view_of(key), view_of(val));
        }
        insert_mapping(&mut entries, key, val);
        proof {
            let old_vs0 = vs0;
            vs0 = vs0 + seq![view_of(key), view_of(val)];
            used_acc = used_acc + u1 + u2;
            assert(cur1.skip(u2) =~= pre.skip(used_acc));
            assert((m - 2) as nat == (2 * (count - (i + 1))) as nat);
            let rest = dec_items(cur2, (m - 2) as nat, depth as nat);
            match rest {
                ItemsOutcome::Done { vs, used } => {
                    assert(old_vs0 + (seq![view_of(key)] + (seq![view_of(val)] + vs)) =~= vs0
                        + vs);
                },
                ItemsOutcome::Incomplete => {},
                ItemsOutcome::Fail { e, used } => {},
            }
        }
        i = i + 1;
    }
    proof {
        assert(vs0 + Seq::<ValueModel>::empty() =~= vs0);
    }
    Result::Ok(entries)
}

impl Value {
    /// Decode one RESP3 frame from `reader`; the outcome, the value and the
    /// bytes consumed follow `dec_value` on the bytes that were available.
    pub fn from_bytes<R: BytesReader>(reader: &mut R) -> (r: Result<Value, ParseError>)
        requires
            old(reader).data().len() <= usize::MAX,
        ensures
            decode_result_ok(
                old(reader).data(),
                final(reader).data(),
                r,
                MAX_DEPTH as nat,
            ),
            final(reader).full() == old(reader).full(),
    {
        decode_value_depth(reader, MAX_DEPTH)
    }
}

} // verus!
