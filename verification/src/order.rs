//! The total order over RESP3 values: by kind first, then by payload. Map
//! encoding emits entries in this order, and map decoding keeps entries
//! sorted by it. The byte-wise order on double payloads places `nan` above
//! every other double, since only `nan` begins with the byte `n`.

use vstd::prelude::*;
use crate::value::Value;
use crate::value::ValueModel;
use crate::value::view_of;
use crate::value::view_of_seq;
use crate::value::view_of_pairs;
use crate::value::lemma_view_of_seq;
use crate::value::lemma_view_of_pairs;

verus! {

/// Rank of a value's kind, in declaration order.
pub open spec fn kind_rank(m: ValueModel) -> int {
    match m {
        ValueModel::SimpleString(_) => 0,
        ValueModel::SimpleError(_) => 1,
        ValueModel::Integer(_) => 2,
        ValueModel::BulkString(_) => 3,
        ValueModel::Array(_) => 4,
        ValueModel::Null => 5,
        ValueModel::Boolean(_) => 6,
        ValueModel::Double(_) => 7,
        ValueModel::BigNumber(_) => 8,
        ValueModel::BulkError(_) => 9,
        ValueModel::Mapping(_) => 10,
        ValueModel::SetOf(_) => 11,
    }
}

/// Three-way order of two integers.
pub open spec fn int_cmp(a: int, b: int) -> int {
    if a < b {
        -1
    } else if a > b {
        1
    } else {
        0
    }
}

/// Three-way lexicographic order of byte strings.
pub open spec fn bytes_cmp(a: Seq<u8>, b: Seq<u8>) -> int
    decreases a.len(),
{
    if a.len() == 0 && b.len() == 0 {
        0
    } else if a.len() == 0 {
        -1
    } else if b.len() == 0 {
        1
    } else if a[0] < b[0] {
        -1
    } else if a[0] > b[0] {
        1
    } else {
        bytes_cmp(a.drop_first(), b.drop_first())
    }
}

/// Order of two unsigned canonical decimals: by length, then by digits.
pub open spec fn mag_cmp(a: Seq<u8>, b: Seq<u8>) -> int {
    if a.len() < b.len() {
        -1
    } else if a.len() > b.len() {
        1
    } else {
        bytes_cmp(a, b)
    }
}

/// Numeric order of two canonical decimals: sign first, then magnitude.
pub open spec fn big_cmp(a: Seq<u8>, b: Seq<u8>) -> int {
    let an = a.len() > 0 && a[0] == 45;
    let bn = b.len() > 0 && b[0] == 45;
    if an && !bn {
        -1
    } else if !an && bn {
        1
    } else if !an && !bn {
        mag_cmp(a, b)
    } else {
        0 - mag_cmp(a.drop_first(), b.drop_first())
    }
}

/// Order of two booleans: false below true.
pub open spec fn bool_cmp(a: bool, b: bool) -> int {
    if a == b {
        0
    } else if !a {
        -1
    } else {
        1
    }
}

/// Three-way order of two values: kind rank first, then the payload.
pub open spec fn val_cmp(a: ValueModel, b: ValueModel) -> int
    decreases a,
{
    if kind_rank(a) != kind_rank(b) {
        int_cmp(kind_rank(a), kind_rank(b))
    } else {
        match (a, b) {
            (ValueModel::SimpleString(x), ValueModel::SimpleString(y)) => bytes_cmp(x, y),
            (ValueModel::SimpleError(x), ValueModel::SimpleError(y)) => bytes_cmp(x, y),
            (ValueModel::Integer(x), ValueModel::Integer(y)) => int_cmp(x as int, y as int),
            (ValueModel::BulkString(x), ValueModel::BulkString(y)) => bytes_cmp(x, y),
            (ValueModel::Array(x), ValueModel::Array(y)) => list_cmp(x, y),
            (ValueModel::Null, ValueModel::Null) => 0,
            (ValueModel::Boolean(x), ValueModel::Boolean(y)) => bool_cmp(x, y),
            (ValueModel::Double(x), ValueModel::Double(y)) => bytes_cmp(x, y),
            (ValueModel::BigNumber(x), ValueModel::BigNumber(y)) => big_cmp(x, y),
            (ValueModel::BulkError(x), ValueModel::BulkError(y)) => bytes_cmp(x, y),
            (ValueModel::Mapping(x), ValueModel::Mapping(y)) => pairs_cmp(x, y),
            (ValueModel::SetOf(x), ValueModel::SetOf(y)) => list_cmp(x, y),
            _ => 0,
        }
    }
}

/// Lexicographic order of two value sequences.
pub open spec fn list_cmp(x: Seq<ValueModel>, y: Seq<ValueModel>) -> int
    decreases x,
{
    if x.len() == 0 && y.len() == 0 {
        0
    } else if x.len() == 0 {
        -1
    } else if y.len() == 0 {
        1
    } else {
        let c = val_cmp(x[0], y[0]);
        if c != 0 {
            c
        } else {
            list_cmp(x.drop_first(), y.drop_first())
        }
    }
}

/// Lexicographic order of two pair sequences, keys before values.
pub open spec fn pairs_cmp(
    x: Seq<(ValueModel, ValueModel)>,
    y: Seq<(ValueModel, ValueModel)>,
) -> int
    decreases x,
{
    if x.len() == 0 && y.len() == 0 {
        0
    } else if x.len() == 0 {
        -1
    } else if y.len() == 0 {
        1
    } else {
        let c = val_cmp(x[0].0, y[0].0);
        if c != 0 {
            c
        } else {
            let d = val_cmp(x[0].1, y[0].1);
            if d != 0 {
                d
            } else {
                pairs_cmp(x.drop_first(), y.drop_first())
            }
        }
    }
}

/// A byte-string comparison is one of three values.
pub proof fn lemma_bytes_cmp_range(a: Seq<u8>, b: Seq<u8>)
    ensures
        -1 <= bytes_cmp(a, b) <= 1,
    decreases a.len(),
{
    if a.len() > 0 && b.len() > 0 && a[0] == b[0] {
        lemma_bytes_cmp_range(a.drop_first(), b.drop_first());
    }
}

/// Swapping the byte strings flips the order.
pub proof fn lemma_bytes_cmp_flip(a: Seq<u8>, b: Seq<u8>)
    ensures
        bytes_cmp(a, b) == 0 - bytes_cmp(b, a),
    decreases a.len(),
{
    if a.len() > 0 && b.len() > 0 && a[0] == b[0] {
        lemma_bytes_cmp_flip(a.drop_first(), b.drop_first());
    }
}

/// Swapping the values flips the order.
pub proof fn lemma_val_cmp_flip(a: ValueModel, b: ValueModel)
    ensures
        val_cmp(a, b) == 0 - val_cmp(b, a),
    decreases a,
{
    if kind_rank(a) == kind_rank(b) {
        match (a, b) {
            (ValueModel::SimpleString(x), ValueModel::SimpleString(y)) => {
                lemma_bytes_cmp_flip(x, y);
            },
            (ValueModel::SimpleError(x), ValueModel::SimpleError(y)) => {
                lemma_bytes_cmp_flip(x, y);
            },
            (ValueModel::BulkString(x), ValueModel::BulkString(y)) => {
                lemma_bytes_cmp_flip(x, y);
            },
            (ValueModel::Array(x), ValueModel::Array(y)) => {
                lemma_list_cmp_flip(x, y);
            },
            (ValueModel::Double(x), ValueModel::Double(y)) => {
                lemma_bytes_cmp_flip(x, y);
            },
            (ValueModel::BigNumber(x), ValueModel::BigNumber(y)) => {
                lemma_bytes_cmp_flip(x, y);
                lemma_bytes_cmp_flip(x.drop_first(), y.drop_first());
            },
            (ValueModel::BulkError(x), ValueModel::BulkError(y)) => {
                lemma_bytes_cmp_flip(x, y);
            },
            (ValueModel::Mapping(x), ValueModel::Mapping(y)) => {
                lemma_pairs_cmp_flip(x, y);
            },
            (ValueModel::SetOf(x), ValueModel::SetOf(y)) => {
                lemma_list_cmp_flip(x, y);
            },
            _ => {},
        }
    }
}

/// Swapping the sequences flips the order.
pub proof fn lemma_list_cmp_flip(x: Seq<ValueModel>, y: Seq<ValueModel>)
    ensures
        list_cmp(x, y) == 0 - list_cmp(y, x),
    decreases x,
{
    if x.len() > 0 && y.len() > 0 {
        lemma_val_cmp_flip(x[0], y[0]);
        if val_cmp(x[0], y[0]) == 0 {
            lemma_list_cmp_flip(x.drop_first(), y.drop_first());
        }
    }
}

/// Swapping the pair sequences flips the order.
pub proof fn lemma_pairs_cmp_flip(
    x: Seq<(ValueModel, ValueModel)>,
    y: Seq<(ValueModel, ValueModel)>,
)
    ensures
        pairs_cmp(x, y) == 0 - pairs_cmp(y, x),
    decreases x,
{
    if x.len() > 0 && y.len() > 0 {
        lemma_val_cmp_flip(x[0].0, y[0].0);
        if val_cmp(x[0].0, y[0].0) == 0 {
            lemma_val_cmp_flip(x[0].1, y[0].1);
            if val_cmp(x[0].1, y[0].1) == 0 {
                lemma_pairs_cmp_flip(x.drop_first(), y.drop_first());
            }
        }
    }
}

/// Lexicographic comparison of two byte strings.
fn bytes_compare(a: &[u8], b: &[u8]) -> (c: i8)
    ensures
        c as int == bytes_cmp(a@, b@),
{
    let an = a.len();
    let bn = b.len();
    let mut i: usize = 0;
    proof {
        assert(a@.skip(0) =~= a@);
        assert(b@.skip(0) =~= b@);
    }
    while i < an && i < bn
        invariant
            an == a@.len(),
            bn == b@.len(),
            i <= an,
            i <= bn,
            bytes_cmp(a@, b@) == bytes_cmp(a@.skip(i as int), b@.skip(i as int)),
        decreases an - i,
    {
        let x = a[i];
        let y = b[i];
        proof {
            let sa = a@.skip(i as int);
            let sb = b@.skip(i as int);
            assert(sa[0] == a@[i as int] && sb[0] == b@[i as int]);
            assert(sa.drop_first() =~= a@.skip(i + 1));
            assert(sb.drop_first() =~= b@.skip(i + 1));
        }
        if x < y {
            return -1;
        }
        if x > y {
            return 1;
        }
        i = i + 1;
    }
    proof {
        assert(a@.skip(i as int).len() == an - i);
        assert(b@.skip(i as int).len() == bn - i);
    }
    if an == bn {
        0
    } else if an < bn {
        -1
    } else {
        1
    }
}

/// Comparison of two signed 64-bit integers.
fn i64_compare(a: i64, b: i64) -> (c: i8)
    ensures
        c as int == int_cmp(a as int, b as int),
{
    if a < b {
        -1
    } else if a > b {
        1
    } else {
        0
    }
}

/// Numeric comparison of two canonical decimals.
fn big_compare(a: &[u8], b: &[u8]) -> (c: i8)
    ensures
        c as int == big_cmp(a@, b@),
{
    let an = a.len() > 0 && a[0] == 45;
    let bn = b.len() > 0 && b[0] == 45;
    if an && !bn {
        -1
    } else if !an && bn {
        1
    } else if !an && !bn {
        if a.len() < b.len() {
            -1
        } else if a.len() > b.len() {
            1
        } else {
            bytes_compare(a, b)
        }
    } else {
        let at: &[u8] = &a[1..a.len()];
        let bt: &[u8] = &b[1..b.len()];
        proof {
            assert(at@ =~= a@.drop_first());
            assert(bt@ =~= b@.drop_first());
        }
        let m: i8 = if at.len() < bt.len() {
            -1
        } else if at.len() > bt.len() {
            1
        } else {
            bytes_compare(at, bt)
        };
        proof {
            lemma_bytes_cmp_range(at@, bt@);
            assert(m as int == mag_cmp(a@.drop_first(), b@.drop_first()));
        }
        if m == -1 {
            1
        } else if m == 1 {
            -1
        } else {
            0
        }
    }
}

/// Rank of a value's kind, computed.
fn rank_of(v: &Value) -> (r: u8)
    ensures
        r as int == kind_rank(v@),
{
    match v {
        Value::SimpleString(_) => 0,
        Value::SimpleError(_) => 1,
        Value::Integer(_) => 2,
        Value::BulkString(_) => 3,
        Value::Array(_) => 4,
        Value::Null => 5,
        Value::Boolean(_) => 6,
        Value::Double(_) => 7,
        Value::BigNumber(_) => 8,
        Value::BulkError(_) => 9,
        Value::Mapping(_) => 10,
        Value::SetOf(_) => 11,
    }
}

/// Lexicographic comparison of two value sequences.
fn list_compare(x: &Vec<Value>, y: &Vec<Value>) -> (c: i8)
    ensures
        c as int == list_cmp(view_of_seq(x@), view_of_seq(y@)),
    decreases x@,
{
    let xn = x.len();
    let yn = y.len();
    let mut i: usize = 0;
    proof {
        lemma_view_of_seq(x@);
        lemma_view_of_seq(y@);
        assert(view_of_seq(x@).skip(0) =~= view_of_seq(x@));
        assert(view_of_seq(y@).skip(0) =~= view_of_seq(y@));
    }
    while i < xn && i < yn
        invariant
            xn == x@.len(),
            yn == y@.len(),
            i <= xn,
            i <= yn,
            view_of_seq(x@).len() == xn,
            view_of_seq(y@).len() == yn,
            forall|j: int| 0 <= j < xn ==> view_of_seq(x@)[j] == view_of(x@[j]),
            forall|j: int| 0 <= j < yn ==> view_of_seq(y@)[j] == view_of(y@[j]),
            list_cmp(view_of_seq(x@), view_of_seq(y@)) == list_cmp(
                view_of_seq(x@).skip(i as int),
                view_of_seq(y@).skip(i as int),
            ),
        decreases xn - i,
    {
        let c = compare_values(&x[i], &y[i]);
        proof {
            let sx = view_of_seq(x@).skip(i as int);
            let sy = view_of_seq(y@).skip(i as int);
            assert(sx[0] == view_of_seq(x@)[i as int]);
            assert(sy[0] == view_of_seq(y@)[i as int]);
            assert(sx.drop_first() =~= view_of_seq(x@).skip(i + 1));
            assert(sy.drop_first() =~= view_of_seq(y@).skip(i + 1));
        }
        if c != 0 {
            return c;
        }
        i = i + 1;
    }
    proof {
        assert(view_of_seq(x@).skip(i as int).len() == xn - i);
        assert(view_of_seq(y@).skip(i as int).len() == yn - i);
    }
    if xn == yn {
        0
    } else if xn < yn {
        -1
    } else {
        1
    }
}

/// Lexicographic comparison of two pair sequences.
fn pairs_compare(x: &Vec<(Value, Value)>, y: &Vec<(Value, Value)>) -> (c: i8)
    ensures
        c as int == pairs_cmp(view_of_pairs(x@), view_of_pairs(y@)),
    decreases x@,
{
    let xn = x.len();
    let yn = y.len();
    let mut i: usize = 0;
    proof {
        lemma_view_of_pairs(x@);
        lemma_view_of_pairs(y@);
        assert(view_of_pairs(x@).skip(0) =~= view_of_pairs(x@));
        assert(view_of_pairs(y@).skip(0) =~= view_of_pairs(y@));
    }
    while i < xn && i < yn
        invariant
            xn == x@.len(),
            yn == y@.len(),
            i <= xn,
            i <= yn,
            view_of_pairs(x@).len() == xn,
            view_of_pairs(y@).len() == yn,
            forall|j: int|
                0 <= j < xn ==> view_of_pairs(x@)[j] == (view_of(x@[j].0), view_of(x@[j].1)),
            forall|j: int|
                0 <= j < yn ==> view_of_pairs(y@)[j] == (view_of(y@[j].0), view_of(y@[j].1)),
            pairs_cmp(view_of_pairs(x@), view_of_pairs(y@)) == pairs_cmp(
                view_of_pairs(x@).skip(i as int),
                view_of_pairs(y@).skip(i as int),
            ),
        decreases xn - i,
    {
        let c = compare_values(&x[i].0, &y[i].0);
        let ghost sx = view_of_pairs(x@).skip(i as int);
        let ghost sy = view_of_pairs(y@).skip(i as int);
        proof {
            assert(sx[0] == view_of_pairs(x@)[i as int]);
            assert(sy[0] == view_of_pairs(y@)[i as int]);
            assert(sx.drop_first() =~= view_of_pairs(x@).skip(i + 1));
            assert(sy.drop_first() =~= view_of_pairs(y@).skip(i + 1));
        }
        if c != 0 {
            return c;
        }
        let d = compare_values(&x[i].1, &y[i].1);
        if d != 0 {
            return d;
        }
        i = i + 1;
    }
    proof {
        assert(view_of_pairs(x@).skip(i as int).len() == xn - i);
        assert(view_of_pairs(y@).skip(i as int).len() == yn - i);
    }
    if xn == yn {
        0
    } else if xn < yn {
        -1
    } else {
        1
    }
}

/// Three-way comparison of two values in the value order.
pub fn compare_values(a: &Value, b: &Value) -> (c: i8)
    ensures
        c as int == val_cmp(a@, b@),
    decreases *a,
{
    let ra = rank_of(a);
    let rb = rank_of(b);
    if ra < rb {
        return -1;
    }
    if ra > rb {
        return 1;
    }
    match (a, b) {
        (Value::SimpleString(x), Value::SimpleString(y)) => bytes_compare(
            x.as_slice(),
            y.as_slice(),
        ),
        (Value::SimpleError(x), Value::SimpleError(y)) => bytes_compare(
            x.as_slice(),
            y.as_slice(),
        ),
        (Value::Integer(x), Value::Integer(y)) => i64_compare(*x, *y),
        (Value::BulkString(x), Value::BulkString(y)) => bytes_compare(x.as_slice(), y.as_slice()),
        (Value::Array(x), Value::Array(y)) => list_compare(x, y),
        (Value::Null, Value::Null) => 0,
        (Value::Boolean(x), Value::Boolean(y)) => {
            if x == y {
                0
            } else if !*x {
                -1
            } else {
                1
            }
        },
        (Value::Double(x), Value::Double(y)) => bytes_compare(x.as_slice(), y.as_slice()),
        (Value::BigNumber(x), Value::BigNumber(y)) => big_compare(x.as_slice(), y.as_slice()),
        (Value::BulkError(x), Value::BulkError(y)) => bytes_compare(x.as_slice(), y.as_slice()),
        (Value::Mapping(x), Value::Mapping(y)) => pairs_compare(x, y),
        (Value::SetOf(x), Value::SetOf(y)) => list_compare(x, y),
        _ => {
            proof {
                assert(false);
            }
            0
        },
    }
}

} // verus!
