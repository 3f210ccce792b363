//! Per-row decoding: the serial-type classifier and the record decoder
//! that turns a cell payload into an ordered sequence of typed column
//! values.

use vstd::prelude::*;

use crate::error::Error;
use crate::varint;

verus! {

use vstd::slice::{slice_subrange, slice_to_vec};

/// A column's storage class, derived from its serial-type code: a
/// fixed-width signed integer, a float (kept as raw bits), one of two
/// constants, NULL, or a length-prefixed blob or text.
#[derive(Debug, Clone, Copy, PartialEq, Eq, Structural)]
pub enum ColumnType {
    Null,
    I8,
    I16,
    I24,
    I32,
    I48,
    I64,
    F64,
    Zero,
    One,
    Blob(u64),
    Text(u64),
}

/// The fixed mapping from serial-type codes to storage classes. Codes 10
/// and 11 are reserved and rejected; even codes from 12 up are blobs of
/// length (code - 12) / 2, odd codes from 13 up are texts of length
/// (code - 13) / 2.
pub open spec fn classify_spec(code: u64) -> Result<ColumnType, Error> {
    if code == 0 {
        Ok(ColumnType::Null)
    } else if code == 1 {
        Ok(ColumnType::I8)
    } else if code == 2 {
        Ok(ColumnType::I16)
    } else if code == 3 {
        Ok(ColumnType::I24)
    } else if code == 4 {
        Ok(ColumnType::I32)
    } else if code == 5 {
        Ok(ColumnType::I48)
    } else if code == 6 {
        Ok(ColumnType::I64)
    } else if code == 7 {
        Ok(ColumnType::F64)
    } else if code == 8 {
        Ok(ColumnType::Zero)
    } else if code == 9 {
        Ok(ColumnType::One)
    } else if code == 10 || code == 11 {
        Err(Error::InvalidSerialType)
    } else if code % 2 == 0 {
        Ok(ColumnType::Blob(((code - 12) / 2) as u64))
    } else {
        Ok(ColumnType::Text(((code - 13) / 2) as u64))
    }
}

impl ColumnType {
    /// Maps a serial-type code to its storage class; pure, no side
    /// effects.
    pub fn classify(code: u64) -> (r: Result<ColumnType, Error>)
        ensures
            r == classify_spec(code),
    {
        if code == 0 {
            Ok(ColumnType::Null)
        } else if code == 1 {
            Ok(ColumnType::I8)
        } else if code == 2 {
            Ok(ColumnType::I16)
        } else if code == 3 {
            Ok(ColumnType::I24)
        } else if code == 4 {
            Ok(ColumnType::I32)
        } else if code == 5 {
            Ok(ColumnType::I48)
        } else if code == 6 {
            Ok(ColumnType::I64)
        } else if code == 7 {
            Ok(ColumnType::F64)
        } else if code == 8 {
            Ok(ColumnType::Zero)
        } else if code == 9 {
            Ok(ColumnType::One)
        } else if code == 10 || code == 11 {
            Err(Error::InvalidSerialType)
        } else if code % 2 == 0 {
            Ok(ColumnType::Blob((code - 12) / 2))
        } else {
            Ok(ColumnType::Text((code - 13) / 2))
        }
    }
}

/// How many body bytes a value of type `t` occupies.
pub open spec fn type_width(t: ColumnType) -> int {
    match t {
        ColumnType::Null => 0,
        ColumnType::I8 => 1,
        ColumnType::I16 => 2,
        ColumnType::I24 => 3,
        ColumnType::I32 => 4,
        ColumnType::I48 => 6,
        ColumnType::I64 => 8,
        ColumnType::F64 => 8,
        ColumnType::Zero => 0,
        ColumnType::One => 0,
        ColumnType::Blob(n) => n as int,
        ColumnType::Text(n) => n as int,
    }
}

/// The mathematical shape of one decoded column value. Blob and text
/// contents are byte sequences; a float is carried as its raw bit
/// pattern.
pub enum ColumnValueModel {
    Null,
    I8(i64),
    I16(i64),
    I24(i64),
    I32(i64),
    I48(i64),
    I64(i64),
    F64Bits(u64),
    Zero,
    One,
    Blob(Seq<u8>),
    Text(Seq<u8>),
}

/// One decoded column value. Integers carry the tag of their original
/// width class for round-trip fidelity; a float is carried as its raw
/// big-endian bit pattern; blob and text contents are copied out of the
/// payload.
#[derive(Debug, Clone)]
pub enum ColumnValue {
    Null,
    I8(i64),
    I16(i64),
    I24(i64),
    I32(i64),
    I48(i64),
    I64(i64),
    F64Bits(u64),
    Zero,
    One,
    Blob(Vec<u8>),
    Text(Vec<u8>),
}

impl View for ColumnValue {
    type V = ColumnValueModel;

    open spec fn view(&self) -> ColumnValueModel {
        match self {
            ColumnValue::Null => ColumnValueModel::Null,
            ColumnValue::I8(n) => ColumnValueModel::I8(*n),
            ColumnValue::I16(n) => ColumnValueModel::I16(*n),
            ColumnValue::I24(n) => ColumnValueModel::I24(*n),
            ColumnValue::I32(n) => ColumnValueModel::I32(*n),
            ColumnValue::I48(n) => ColumnValueModel::I48(*n),
            ColumnValue::I64(n) => ColumnValueModel::I64(*n),
            ColumnValue::F64Bits(b) => ColumnValueModel::F64Bits(*b),
            ColumnValue::Zero => ColumnValueModel::Zero,
            ColumnValue::One => ColumnValueModel::One,
            ColumnValue::Blob(b) => ColumnValueModel::Blob(b@),
            ColumnValue::Text(b) => ColumnValueModel::Text(b@),
        }
    }
}

/// Numeric values are the integer classes, the float, and the two
/// constants; NULL, blobs and texts are not numeric.
pub open spec fn is_number_spec(v: ColumnValueModel) -> bool {
    match v {
        ColumnValueModel::Null => false,
        ColumnValueModel::Blob(_) => false,
        ColumnValueModel::Text(_) => false,
        _ => true,
    }
}

impl ColumnValue {
    /// True exactly for the numeric tags, the float, and the two
    /// constants.
    pub fn is_number(&self) -> (r: bool)
        ensures
            r == is_number_spec(self@),
    {
        match self {
            ColumnValue::I8(_)
            | ColumnValue::I16(_)
            | ColumnValue::I24(_)
            | ColumnValue::I32(_)
            | ColumnValue::I48(_)
            | ColumnValue::I64(_)
            | ColumnValue::F64Bits(_) => true,
            ColumnValue::Zero | ColumnValue::One => true,
            ColumnValue::Null => false,
            ColumnValue::Blob(_) | ColumnValue::Text(_) => false,
        }
    }
}

/// 256^n: the number of values n bytes can carry.
pub open spec fn pow256(n: nat) -> nat
    decreases n,
{
    if n == 0 {
        1
    } else {
        256 * pow256((n - 1) as nat)
    }
}

pub proof fn lemma_pow256_values()
    ensures
        pow256(0) == 1,
        pow256(1) == 0x100,
        pow256(2) == 0x10000,
        pow256(3) == 0x1000000,
        pow256(4) == 0x100000000,
        pow256(5) == 0x10000000000,
        pow256(6) == 0x1000000000000,
        pow256(7) == 0x100000000000000,
        pow256(8) == 0x10000000000000000,
{
    reveal_with_fuel(pow256, 9);
}

/// The unsigned value of `bytes` read big-endian.
pub open spec fn be_uint(bytes: Seq<u8>) -> nat
    decreases bytes.len(),
{
    if bytes.len() == 0 {
        0
    } else {
        (be_uint(bytes.drop_last()) * 256 + bytes.last()) as nat
    }
}

pub proof fn lemma_be_uint_bound(bytes: Seq<u8>)
    ensures
        be_uint(bytes) < pow256(bytes.len()),
    decreases bytes.len(),
{
    if bytes.len() > 0 {
        lemma_be_uint_bound(bytes.drop_last());
        assert(pow256(bytes.len()) == 256 * pow256((bytes.len() - 1) as nat));
    }
}

/// The two's-complement value of `bytes` read big-endian at its own bit
/// width: the sign bit is the top bit of the first byte, not bit 63.
pub open spec fn sign_extend_spec(bytes: Seq<u8>) -> int {
    let u = be_uint(bytes);
    if 2 * u >= pow256(bytes.len()) {
        u - pow256(bytes.len())
    } else {
        u as int
    }
}

/// Reads `width` big-endian bytes of `payload` at `start` as an unsigned
/// accumulator.
fn read_be(payload: &[u8], start: usize, width: usize) -> (acc: u64)
    requires
        width <= 8,
        start + width <= payload@.len(),
    ensures
        acc as nat == be_uint(payload@.subrange(start as int, (start + width) as int)),
{
    proof {
        lemma_pow256_values();
    }
    let n = payload.len();
    let mut acc: u64 = 0;
    let mut k: usize = 0;
    while k < width
        invariant
            n == payload@.len(),
            k <= width <= 8,
            start + width <= n,
            acc as nat == be_uint(payload@.subrange(start as int, (start + k) as int)),
            (acc as nat) < pow256(k as nat),
        decreases width - k,
    {
        proof {
            lemma_pow256_values();
            let pre = payload@.subrange(start as int, (start + k) as int);
            let post = payload@.subrange(start as int, (start + k + 1) as int);
            assert(post.drop_last() =~= pre);
            assert(post.last() == payload@[start + k]);
            assert(pow256((k + 1) as nat) == 256 * pow256(k as nat));
        }
        let b = payload[start + k];
        acc = acc * 256 + (b as u64);
        k = k + 1;
    }
    acc
}

/// Reads `width` big-endian bytes at `start` and sign-extends from the
/// width's own sign bit to 64 bits.
fn read_signed_be(payload: &[u8], start: usize, width: usize) -> (r: i64)
    requires
        1 <= width <= 8,
        start + width <= payload@.len(),
    ensures
        r as int == sign_extend_spec(payload@.subrange(start as int, (start + width) as int)),
{
    proof {
        lemma_pow256_values();
        lemma_be_uint_bound(payload@.subrange(start as int, (start + width) as int));
    }
    let acc = read_be(payload, start, width);
    if width == 8 {
        if acc >= 0x8000000000000000 {
            if acc == 0x8000000000000000 {
                i64::MIN
            } else {
                -(((u64::MAX - acc) + 1) as i64)
            }
        } else {
            acc as i64
        }
    } else {
        let bound: u64 = match width {
            1 => 0x100,
            2 => 0x10000,
            3 => 0x1000000,
            4 => 0x100000000,
            5 => 0x10000000000,
            6 => 0x1000000000000,
            _ => 0x100000000000000,
        };
        proof {
            assert(bound as nat == pow256(width as nat));
        }
        if 2 * acc >= bound {
            (acc as i64) - (bound as i64)
        } else {
            acc as i64
        }
    }
}

/// The value of the numeric coercion of an IEEE-754 double to a 64-bit
/// integer, stated purely over the bit pattern `bits`: truncation toward
/// zero, saturating at the 64-bit signed range, with 0 for NaN. The
/// exponent field sits in bits 52 to 62, the fraction below, the sign on
/// top; a finite value's magnitude is (2^52 + fraction) * 2^(exponent -
/// 1075).
pub open spec fn f64_trunc_spec(bits: u64) -> i64 {
    let neg = bits >= 0x8000000000000000;
    let exp = ((bits / 0x10000000000000) % 0x800) as int;
    let frac = (bits % 0x10000000000000) as int;
    if exp == 0x7ff {
        if frac != 0 {
            0
        } else if neg {
            i64::MIN
        } else {
            i64::MAX
        }
    } else if exp < 1023 {
        0
    } else {
        let e = exp - 1023;
        if e >= 63 {
            if neg {
                i64::MIN
            } else {
                i64::MAX
            }
        } else {
            let mag = if e >= 52 {
                (0x10000000000000 + frac) * vstd::arithmetic::power2::pow2((e - 52) as nat)
            } else {
                (0x10000000000000 + frac) as int / vstd::arithmetic::power2::pow2(
                    (52 - e) as nat,
                ) as int
            };
            if neg {
                (-mag) as i64
            } else {
                mag as i64
            }
        }
    }
}

fn pow2_exec(e: usize) -> (r: u64)
    requires
        e <= 52,
    ensures
        r as nat == vstd::arithmetic::power2::pow2(e as nat),
{
    proof {
        vstd::arithmetic::power2::lemma2_to64();
            vstd::arithmetic::power2::lemma2_to64_rest();
    }
    let mut r: u64 = 1;
    let mut k: usize = 0;
    while k < e
        invariant
            k <= e <= 52,
            r as nat == vstd::arithmetic::power2::pow2(k as nat),
        decreases e - k,
    {
        proof {
            vstd::arithmetic::power2::lemma2_to64();
            vstd::arithmetic::power2::lemma2_to64_rest();
            vstd::arithmetic::power2::lemma_pow2_adds(k as nat, 1);
            if k + 1 < 53 {
                vstd::arithmetic::power2::lemma_pow2_strictly_increases((k + 1) as nat, 53);
            }
            assert(vstd::arithmetic::power2::pow2(53) == 0x20000000000000) by {
                vstd::arithmetic::power2::lemma2_to64();
            vstd::arithmetic::power2::lemma2_to64_rest();
            }
        }
        r = r * 2;
        k = k + 1;
    }
    r
}

/// Truncates the double whose bits are `bits` toward zero, saturating at
/// the 64-bit signed range, with 0 for NaN; pure integer arithmetic on
/// the bit pattern.
fn f64_trunc(bits: u64) -> (r: i64)
    ensures
        r == f64_trunc_spec(bits),
{
    let neg = bits >= 0x8000000000000000;
    let exp = (bits / 0x10000000000000) % 0x800;
    let frac = bits % 0x10000000000000;
    if exp == 0x7ff {
        if frac != 0 {
            0
        } else if neg {
            i64::MIN
        } else {
            i64::MAX
        }
    } else if exp < 1023 {
        0
    } else {
        let e = exp - 1023;
        if e >= 63 {
            if neg {
                i64::MIN
            } else {
                i64::MAX
            }
        } else {
            let mag: u64 = if e >= 52 {
                let p = pow2_exec((e - 52) as usize);
                proof {
                    vstd::arithmetic::power2::lemma2_to64();
            vstd::arithmetic::power2::lemma2_to64_rest();
                    vstd::arithmetic::power2::lemma_pow2_strictly_increases(
                        (e - 52) as nat,
                        11,
                    );
                    assert((0x10000000000000 + frac) * (p as int) < 0x8000000000000000int)
                        by (nonlinear_arith)
                        requires
                            0 <= frac < 0x10000000000000,
                            0 < p,
                            (p as int) <= 0x400,
                    ;
                }
                (0x10000000000000 + frac) * p
            } else {
                let p = pow2_exec((52 - e) as usize);
                proof {
                    vstd::arithmetic::power2::lemma_pow2_pos((52 - e) as nat);
                }
                (0x10000000000000 + frac) / p
            };
            proof {
                if e < 52 {
                    assert((0x10000000000000 + frac) as int / (vstd::arithmetic::power2::pow2(
                        (52 - e) as nat,
                    ) as int) <= 0x10000000000000 + frac) by (nonlinear_arith)
                        requires
                            0 <= frac,
                            vstd::arithmetic::power2::pow2((52 - e) as nat) >= 1,
                    ;
                }
            }
            if neg {
                -(mag as i64)
            } else {
                mag as i64
            }
        }
    }
}

/// The 64-bit integer coercion of one decoded value: integers pass
/// through, NULL and the zero constant coerce to 0, the one constant to
/// 1, and a float truncates toward zero.
pub open spec fn to_i64_spec(v: ColumnValueModel) -> i64 {
    match v {
        ColumnValueModel::Null => 0,
        ColumnValueModel::I8(n) => n,
        ColumnValueModel::I16(n) => n,
        ColumnValueModel::I24(n) => n,
        ColumnValueModel::I32(n) => n,
        ColumnValueModel::I48(n) => n,
        ColumnValueModel::I64(n) => n,
        ColumnValueModel::F64Bits(b) => f64_trunc_spec(b),
        ColumnValueModel::Zero => 0,
        ColumnValueModel::One => 1,
        ColumnValueModel::Blob(_) => 0,
        ColumnValueModel::Text(_) => 0,
    }
}

impl ColumnValue {
    /// Coerces a numeric value (or NULL) to a 64-bit integer; blobs and
    /// texts have no numeric coercion and are excluded.
    pub fn to_i64(&self) -> (r: i64)
        requires
            !(self@ is Blob),
            !(self@ is Text),
        ensures
            r == to_i64_spec(self@),
    {
        match self {
            ColumnValue::Null => 0,
            ColumnValue::I8(n) => *n,
            ColumnValue::I16(n) => *n,
            ColumnValue::I24(n) => *n,
            ColumnValue::I32(n) => *n,
            ColumnValue::I48(n) => *n,
            ColumnValue::I64(n) => *n,
            ColumnValue::F64Bits(b) => f64_trunc(*b),
            ColumnValue::Zero => 0,
            ColumnValue::One => 1,
            ColumnValue::Blob(_) => 0,
            ColumnValue::Text(_) => 0,
        }
    }
}

/// The serial types named by the record header, reading varints at
/// `cursor` while `remaining` header bytes are left. A varint that runs
/// past the declared header size makes the header inconsistent.
pub open spec fn parse_types_rec(payload: Seq<u8>, cursor: int, remaining: int) -> Result<
    Seq<ColumnType>,
    Error,
>
    decreases remaining,
{
    if remaining <= 0 {
        if remaining == 0 {
            Ok(Seq::empty())
        } else {
            Err(Error::TruncatedHeader)
        }
    } else {
        match varint::decode_spec(payload.skip(cursor)) {
            None => Err(Error::TruncatedVarint),
            Some((code, used)) => {
                if used > remaining || used < 1 {
                    Err(Error::TruncatedHeader)
                } else {
                    match classify_spec(code) {
                        Err(e) => Err(e),
                        Ok(t) => match parse_types_rec(payload, cursor + used, remaining - used) {
                            Err(e) => Err(e),
                            Ok(ts) => Ok(seq![t] + ts),
                        },
                    }
                }
            },
        }
    }
}

/// The value a single column of type `t` takes from its body bytes.
pub open spec fn value_of(t: ColumnType, bytes: Seq<u8>) -> ColumnValueModel {
    match t {
        ColumnType::Null => ColumnValueModel::Null,
        ColumnType::I8 => ColumnValueModel::I8(sign_extend_spec(bytes) as i64),
        ColumnType::I16 => ColumnValueModel::I16(sign_extend_spec(bytes) as i64),
        ColumnType::I24 => ColumnValueModel::I24(sign_extend_spec(bytes) as i64),
        ColumnType::I32 => ColumnValueModel::I32(sign_extend_spec(bytes) as i64),
        ColumnType::I48 => ColumnValueModel::I48(sign_extend_spec(bytes) as i64),
        ColumnType::I64 => ColumnValueModel::I64(sign_extend_spec(bytes) as i64),
        ColumnType::F64 => ColumnValueModel::F64Bits(be_uint(bytes) as u64),
        ColumnType::Zero => ColumnValueModel::Zero,
        ColumnType::One => ColumnValueModel::One,
        ColumnType::Blob(_) => ColumnValueModel::Blob(bytes),
        ColumnType::Text(_) => ColumnValueModel::Text(bytes),
    }
}

/// The column values for `types`, read in order from the body region
/// starting at `cursor`; any read past the payload's end fails.
pub open spec fn decode_values_rec(payload: Seq<u8>, types: Seq<ColumnType>, cursor: int) -> Result<
    Seq<ColumnValueModel>,
    Error,
>
    decreases types.len(),
{
    if types.len() == 0 {
        Ok(Seq::empty())
    } else {
        let t = types[0];
        let w = type_width(t);
        if cursor + w > payload.len() {
            Err(Error::PayloadTooShort)
        } else {
            match decode_values_rec(payload, types.skip(1), cursor + w) {
                Err(e) => Err(e),
                Ok(vs) => Ok(seq![value_of(t, payload.subrange(cursor, cursor + w))] + vs),
            }
        }
    }
}

/// What decoding a whole cell payload yields: a header-size varint, the
/// serial-type varints filling the rest of the header, then one value
/// per type from the body that starts where the header ends.
pub open spec fn decode_record_spec(payload: Seq<u8>) -> Result<Seq<ColumnValueModel>, Error> {
    match varint::decode_spec(payload) {
        None => Err(Error::TruncatedVarint),
        Some((hsize, used)) => {
            if hsize < used {
                Err(Error::TruncatedHeader)
            } else {
                match parse_types_rec(payload, used, hsize - used) {
                    Err(e) => Err(e),
                    Ok(types) => decode_values_rec(payload, types, hsize as int),
                }
            }
        },
    }
}

/// The mathematical shape of a decoded record.
pub struct RecordModel {
    pub rowid: i64,
    pub values: Seq<ColumnValueModel>,
}

/// A decoded row: the externally supplied rowid and the ordered column
/// values.
#[derive(Debug, Clone)]
pub struct Record {
    pub rowid: i64,
    pub values: Vec<ColumnValue>,
}

/// The models of a sequence of column values.
pub open spec fn values_view(vs: Seq<ColumnValue>) -> Seq<ColumnValueModel> {
    Seq::new(vs.len(), |i: int| vs[i]@)
}

impl View for Record {
    type V = RecordModel;

    open spec fn view(&self) -> RecordModel {
        RecordModel { rowid: self.rowid, values: values_view(self.values@) }
    }
}

impl Record {
    /// Decodes one cell payload into its typed column values. The rowid
    /// comes from the page layer and is carried through unchanged.
    #[verifier::loop_isolation(false)]
    pub fn read(rowid: i64, payload: &[u8]) -> (r: Result<Record, Error>)
        ensures
            match r {
                Ok(rec) => rec@.rowid == rowid && decode_record_spec(payload@) == Ok::<Seq<ColumnValueModel>, Error>(rec@.values),
                Err(e) => decode_record_spec(payload@) == Err::<Seq<ColumnValueModel>, Error>(e),
            },
    {
        let plen = payload.len();
        let (hsize, used) = match varint::decode(payload) {
            Err(e) => {
                return Err(e);
            },
            Ok(p) => p,
        };
        if hsize < used as u64 {
            return Err(Error::TruncatedHeader);
        }
        let ghost header_result = parse_types_rec(payload@, used as int, hsize - used);
        let mut remaining: u64 = hsize - used as u64;
        let mut cursor: usize = used;
        let mut types: Vec<ColumnType> = Vec::new();
        while remaining > 0
            invariant
                plen == payload@.len(),
                cursor <= plen,
                cursor + remaining == hsize,
                header_result == match parse_types_rec(
                    payload@,
                    cursor as int,
                    remaining as int,
                ) {
                    Ok(ts) => Ok(types@ + ts),
                    Err(e) => Err::<Seq<ColumnType>, Error>(e),
                },
            decreases remaining,
        {
            let rest = slice_subrange(payload, cursor, plen);
            proof {
                assert(rest@ =~= payload@.skip(cursor as int));
            }
            let (code, n) = match varint::decode(rest) {
                Err(e) => {
                    return Err(e);
                },
                Ok(p) => p,
            };
            if (n as u64) > remaining {
                return Err(Error::TruncatedHeader);
            }
            let t = match ColumnType::classify(code) {
                Err(e) => {
                    return Err(e);
                },
                Ok(t) => t,
            };
            let ghost old_types = types@;
            let ghost tail = parse_types_rec(payload@, cursor as int + n, remaining - n);
            types.push(t);
            cursor = cursor + n;
            remaining = remaining - n as u64;
            proof {
                if let Ok(ts) = tail {
                    assert(old_types + (seq![t] + ts) =~= types@ + ts);
                }
            }
        }
        let ghost header_types = types@;
        proof {
            assert(types@ + Seq::<ColumnType>::empty() =~= types@);
            assert(header_result == Ok::<Seq<ColumnType>, Error>(header_types));
            assert(cursor == hsize);
        }
        let ghost body_result = decode_values_rec(payload@, header_types, hsize as int);
        let mut values: Vec<ColumnValue> = Vec::new();
        let mut idx: usize = 0;
        proof {
            assert(types@.skip(0) =~= types@);
            if let Ok(vs) = body_result {
                assert(values_view(values@) + vs =~= vs);
            }
        }
        while idx < types.len()
            invariant
                plen == payload@.len(),
                cursor <= plen,
                idx <= types@.len(),
                types@ == header_types,
                values@.len() == idx,
                body_result == match decode_values_rec(
                    payload@,
                    types@.skip(idx as int),
                    cursor as int,
                ) {
                    Ok(vs) => Ok(values_view(values@) + vs),
                    Err(e) => Err::<Seq<ColumnValueModel>, Error>(e),
                },
            decreases types@.len() - idx,
        {
            let ghost rest_types = types@.skip(idx as int);
            proof {
                assert(rest_types[0] == types@[idx as int]);
                assert(rest_types.skip(1) =~= types@.skip(idx as int + 1));
            }
            let t = types[idx];
            let w: u64 = match t {
                ColumnType::Null => 0,
                ColumnType::I8 => 1,
                ColumnType::I16 => 2,
                ColumnType::I24 => 3,
                ColumnType::I32 => 4,
                ColumnType::I48 => 6,
                ColumnType::I64 => 8,
                ColumnType::F64 => 8,
                ColumnType::Zero => 0,
                ColumnType::One => 0,
                ColumnType::Blob(n) => n,
                ColumnType::Text(n) => n,
            };
            if w > (plen - cursor) as u64 {
                return Err(Error::PayloadTooShort);
            }
            let wu: usize = w as usize;
            let ghost old_values = values@;
            let ghost tail = decode_values_rec(payload@, rest_types.skip(1), cursor as int + w);
            let v: ColumnValue = match t {
                ColumnType::Null => ColumnValue::Null,
                ColumnType::I8 => ColumnValue::I8(read_signed_be(payload, cursor, 1)),
                ColumnType::I16 => ColumnValue::I16(read_signed_be(payload, cursor, 2)),
                ColumnType::I24 => ColumnValue::I24(read_signed_be(payload, cursor, 3)),
                ColumnType::I32 => ColumnValue::I32(read_signed_be(payload, cursor, 4)),
                ColumnType::I48 => ColumnValue::I48(read_signed_be(payload, cursor, 6)),
                ColumnType::I64 => ColumnValue::I64(read_signed_be(payload, cursor, 8)),
                ColumnType::F64 => ColumnValue::F64Bits(read_be(payload, cursor, 8)),
                ColumnType::Zero => ColumnValue::Zero,
                ColumnType::One => ColumnValue::One,
                ColumnType::Blob(_) => ColumnValue::Blob(
                    slice_to_vec(slice_subrange(payload, cursor, cursor + wu)),
                ),
                ColumnType::Text(_) => ColumnValue::Text(
                    slice_to_vec(slice_subrange(payload, cursor, cursor + wu)),
                ),
            };
            proof {
                assert(v@ == value_of(
                    rest_types[0],
                    payload@.subrange(cursor as int, cursor as int + w),
                ));
            }
            values.push(v);
            cursor = cursor + wu;
            idx = idx + 1;
            proof {
                assert(values@ =~= old_values.push(v));
                assert(values_view(values@) =~= values_view(old_values).push(v@));
                if let Ok(vs) = tail {
                    assert(values_view(old_values) + (seq![v@] + vs) =~= values_view(values@)
                        + vs);
                }
            }
        }
        proof {
            assert(types@.skip(idx as int) =~= Seq::<ColumnType>::empty());
            assert(values_view(values@) + Seq::<ColumnValueModel>::empty() =~= values_view(
                values@,
            ));
        }
        Ok(Record { rowid, values })
    }
}

} // verus!
