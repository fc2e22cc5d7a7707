//! The tag-based binary codec for the summary schema: field 1 the hash
//! text, field 2 the block number, field 3 the optional timestamp message,
//! field 4 the transaction count. A field holding its default value is
//! omitted; the decoder reads the canonical form, fields in ascending
//! order, and rejects anything else.

use vstd::prelude::*;
use vstd::utf8::is_ascii_chars;
use crate::messages::{TestData, TestDataView, Timestamp};
use crate::text::{
    ascii_bytes, bytes_of_chars, chars_of_bytes, lemma_ascii_chars_bytes, string_of_ascii_range,
    string_to_ascii_bytes,
};
use crate::varint::{
    lemma_varint_enc_len, lemma_varint_round_trip, read_varint, varint_dec, varint_dec64,
    varint_enc, varint_encode,
};

verus! {

/// Why a byte sequence was rejected by the decoder.
#[derive(Clone, Copy, PartialEq, Eq, Structural, Debug)]
pub enum DecodeError {
    /// The bytes are not a canonical encoding of the summary schema.
    Malformed,
}

/// The unsigned 64-bit two's-complement image of a signed 64-bit value,
/// as it stands in a varint on the wire.
pub open spec fn wire_of_i64(x: i64) -> nat {
    if x >= 0 {
        x as nat
    } else {
        (x + 0x1_0000_0000_0000_0000) as nat
    }
}

/// Signed 32-bit values are sign-extended to 64 bits before encoding.
pub open spec fn wire_of_i32(x: i32) -> nat {
    wire_of_i64(x as i64)
}

/// The signed 64-bit value a wire image stands for.
pub open spec fn i64_of_wire(w: u64) -> i64 {
    if w < 0x8000_0000_0000_0000 {
        w as i64
    } else {
        (w - 0x1_0000_0000_0000_0000) as i64
    }
}

/// The signed 32-bit value a wire image stands for; `None` when the image
/// is not the sign extension of any 32-bit value.
pub open spec fn i32_of_wire(w: u64) -> Option<i32> {
    if w < 0x8000_0000 {
        Some(w as i32)
    } else if w >= 0xFFFF_FFFF_8000_0000 {
        Some((w - 0x1_0000_0000_0000_0000) as i32)
    } else {
        None
    }
}

/// The wire image of a signed 64-bit value reads back as that value.
pub proof fn lemma_wire_i64_round_trip(x: i64)
    ensures
        wire_of_i64(x) < 0x1_0000_0000_0000_0000,
        i64_of_wire(wire_of_i64(x) as u64) == x,
{
}

/// The wire image of a signed 32-bit value reads back as that value.
pub proof fn lemma_wire_i32_round_trip(x: i32)
    ensures
        wire_of_i32(x) < 0x1_0000_0000_0000_0000,
        i32_of_wire(wire_of_i32(x) as u64) == Some(x),
{
}

/// The bytes of a varint-valued field: tag byte, then the value; omitted
/// when the value is the default zero.
pub open spec fn u64_piece(tag: u8, v: u64) -> Seq<u8> {
    if v == 0 {
        Seq::<u8>::empty()
    } else {
        seq![tag] + varint_enc(v as nat)
    }
}

/// The bytes of the hash text field: tag byte, byte length, then one byte
/// per character; omitted when the text is empty.
pub open spec fn hash_piece(bh: Seq<char>) -> Seq<u8> {
    if bh.len() == 0 {
        Seq::<u8>::empty()
    } else {
        seq![10u8] + varint_enc(bh.len()) + bytes_of_chars(bh)
    }
}

/// The encoded payload of a timestamp message: field 1 the seconds,
/// field 2 the nanoseconds, each a varint and omitted when zero.
pub open spec fn ts_enc(t: Timestamp) -> Seq<u8> {
    u64_piece(8, wire_of_i64(t.seconds) as u64) + u64_piece(16, wire_of_i32(t.nanos) as u64)
}

/// The bytes of the timestamp field: tag byte, payload length, payload;
/// omitted when the timestamp is absent.
pub open spec fn ts_piece(bt: Option<Timestamp>) -> Seq<u8> {
    match bt {
        None => Seq::<u8>::empty(),
        Some(t) => seq![26u8] + varint_enc(ts_enc(t).len()) + ts_enc(t),
    }
}

/// The canonical encoding of a summary record.
pub open spec fn test_data_enc(d: TestDataView) -> Seq<u8> {
    hash_piece(d.block_hash) + u64_piece(16, d.block_number) + ts_piece(d.block_timestamp)
        + u64_piece(32, d.transactions_len)
}

/// Reads an optional varint-valued field at `i`: the value (zero when the
/// tag is not there) and the position after it.
pub open spec fn dec_u64_field(s: Seq<u8>, i: int, tag: u8) -> Option<(u64, int)> {
    if i < s.len() && s[i] == tag {
        varint_dec64(s, i + 1)
    } else {
        Some((0u64, i))
    }
}

/// Reads the optional hash text field at `i`: the text (empty when the tag
/// is not there) and the position after it. The text must be ASCII.
pub open spec fn dec_hash_field(s: Seq<u8>, i: int) -> Option<(Seq<char>, int)> {
    if i < s.len() && s[i] == 10 {
        match varint_dec64(s, i + 1) {
            None => None,
            Some((l, j)) => if j + l <= s.len() && ascii_bytes(s.subrange(j, j + l)) {
                Some((chars_of_bytes(s.subrange(j, j + l)), j + l))
            } else {
                None
            },
        }
    } else {
        Some((Seq::<char>::empty(), i))
    }
}

/// Reads a complete timestamp payload: both fields optional, nothing may
/// follow, and the nanoseconds image must fit 32 bits.
pub open spec fn ts_dec(s: Seq<u8>) -> Option<Timestamp> {
    match dec_u64_field(s, 0, 8) {
        None => None,
        Some((ws, i1)) => match dec_u64_field(s, i1, 16) {
            None => None,
            Some((wn, i2)) => if i2 == s.len() {
                match i32_of_wire(wn) {
                    None => None,
                    Some(n) => Some(Timestamp { seconds: i64_of_wire(ws), nanos: n }),
                }
            } else {
                None
            },
        },
    }
}

/// Reads the optional timestamp field at `i`.
pub open spec fn dec_ts_field(s: Seq<u8>, i: int) -> Option<(Option<Timestamp>, int)> {
    if i < s.len() && s[i] == 26 {
        match varint_dec64(s, i + 1) {
            None => None,
            Some((l, j)) => if j + l <= s.len() {
                match ts_dec(s.subrange(j, j + l)) {
                    None => None,
                    Some(t) => Some((Some(t), j + l)),
                }
            } else {
                None
            },
        }
    } else {
        Some((None::<Timestamp>, i))
    }
}

/// Reads a complete canonical encoding of a summary record: the four
/// fields in ascending tag order, each omitted when default, and nothing
/// may follow.
pub open spec fn test_data_dec(s: Seq<u8>) -> Option<TestDataView> {
    match dec_hash_field(s, 0) {
        None => None,
        Some((bh, i1)) => match dec_u64_field(s, i1, 16) {
            None => None,
            Some((bn, i2)) => match dec_ts_field(s, i2) {
                None => None,
                Some((bt, i3)) => match dec_u64_field(s, i3, 32) {
                    None => None,
                    Some((tl, i4)) => if i4 == s.len() {
                        Some(
                            TestDataView {
                                block_hash: bh,
                                block_number: bn,
                                block_timestamp: bt,
                                transactions_len: tl,
                            },
                        )
                    } else {
                        None
                    },
                },
            },
        },
    }
}

/// A varint field piece standing at `i` reads back as its value.
proof fn lemma_dec_u64_at(s: Seq<u8>, i: int, tag: u8, v: u64)
    requires
        0 < tag < 128,
        0 <= i,
        i + u64_piece(tag, v).len() <= s.len(),
        s.subrange(i, i + u64_piece(tag, v).len()) == u64_piece(tag, v),
        v == 0 ==> i == s.len() || s[i] != tag,
    ensures
        dec_u64_field(s, i, tag) == Some((v, i + u64_piece(tag, v).len())),
{
    if v != 0 {
        let p = u64_piece(tag, v);
        let e = varint_enc(v as nat);
        assert(p == seq![tag] + e);
        assert(s.subrange(i, i + p.len())[0] == s[i]);
        assert(s[i] == tag);
        assert(s.subrange(i + 1, i + 1 + e.len()) =~= e) by {
            assert forall|k: int| 0 <= k < e.len() implies s.subrange(i + 1, i + 1 + e.len())[k]
                == e[k] by {
                assert(s[i + 1 + k] == s.subrange(i, i + p.len())[1 + k]);
            }
        }
        lemma_varint_round_trip(s, i + 1, v as nat);
    }
}

/// A hash text piece standing at `i` reads back as its text.
proof fn lemma_dec_hash_at(s: Seq<u8>, i: int, bh: Seq<char>)
    requires
        is_ascii_chars(bh),
        bh.len() < 0x1_0000_0000_0000_0000,
        0 <= i,
        i + hash_piece(bh).len() <= s.len(),
        s.subrange(i, i + hash_piece(bh).len()) == hash_piece(bh),
        bh.len() == 0 ==> i == s.len() || s[i] != 10,
    ensures
        dec_hash_field(s, i) == Some((bh, i + hash_piece(bh).len())),
{
    if bh.len() != 0 {
        let p = hash_piece(bh);
        let e = varint_enc(bh.len());
        let content = bytes_of_chars(bh);
        lemma_ascii_chars_bytes(bh);
        assert(p == seq![10u8] + e + content);
        assert(s.subrange(i, i + p.len())[0] == s[i]);
        assert(s[i] == 10);
        assert(s.subrange(i + 1, i + 1 + e.len()) =~= e) by {
            assert forall|k: int| 0 <= k < e.len() implies s.subrange(i + 1, i + 1 + e.len())[k]
                == e[k] by {
                assert(s[i + 1 + k] == s.subrange(i, i + p.len())[1 + k]);
                assert((seq![10u8] + e + content)[1 + k] == e[k]);
            }
        }
        lemma_varint_round_trip(s, i + 1, bh.len());
        let j = i + 1 + e.len();
        assert(varint_dec64(s, i + 1) == Some((bh.len() as u64, j)));
        assert(s.subrange(j, j + content.len()) =~= content) by {
            assert forall|k: int| 0 <= k < content.len() implies s.subrange(
                j,
                j + content.len(),
            )[k] == content[k] by {
                assert(s[j + k] == s.subrange(i, i + p.len())[1 + e.len() + k]);
                assert((seq![10u8] + e + content)[1 + e.len() + k] == content[k]);
            }
        }
        assert(j + bh.len() == i + p.len());
    }
}

/// A timestamp payload reads back as its timestamp.
proof fn lemma_ts_round_trip(t: Timestamp)
    ensures
        ts_dec(ts_enc(t)) == Some(t),
{
    let ws = wire_of_i64(t.seconds) as u64;
    let wn = wire_of_i32(t.nanos) as u64;
    lemma_wire_i64_round_trip(t.seconds);
    lemma_wire_i32_round_trip(t.nanos);
    let q1 = u64_piece(8, ws);
    let q2 = u64_piece(16, wn);
    let s = ts_enc(t);
    assert(s == q1 + q2);
    assert(s.subrange(0, q1.len() as int) =~= q1);
    let i1 = q1.len() as int;
    assert(s.subrange(i1, i1 + q2.len()) =~= q2);
    if ws == 0 && 0 < s.len() {
        assert(wn != 0);
        assert(s[0] == q2[0]);
        assert(s[0] == 16);
    }
    lemma_dec_u64_at(s, 0, 8, ws);
    if wn == 0 {
        assert(i1 == s.len());
    }
    lemma_dec_u64_at(s, i1, 16, wn);
}

/// A timestamp field piece standing at `i` reads back as its timestamp.
proof fn lemma_dec_ts_at(s: Seq<u8>, i: int, bt: Option<Timestamp>)
    requires
        0 <= i,
        i + ts_piece(bt).len() <= s.len(),
        s.subrange(i, i + ts_piece(bt).len()) == ts_piece(bt),
        bt is None ==> i == s.len() || s[i] != 26,
    ensures
        dec_ts_field(s, i) == Some((bt, i + ts_piece(bt).len())),
{
    match bt {
        None => {},
        Some(t) => {
            let p = ts_piece(bt);
            let payload = ts_enc(t);
            let e = varint_enc(payload.len());
            lemma_varint_enc_len(wire_of_i64(t.seconds));
            lemma_varint_enc_len(wire_of_i32(t.nanos));
            assert(payload.len() <= 22);
            assert(p == seq![26u8] + e + payload);
            assert(s.subrange(i, i + p.len())[0] == s[i]);
            assert(s[i] == 26);
            assert(s.subrange(i + 1, i + 1 + e.len()) =~= e) by {
                assert forall|k: int| 0 <= k < e.len() implies s.subrange(i + 1, i + 1 + e.len())[k]
                    == e[k] by {
                    assert(s[i + 1 + k] == s.subrange(i, i + p.len())[1 + k]);
                    assert((seq![26u8] + e + payload)[1 + k] == e[k]);
                }
            }
            lemma_varint_round_trip(s, i + 1, payload.len());
            let j = i + 1 + e.len();
            assert(varint_dec64(s, i + 1) == Some((payload.len() as u64, j)));
            assert(s.subrange(j, j + payload.len()) =~= payload) by {
                assert forall|k: int| 0 <= k < payload.len() implies s.subrange(
                    j,
                    j + payload.len(),
                )[k] == payload[k] by {
                    assert(s[j + k] == s.subrange(i, i + p.len())[1 + e.len() + k]);
                    assert((seq![26u8] + e + payload)[1 + e.len() + k] == payload[k]);
                }
            }
            lemma_ts_round_trip(t);
            assert(j + payload.len() == i + p.len());
        },
    }
}

/// Round trip: a canonically encoded summary record decodes back to the
/// record it was made from. It holds of every well-formed record whose
/// hash text length fits the wire's unsigned 64-bit length field.
pub proof fn lemma_test_data_round_trip(d: TestDataView)
    requires
        d.wf(),
        d.block_hash.len() < 0x1_0000_0000_0000_0000,
    ensures
        test_data_dec(test_data_enc(d)) == Some(d),
{
    let p1 = hash_piece(d.block_hash);
    let p2 = u64_piece(16, d.block_number);
    let p3 = ts_piece(d.block_timestamp);
    let p4 = u64_piece(32, d.transactions_len);
    let s = test_data_enc(d);
    assert(s == p1 + p2 + p3 + p4);
    let c1 = p1.len() as int;
    let c2 = c1 + p2.len();
    let c3 = c2 + p3.len();
    let c4 = c3 + p4.len();
    assert(s.len() == c4);
    assert(s.subrange(0, c1) =~= p1);
    assert(s.subrange(c1, c2) =~= p2);
    assert(s.subrange(c2, c3) =~= p3);
    assert(s.subrange(c3, c4) =~= p4);
    if d.block_hash.len() == 0 && 0 < s.len() {
        if d.block_number != 0 {
            assert(s[0] == p2[0]);
        } else if d.block_timestamp is Some {
            assert(s[0] == p3[0]);
        } else {
            assert(d.transactions_len != 0);
            assert(s[0] == p4[0]);
        }
        assert(s[0] != 10);
    }
    lemma_dec_hash_at(s, 0, d.block_hash);
    if d.block_number == 0 && c1 < s.len() {
        if d.block_timestamp is Some {
            assert(s[c1] == p3[0]);
        } else {
            assert(d.transactions_len != 0);
            assert(s[c1] == p4[0]);
        }
        assert(s[c1] != 16);
    }
    lemma_dec_u64_at(s, c1, 16, d.block_number);
    if d.block_timestamp is None && c2 < s.len() {
        assert(d.transactions_len != 0);
        assert(s[c2] == p4[0]);
        assert(s[c2] != 26);
    }
    lemma_dec_ts_at(s, c2, d.block_timestamp);
    lemma_dec_u64_at(s, c3, 32, d.transactions_len);
    assert(test_data_dec(s) == Some(
        TestDataView {
            block_hash: d.block_hash,
            block_number: d.block_number,
            block_timestamp: d.block_timestamp,
            transactions_len: d.transactions_len,
        },
    ));
    assert(TestDataView {
        block_hash: d.block_hash,
        block_number: d.block_number,
        block_timestamp: d.block_timestamp,
        transactions_len: d.transactions_len,
    } =~= d);
}

fn wire64_of_seconds(x: i64) -> (w: u64)
    ensures
        w as nat == wire_of_i64(x),
{
    if x >= 0 {
        x as u64
    } else {
        ((x as i128) + 0x1_0000_0000_0000_0000i128) as u64
    }
}

fn wire64_of_nanos(x: i32) -> (w: u64)
    ensures
        w as nat == wire_of_i32(x),
{
    if x >= 0 {
        x as u64
    } else {
        ((x as i128) + 0x1_0000_0000_0000_0000i128) as u64
    }
}

fn seconds_of_wire(w: u64) -> (x: i64)
    ensures
        x == i64_of_wire(w),
{
    if w < 0x8000_0000_0000_0000 {
        w as i64
    } else {
        ((w as i128) - 0x1_0000_0000_0000_0000i128) as i64
    }
}

fn nanos_of_wire(w: u64) -> (r: Option<i32>)
    ensures
        r == i32_of_wire(w),
{
    if w < 0x8000_0000 {
        Some(w as i32)
    } else if w >= 0xFFFF_FFFF_8000_0000 {
        Some(((w as i128) - 0x1_0000_0000_0000_0000i128) as i32)
    } else {
        None
    }
}

/// The encoded payload of a timestamp.
pub fn encode_timestamp(t: &Timestamp) -> (r: Vec<u8>)
    ensures
        r@ == ts_enc(*t),
{
    let mut out: Vec<u8> = Vec::new();
    if t.seconds != 0 {
        out.push(8);
        let mut v = varint_encode(wire64_of_seconds(t.seconds));
        out.append(&mut v);
    }
    if t.nanos != 0 {
        out.push(16);
        let mut v = varint_encode(wire64_of_nanos(t.nanos));
        out.append(&mut v);
    }
    proof {
        assert(out@ =~= ts_enc(*t));
    }
    out
}

/// The canonical encoding of a summary record. The hash text must be
/// ASCII, as the schema's lowercase-hex text always is.
#[verifier::rlimit(50)]
pub fn encode_test_data(d: &TestData) -> (r: Vec<u8>)
    requires
        d@.wf(),
    ensures
        r@ == test_data_enc(d@),
{
    let mut out: Vec<u8> = Vec::new();
    let hash = d.block_hash.as_str();
    if hash.unicode_len() > 0 {
        out.push(10);
        let mut bytes = string_to_ascii_bytes(hash);
        let mut lenv = varint_encode(bytes.len() as u64);
        out.append(&mut lenv);
        out.append(&mut bytes);
    }
    proof {
        assert(out@ =~= hash_piece(d@.block_hash));
    }
    if d.block_number != 0 {
        out.push(16);
        let mut v = varint_encode(d.block_number);
        out.append(&mut v);
    }
    proof {
        assert(out@ =~= hash_piece(d@.block_hash) + u64_piece(16, d@.block_number));
    }
    match &d.block_timestamp {
        None => {},
        Some(t) => {
            out.push(26);
            let mut payload = encode_timestamp(t);
            let mut lenv = varint_encode(payload.len() as u64);
            out.append(&mut lenv);
            out.append(&mut payload);
            proof {
                lemma_varint_enc_len(wire_of_i64(t.seconds));
                lemma_varint_enc_len(wire_of_i32(t.nanos));
            }
        },
    }
    proof {
        assert(out@ =~= hash_piece(d@.block_hash) + u64_piece(16, d@.block_number) + ts_piece(
            d@.block_timestamp,
        ));
    }
    if d.transactions_len != 0 {
        out.push(32);
        let mut v = varint_encode(d.transactions_len);
        out.append(&mut v);
    }
    proof {
        assert(out@ =~= test_data_enc(d@));
    }
    out
}

fn subvec(bs: &Vec<u8>, from: usize, to: usize) -> (r: Vec<u8>)
    requires
        from <= to <= bs@.len(),
    ensures
        r@ == bs@.subrange(from as int, to as int),
{
    let mut r: Vec<u8> = Vec::new();
    let mut i: usize = from;
    while i < to
        invariant
            from <= i <= to <= bs@.len(),
            r@ == bs@.subrange(from as int, i as int),
        decreases to - i,
    {
        r.push(bs[i]);
        proof {
            assert(r@ =~= bs@.subrange(from as int, i + 1));
        }
        i = i + 1;
    }
    r
}

/// Reads a complete timestamp payload.
pub fn decode_timestamp(bs: &Vec<u8>) -> (r: Option<Timestamp>)
    ensures
        r == ts_dec(bs@),
{
    let n = bs.len();
    let w_secs: u64;
    let i1: usize;
    if n > 0 && bs[0] == 8 {
        match read_varint(bs, 1) {
            None => {
                return None;
            },
            Some((v, j)) => {
                w_secs = v;
                i1 = j;
            },
        }
    } else {
        w_secs = 0;
        i1 = 0;
    }
    let w_nanos: u64;
    let i2: usize;
    if i1 < n && bs[i1] == 16 {
        match read_varint(bs, i1 + 1) {
            None => {
                return None;
            },
            Some((v, j)) => {
                w_nanos = v;
                i2 = j;
            },
        }
    } else {
        w_nanos = 0;
        i2 = i1;
    }
    if i2 != n {
        return None;
    }
    match nanos_of_wire(w_nanos) {
        None => None,
        Some(nn) => Some(Timestamp { seconds: seconds_of_wire(w_secs), nanos: nn }),
    }
}

/// Reads a canonical encoding of a summary record back into the record.
pub fn decode_test_data(bs: &Vec<u8>) -> (r: Result<TestData, DecodeError>)
    ensures
        (match test_data_dec(bs@) {
            Some(v) => r matches Ok(d) && d@ == v,
            None => r == Err::<TestData, DecodeError>(DecodeError::Malformed),
        }),
{
    let n = bs.len();
    let mut d = TestData::default();
    let mut i: usize = 0;
    if i < n && bs[i] == 10 {
        match read_varint(bs, i + 1) {
            None => {
                return Err(DecodeError::Malformed);
            },
            Some((l, j)) => {
                if l > (n - j) as u64 {
                    return Err(DecodeError::Malformed);
                }
                let end = j + (l as usize);
                match string_of_ascii_range(bs, j, end) {
                    None => {
                        return Err(DecodeError::Malformed);
                    },
                    Some(s) => {
                        d.block_hash = s;
                        i = end;
                    },
                }
            },
        }
    }
    proof {
        assert(dec_hash_field(bs@, 0) == Some((d.block_hash@, i as int)));
    }
    let ghost g1: int = i as int;
    if i < n && bs[i] == 16 {
        match read_varint(bs, i + 1) {
            None => {
                return Err(DecodeError::Malformed);
            },
            Some((v, j)) => {
                d.block_number = v;
                i = j;
            },
        }
    }
    proof {
        assert(dec_u64_field(bs@, g1, 16) == Some((d.block_number, i as int)));
    }
    let ghost g2: int = i as int;
    if i < n && bs[i] == 26 {
        match read_varint(bs, i + 1) {
            None => {
                return Err(DecodeError::Malformed);
            },
            Some((l, j)) => {
                if l > (n - j) as u64 {
                    return Err(DecodeError::Malformed);
                }
                let end = j + (l as usize);
                let sub = subvec(bs, j, end);
                match decode_timestamp(&sub) {
                    None => {
                        return Err(DecodeError::Malformed);
                    },
                    Some(t) => {
                        d.block_timestamp = Some(t);
                        i = end;
                    },
                }
            },
        }
    }
    proof {
        assert(dec_ts_field(bs@, g2) == Some((d.block_timestamp, i as int)));
    }
    let ghost g3: int = i as int;
    if i < n && bs[i] == 32 {
        match read_varint(bs, i + 1) {
            None => {
                return Err(DecodeError::Malformed);
            },
            Some((v, j)) => {
                d.transactions_len = v;
                i = j;
            },
        }
    }
    proof {
        assert(dec_u64_field(bs@, g3, 32) == Some((d.transactions_len, i as int)));
    }
    if i != n {
        return Err(DecodeError::Malformed);
    }
    proof {
        match test_data_dec(bs@) {
            Some(v) => {
                assert(d@ =~= v);
            },
            None => {
                assert(false);
            },
        }
    }
    Ok(d)
}

} // verus!
