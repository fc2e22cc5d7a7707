//! Base-128 variable-length integers: the length and scalar encoding of
//! the tag-based wire format.

use vstd::prelude::*;
use vstd::arithmetic::div_mod::lemma_fundamental_div_mod;

verus! {

/// The little-endian base-128 encoding of a natural number: seven value
/// bits per byte, the high bit set on every byte but the last.
pub open spec fn varint_enc(v: nat) -> Seq<u8>
    decreases v,
{
    if v < 128 {
        seq![v as u8]
    } else {
        seq![((v % 128) + 128) as u8] + varint_enc(v / 128)
    }
}

/// Reads a varint at position `i`: the value and the position after it,
/// or `None` when the sequence ends inside the varint.
pub open spec fn varint_dec(s: Seq<u8>, i: int) -> Option<(nat, int)>
    decreases s.len() - i,
{
    if i < 0 || i >= s.len() {
        None
    } else if s[i] < 128 {
        Some((s[i] as nat, i + 1))
    } else {
        match varint_dec(s, i + 1) {
            None => None,
            Some((v, j)) => Some((((s[i] - 128) as nat) + 128 * v, j)),
        }
    }
}

/// Reads a varint that must fit an unsigned 64-bit value.
pub open spec fn varint_dec64(s: Seq<u8>, i: int) -> Option<(u64, int)> {
    match varint_dec(s, i) {
        None => None,
        Some((v, j)) => if v < 0x1_0000_0000_0000_0000 {
            Some((v as u64, j))
        } else {
            None
        },
    }
}

/// Reading at a position where the encoding of `v` stands gives back `v`
/// and ends right after it.
pub proof fn lemma_varint_round_trip(s: Seq<u8>, i: int, v: nat)
    requires
        0 <= i,
        i + varint_enc(v).len() <= s.len(),
        s.subrange(i, i + varint_enc(v).len()) == varint_enc(v),
    ensures
        varint_dec(s, i) == Some((v, i + varint_enc(v).len())),
    decreases v,
{
    let e = varint_enc(v);
    assert(s[i] == e[0]);
    if v < 128 {
        assert(varint_dec(s, i) == Some((v, i + 1)));
    } else {
        let rest = varint_enc(v / 128);
        assert(e == seq![((v % 128) + 128) as u8] + rest);
        assert(s[i] == ((v % 128) + 128) as u8);
        assert(s[i] >= 128);
        assert(s.subrange(i + 1, i + 1 + rest.len()) =~= rest) by {
            assert forall|k: int| 0 <= k < rest.len() implies s.subrange(
                i + 1,
                i + 1 + rest.len(),
            )[k] == rest[k] by {
                assert(s[i + 1 + k] == e[1 + k]);
            }
        }
        lemma_varint_round_trip(s, i + 1, v / 128);
        lemma_fundamental_div_mod(v as int, 128);
        assert(((s[i] - 128) as nat) + 128 * (v / 128) == v);
    }
}

proof fn lemma_varint_enc_len_k(v: nat, k: nat)
    requires
        1 <= k,
        v < vstd::arithmetic::power2::pow2(7 * k),
    ensures
        varint_enc(v).len() <= k,
    decreases k,
{
    if v >= 128 {
        vstd::arithmetic::power2::lemma_pow2_adds(7, 7 * (k - 1) as nat);
        assert(vstd::arithmetic::power2::pow2(7) == 128) by {
            vstd::arithmetic::power2::lemma2_to64();
        }
        vstd::arithmetic::div_mod::lemma_multiply_divide_lt(
            v as int,
            128,
            vstd::arithmetic::power2::pow2(7 * (k - 1) as nat) as int,
        );
        lemma_varint_enc_len_k(v / 128, (k - 1) as nat);
    }
}

/// An encoding is never empty, and a value that fits an unsigned 64-bit
/// value encodes in at most ten bytes.
pub proof fn lemma_varint_enc_len(v: nat)
    ensures
        1 <= varint_enc(v).len(),
        v < 0x1_0000_0000_0000_0000 ==> varint_enc(v).len() <= 10,
    decreases v,
{
    if v >= 128 {
        lemma_varint_enc_len(v / 128);
    }
    if v < 0x1_0000_0000_0000_0000 {
        assert(0x1_0000_0000_0000_0000 <= vstd::arithmetic::power2::pow2(70)) by {
            vstd::arithmetic::power2::lemma2_to64();
            vstd::arithmetic::power2::lemma_pow2_strictly_increases(64, 70);
        }
        lemma_varint_enc_len_k(v, 10);
    }
}

/// The encoding of an unsigned 64-bit value.
pub fn varint_encode(v: u64) -> (r: Vec<u8>)
    ensures
        r@ == varint_enc(v as nat),
    decreases v,
{
    let mut r: Vec<u8> = Vec::new();
    if v < 128 {
        r.push(v as u8);
        proof {
            assert(r@ =~= varint_enc(v as nat));
        }
    } else {
        r.push((v % 128 + 128) as u8);
        let mut tail = varint_encode(v / 128);
        r.append(&mut tail);
        proof {
            assert(r@ =~= varint_enc(v as nat));
        }
    }
    r
}

/// Reads a varint at position `i`, `None` when the sequence ends inside it
/// or the value does not fit an unsigned 64-bit value.
pub fn read_varint(s: &Vec<u8>, i: usize) -> (r: Option<(u64, usize)>)
    ensures
        (r matches Some((v, j)) ==> varint_dec64(s@, i as int) == Some((v, j as int)) && i < j
            <= s@.len()),
        (r is None ==> varint_dec64(s@, i as int) is None),
    decreases s@.len() - i,
{
    if i >= s.len() {
        None
    } else {
        let b = s[i];
        if b < 128 {
            Some((b as u64, i + 1))
        } else {
            match read_varint(s, i + 1) {
                None => {
                    proof {
                        match varint_dec(s@, i + 1) {
                            Some((v, j)) => {
                                assert(v >= 0x1_0000_0000_0000_0000);
                                assert(((s@[i as int] - 128) as nat) + 128 * v >= v);
                            },
                            None => {},
                        }
                    }
                    None
                },
                Some((v, j)) => {
                    let low = (b - 128) as u64;
                    match v.checked_mul(128) {
                        None => {
                            proof {
                                assert(128 * (v as nat) >= 0x1_0000_0000_0000_0000);
                            }
                            None
                        },
                        Some(m) => match m.checked_add(low) {
                            None => {
                                proof {
                                    assert(((s@[i as int] - 128) as nat) + 128 * (v as nat)
                                        >= 0x1_0000_0000_0000_0000);
                                }
                                None
                            },
                            Some(val) => Some((val, j)),
                        },
                    }
                },
            }
        }
    }
}

} // verus!
