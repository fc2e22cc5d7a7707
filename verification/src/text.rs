//! Text helpers: lowercase hex encoding of byte sequences, and the
//! ASCII byte/character conversions the wire codec needs.

use vstd::prelude::*;
use vstd::string::StrSliceExecFns;
use vstd::utf8::is_ascii_chars;

verus! {

/// Relies on String::push: it appends the given character to the end of
/// the string and does nothing else.
#[verifier::external_body]
pub(crate) fn push_char(s: &mut String, c: char)
    ensures
        final(s)@ == old(s)@.push(c),
{
    s.push(c);
}

/// The lowercase hex digit for a value below sixteen.
pub open spec fn hex_digit(n: u8) -> char {
    if n == 0 {
        '0'
    } else if n == 1 {
        '1'
    } else if n == 2 {
        '2'
    } else if n == 3 {
        '3'
    } else if n == 4 {
        '4'
    } else if n == 5 {
        '5'
    } else if n == 6 {
        '6'
    } else if n == 7 {
        '7'
    } else if n == 8 {
        '8'
    } else if n == 9 {
        '9'
    } else if n == 10 {
        'a'
    } else if n == 11 {
        'b'
    } else if n == 12 {
        'c'
    } else if n == 13 {
        'd'
    } else if n == 14 {
        'e'
    } else {
        'f'
    }
}

/// The lowercase hex text of a byte sequence: two digits for each byte,
/// high nibble first.
pub open spec fn hex_of(bytes: Seq<u8>) -> Seq<char>
    decreases bytes.len(),
{
    if bytes.len() == 0 {
        Seq::<char>::empty()
    } else {
        hex_of(bytes.drop_last()) + seq![
            hex_digit((bytes.last() / 16) as u8),
            hex_digit((bytes.last() % 16) as u8),
        ]
    }
}

/// Hex text is ASCII and twice as long as the bytes it encodes.
pub proof fn lemma_hex_of_ascii(bytes: Seq<u8>)
    ensures
        is_ascii_chars(hex_of(bytes)),
        hex_of(bytes).len() == 2 * bytes.len(),
    decreases bytes.len(),
{
    if bytes.len() > 0 {
        lemma_hex_of_ascii(bytes.drop_last());
    }
}

fn hex_digit_char(n: u8) -> (c: char)
    requires
        n < 16,
    ensures
        c == hex_digit(n),
{
    if n == 0 {
        '0'
    } else if n == 1 {
        '1'
    } else if n == 2 {
        '2'
    } else if n == 3 {
        '3'
    } else if n == 4 {
        '4'
    } else if n == 5 {
        '5'
    } else if n == 6 {
        '6'
    } else if n == 7 {
        '7'
    } else if n == 8 {
        '8'
    } else if n == 9 {
        '9'
    } else if n == 10 {
        'a'
    } else if n == 11 {
        'b'
    } else if n == 12 {
        'c'
    } else if n == 13 {
        'd'
    } else if n == 14 {
        'e'
    } else {
        'f'
    }
}

/// The lowercase hex encoding of the given bytes.
pub fn hex_encode(bytes: &Vec<u8>) -> (s: String)
    ensures
        s@ == hex_of(bytes@),
        is_ascii_chars(s@),
{
    let mut s = String::new();
    let mut i: usize = 0;
    while i < bytes.len()
        invariant
            i <= bytes@.len(),
            s@ == hex_of(bytes@.take(i as int)),
        decreases bytes@.len() - i,
    {
        let b = bytes[i];
        push_char(&mut s, hex_digit_char(b / 16));
        push_char(&mut s, hex_digit_char(b % 16));
        proof {
            assert(bytes@.take(i + 1).drop_last() =~= bytes@.take(i as int));
            assert(bytes@.take(i + 1).last() == bytes@[i as int]);
            assert(s@ =~= hex_of(bytes@.take(i + 1)));
        }
        i = i + 1;
    }
    proof {
        assert(bytes@.take(bytes@.len() as int) =~= bytes@);
        lemma_hex_of_ascii(bytes@);
    }
    s
}

/// True when every byte is an ASCII code.
pub open spec fn ascii_bytes(bs: Seq<u8>) -> bool {
    forall|i: int| 0 <= i < bs.len() ==> #[trigger] bs[i] < 128
}

/// One byte per character; meaningful for ASCII character sequences.
pub open spec fn bytes_of_chars(cs: Seq<char>) -> Seq<u8> {
    cs.map_values(|c: char| c as u8)
}

/// One character per byte.
pub open spec fn chars_of_bytes(bs: Seq<u8>) -> Seq<char> {
    bs.map_values(|b: u8| b as char)
}

/// On ASCII text, reading characters off the encoded bytes gives the text
/// back, and the bytes are ASCII codes.
pub proof fn lemma_ascii_chars_bytes(cs: Seq<char>)
    requires
        is_ascii_chars(cs),
    ensures
        bytes_of_chars(cs).len() == cs.len(),
        ascii_bytes(bytes_of_chars(cs)),
        chars_of_bytes(bytes_of_chars(cs)) == cs,
{
    vstd::utf8::is_ascii_chars_nat_bound(cs);
    assert forall|i: int| 0 <= i < cs.len() implies #[trigger] bytes_of_chars(cs)[i] < 128 by {
        assert((cs[i] as nat) < 128);
    }
    assert forall|i: int| 0 <= i < cs.len() implies #[trigger] chars_of_bytes(bytes_of_chars(cs))[i]
        == cs[i] by {
        assert((cs[i] as nat) < 128);
    }
    assert(chars_of_bytes(bytes_of_chars(cs)) =~= cs);
}

/// Characters read off ASCII bytes form ASCII text.
pub proof fn lemma_ascii_bytes_chars(bs: Seq<u8>)
    requires
        ascii_bytes(bs),
    ensures
        chars_of_bytes(bs).len() == bs.len(),
        is_ascii_chars(chars_of_bytes(bs)),
        bytes_of_chars(chars_of_bytes(bs)) == bs,
{
    assert forall|i: int| 0 <= i < bs.len() implies '\0' <= #[trigger] chars_of_bytes(bs)[i]
        <= '\u{7f}' by {
        assert(bs[i] < 128);
    }
    assert(bytes_of_chars(chars_of_bytes(bs)) =~= bs);
}

/// The ASCII bytes of an ASCII string, one byte per character.
pub fn string_to_ascii_bytes(s: &str) -> (r: Vec<u8>)
    requires
        is_ascii_chars(s@),
    ensures
        r@ == bytes_of_chars(s@),
{
    let n = s.unicode_len();
    let mut r: Vec<u8> = Vec::new();
    let mut i: usize = 0;
    while i < n
        invariant
            is_ascii_chars(s@),
            n == s@.len(),
            i <= n,
            r@ == bytes_of_chars(s@).take(i as int),
        decreases n - i,
    {
        let b = s.get_ascii(i);
        r.push(b);
        proof {
            assert(r@ =~= bytes_of_chars(s@).take(i + 1));
        }
        i = i + 1;
    }
    proof {
        assert(bytes_of_chars(s@).take(n as int) =~= bytes_of_chars(s@));
    }
    r
}

/// The string read off a byte range, one character per byte; `None` when a
/// byte of the range is not an ASCII code.
pub fn string_of_ascii_range(bs: &Vec<u8>, from: usize, to: usize) -> (r: Option<String>)
    requires
        from <= to <= bs@.len(),
    ensures
        (match r {
            Some(s) => {
                &&& ascii_bytes(bs@.subrange(from as int, to as int))
                &&& s@ == chars_of_bytes(bs@.subrange(from as int, to as int))
                &&& is_ascii_chars(s@)
            },
            None => !ascii_bytes(bs@.subrange(from as int, to as int)),
        }),
{
    let ghost whole = bs@.subrange(from as int, to as int);
    let mut s = String::new();
    let mut i: usize = from;
    while i < to
        invariant
            from <= i <= to <= bs@.len(),
            whole == bs@.subrange(from as int, to as int),
            ascii_bytes(bs@.subrange(from as int, i as int)),
            s@ == chars_of_bytes(bs@.subrange(from as int, i as int)),
        decreases to - i,
    {
        let b = bs[i];
        if b >= 128 {
            proof {
                assert(whole[i - from] == bs@[i as int]);
            }
            return None;
        }
        push_char(&mut s, b as char);
        proof {
            assert(bs@.subrange(from as int, i + 1).drop_last() =~= bs@.subrange(
                from as int,
                i as int,
            ));
            assert(s@ =~= chars_of_bytes(bs@.subrange(from as int, i + 1)));
        }
        i = i + 1;
    }
    proof {
        lemma_ascii_bytes_chars(whole);
    }
    Some(s)
}

} // verus!
