//! Lowercase hexadecimal text for byte buffers: two digits per byte, no
//! separators, no prefix.

use vstd::prelude::*;

verus! {

/// The lowercase hexadecimal digit of a value below 16.
pub open spec fn hex_digit(d: int) -> char {
    if d < 10 {
        (('0' as u8) + d) as char
    } else {
        (('a' as u8) + (d - 10)) as char
    }
}

/// The lowercase hexadecimal form of a byte sequence.
pub open spec fn hex_of(bytes: Seq<u8>) -> Seq<char>
    decreases bytes.len(),
{
    if bytes.len() == 0 {
        Seq::empty()
    } else {
        let b = bytes.last() as int;
        hex_of(bytes.drop_last()).push(hex_digit(b / 16)).push(hex_digit(b % 16))
    }
}

/// Whether `c` is a hexadecimal digit, either case.
pub open spec fn is_hex_digit(c: char) -> bool {
    ('0' <= c && c <= '9') || ('a' <= c && c <= 'f') || ('A' <= c && c <= 'F')
}

/// The value of a hexadecimal digit.
pub open spec fn hex_val(c: char) -> int {
    if '0' <= c && c <= '9' {
        c as int - '0' as int
    } else if 'a' <= c && c <= 'f' {
        c as int - 'a' as int + 10
    } else {
        c as int - 'A' as int + 10
    }
}

/// The bytes encoded by a run of hexadecimal digits, two per byte.
pub open spec fn hex_decode(s: Seq<char>) -> Seq<u8>
    decreases s.len(),
{
    if s.len() < 2 {
        Seq::empty()
    } else {
        hex_decode(s.drop_last().drop_last()).push(
            (hex_val(s[s.len() - 2]) * 16 + hex_val(s[s.len() - 1])) as u8,
        )
    }
}

pub broadcast proof fn lemma_hex_of_len(bytes: Seq<u8>)
    ensures
        #[trigger] hex_of(bytes).len() == 2 * bytes.len(),
    decreases bytes.len(),
{
    if bytes.len() > 0 {
        lemma_hex_of_len(bytes.drop_last());
    }
}

pub proof fn lemma_hex_decode_len(s: Seq<char>)
    ensures
        hex_decode(s).len() == s.len() / 2,
    decreases s.len(),
{
    if s.len() >= 2 {
        lemma_hex_decode_len(s.drop_last().drop_last());
    }
}

pub proof fn lemma_hex_of_digits(bytes: Seq<u8>)
    ensures
        forall|i: int| 0 <= i < hex_of(bytes).len() ==> is_hex_digit(#[trigger] hex_of(bytes)[i]),
    decreases bytes.len(),
{
    lemma_hex_of_len(bytes);
    if bytes.len() > 0 {
        lemma_hex_of_digits(bytes.drop_last());
        lemma_hex_of_len(bytes.drop_last());
    }
}

/// Decoding inverts encoding: the law of the byte-buffer round trip.
pub proof fn lemma_hex_roundtrip(bytes: Seq<u8>)
    ensures
        hex_decode(hex_of(bytes)) == bytes,
    decreases bytes.len(),
{
    lemma_hex_of_len(bytes);
    if bytes.len() == 0 {
        assert(hex_decode(hex_of(bytes)) =~= bytes);
    } else {
        lemma_hex_roundtrip(bytes.drop_last());
        lemma_hex_of_len(bytes.drop_last());
        let s = hex_of(bytes);
        let b = bytes.last() as int;
        assert(s[s.len() - 2] == hex_digit(b / 16));
        assert(s[s.len() - 1] == hex_digit(b % 16));
        assert(s.drop_last().drop_last() =~= hex_of(bytes.drop_last()));
        assert(hex_val(hex_digit(b / 16)) == b / 16);
        assert(hex_val(hex_digit(b % 16)) == b % 16);
        assert(hex_decode(s) =~= bytes);
    }
}

fn hex_digit_char(d: u8) -> (r: char)
    requires
        d < 16,
    ensures
        r == hex_digit(d as int),
{
    if d < 10 {
        (('0' as u8) + d) as char
    } else {
        (('a' as u8) + (d - 10)) as char
    }
}

/// The lowercase hexadecimal form of a byte buffer.
pub fn hex_encode(bytes: &[u8]) -> (r: Vec<char>)
    ensures
        r@ == hex_of(bytes@),
{
    let mut out: Vec<char> = Vec::new();
    let mut k: usize = 0;
    while k < bytes.len()
        invariant
            k <= bytes@.len(),
            out@ == hex_of(bytes@.take(k as int)),
        decreases bytes@.len() - k,
    {
        let b = bytes[k];
        out.push(hex_digit_char(b / 16));
        out.push(hex_digit_char(b % 16));
        proof {
            assert(bytes@.take(k + 1).drop_last() =~= bytes@.take(k as int));
            assert(bytes@.take(k + 1).last() == bytes@[k as int]);
            assert(out@ =~= hex_of(bytes@.take(k + 1)));
        }
        k += 1;
    }
    proof {
        assert(bytes@.take(bytes@.len() as int) =~= bytes@);
    }
    out
}

fn is_hex_digit_char(c: char) -> (r: bool)
    ensures
        r == is_hex_digit(c),
{
    ('0' <= c && c <= '9') || ('a' <= c && c <= 'f') || ('A' <= c && c <= 'F')
}

fn hex_val_char(c: char) -> (r: u8)
    requires
        is_hex_digit(c),
    ensures
        r as int == hex_val(c),
        r < 16,
{
    if '0' <= c && c <= '9' {
        (c as u8) - ('0' as u8)
    } else if 'a' <= c && c <= 'f' {
        (c as u8) - ('a' as u8) + 10
    } else {
        (c as u8) - ('A' as u8) + 10
    }
}

/// Whether every character is a hexadecimal digit.
pub fn all_hex_digits(s: &Vec<char>) -> (r: bool)
    ensures
        r == forall|i: int| 0 <= i < s@.len() ==> is_hex_digit(#[trigger] s@[i]),
{
    let mut k: usize = 0;
    while k < s.len()
        invariant
            k <= s@.len(),
            forall|i: int| 0 <= i < k ==> is_hex_digit(#[trigger] s@[i]),
        decreases s@.len() - k,
    {
        if !is_hex_digit_char(s[k]) {
            return false;
        }
        k += 1;
    }
    true
}

/// The bytes of an even-length run of hexadecimal digits.
pub fn hex_decode_chars(s: &Vec<char>) -> (r: Vec<u8>)
    requires
        s@.len() % 2 == 0,
        forall|i: int| 0 <= i < s@.len() ==> is_hex_digit(#[trigger] s@[i]),
    ensures
        r@ == hex_decode(s@),
{
    let mut out: Vec<u8> = Vec::new();
    let mut k: usize = 0;
    while k + 1 < s.len()
        invariant
            s@.len() % 2 == 0,
            forall|i: int| 0 <= i < s@.len() ==> is_hex_digit(#[trigger] s@[i]),
            k % 2 == 0,
            k <= s@.len(),
            out@ == hex_decode(s@.take(k as int)),
        decreases s@.len() - k,
    {
        let hi = hex_val_char(s[k]);
        let lo = hex_val_char(s[k + 1]);
        out.push(hi * 16 + lo);
        proof {
            let t = s@.take(k + 2);
            assert(t.drop_last().drop_last() =~= s@.take(k as int));
            assert(t[t.len() - 2] == s@[k as int]);
            assert(t[t.len() - 1] == s@[k + 1]);
            assert(out@ =~= hex_decode(s@.take(k + 2)));
        }
        k += 2;
    }
    proof {
        assert(k == s@.len());
        assert(s@.take(s@.len() as int) =~= s@);
    }
    out
}

} // verus!
