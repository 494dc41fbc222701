//! The content hash of a statement group: the SHA-256 digest of the
//! statements concatenated verbatim in completion order, rendered as
//! uppercase hexadecimal. The digest itself comes from the `sha2` crate; the
//! concatenation and the hexadecimal rendering are verified here.

use sha2::Digest;
use vstd::prelude::*;

verus! {

/// The SHA-256 digest of the UTF-8 encoding of a character sequence. The
/// digest is a pure function of the input; nothing further is assumed of it.
pub uninterp spec fn sha256_of(s: Seq<char>) -> Seq<u8>;

/// Relies on sha2::Sha256 (`Digest::new`/`update`/`finalize`): the digest is
/// 32 bytes and depends on the input bytes alone.
#[verifier::external_body]
pub fn sha256_digest(s: &str) -> (r: Vec<u8>)
    ensures
        r@ == sha256_of(s@),
        r@.len() == 32,
{
    let mut hasher = sha2::Sha256::new();
    hasher.update(s.as_bytes());
    hasher.finalize().to_vec()
}

/// Relies on String::push: appends the given character to the end of the string.
#[verifier::external_body]
pub fn push_char(s: &mut String, c: char)
    ensures
        final (s)@ == old(s)@.push(c),
{
    s.push(c);
}

/// The uppercase hexadecimal digit for a value below sixteen.
pub open spec fn hex_digit(n: u8) -> char
    recommends
        n < 16,
{
    if n == 0 {
        '0'
    } else if n == 1 {
        '1'
    } else if n == 2 {
        '2'
    } else if n == 3 {
        '3'
    } else if n == 4 {
        '4'
    } else if n == 5 {
        '5'
    } else if n == 6 {
        '6'
    } else if n == 7 {
        '7'
    } else if n == 8 {
        '8'
    } else if n == 9 {
        '9'
    } else if n == 10 {
        'A'
    } else if n == 11 {
        'B'
    } else if n == 12 {
        'C'
    } else if n == 13 {
        'D'
    } else if n == 14 {
        'E'
    } else {
        'F'
    }
}

/// The two uppercase hexadecimal digits of one byte, high nibble first.
pub open spec fn spec_byte_hex(b: u8) -> Seq<char> {
    seq![hex_digit(b / 16), hex_digit(b % 16)]
}

/// The uppercase hexadecimal rendering of a byte sequence.
pub open spec fn spec_upper_hex(bs: Seq<u8>) -> Seq<char>
    decreases bs.len(),
{
    if bs.len() == 0 {
        Seq::<char>::empty()
    } else {
        spec_byte_hex(bs[0]) + spec_upper_hex(bs.drop_first())
    }
}

proof fn lemma_upper_hex_push(bs: Seq<u8>, b: u8)
    ensures
        spec_upper_hex(bs.push(b)) == spec_upper_hex(bs) + spec_byte_hex(b),
    decreases bs.len(),
{
    if bs.len() == 0 {
        assert(bs.push(b)[0] == b);
        assert(bs.push(b).drop_first() =~= Seq::<u8>::empty());
        assert(spec_upper_hex(bs.push(b).drop_first()) =~= Seq::<char>::empty());
        assert(spec_upper_hex(bs.push(b)) == spec_byte_hex(b) + spec_upper_hex(
            bs.push(b).drop_first(),
        ));
        assert(spec_byte_hex(b) + Seq::<char>::empty() =~= spec_byte_hex(b));
        assert(spec_upper_hex(bs) + spec_byte_hex(b) =~= spec_byte_hex(b));
    } else {
        assert(bs.push(b).drop_first() =~= bs.drop_first().push(b));
        lemma_upper_hex_push(bs.drop_first(), b);
        assert(spec_upper_hex(bs.push(b)) =~= spec_upper_hex(bs) + spec_byte_hex(b));
    }
}

fn hex_digit_char(n: u8) -> (c: char)
    requires
        n < 16,
    ensures
        c == hex_digit(n),
{
    if n == 0 {
        '0'
    } else if n == 1 {
        '1'
    } else if n == 2 {
        '2'
    } else if n == 3 {
        '3'
    } else if n == 4 {
        '4'
    } else if n == 5 {
        '5'
    } else if n == 6 {
        '6'
    } else if n == 7 {
        '7'
    } else if n == 8 {
        '8'
    } else if n == 9 {
        '9'
    } else if n == 10 {
        'A'
    } else if n == 11 {
        'B'
    } else if n == 12 {
        'C'
    } else if n == 13 {
        'D'
    } else if n == 14 {
        'E'
    } else {
        'F'
    }
}

/// Renders a byte sequence as uppercase hexadecimal, two digits per byte.
pub fn to_upper_hex(bytes: &Vec<u8>) -> (r: String)
    ensures
        r@ == spec_upper_hex(bytes@),
{
    let mut out = String::new();
    let mut i: usize = 0;
    while i < bytes.len()
        invariant
            0 <= i <= bytes@.len(),
            out@ == spec_upper_hex(bytes@.take(i as int)),
        decreases bytes@.len() - i,
    {
        let b = bytes[i];
        push_char(&mut out, hex_digit_char(b / 16));
        push_char(&mut out, hex_digit_char(b % 16));
        proof {
            lemma_upper_hex_push(bytes@.take(i as int), b);
            assert(bytes@.take(i as int).push(b) =~= bytes@.take(i + 1));
            assert(out@ =~= spec_upper_hex(bytes@.take(i + 1)));
        }
        i = i + 1;
    }
    proof {
        assert(bytes@.take(bytes@.len() as int) =~= bytes@);
    }
    out
}

/// The concatenation of the statements of a group, verbatim, in order.
pub open spec fn spec_concat_all(qs: Seq<Seq<char>>) -> Seq<char>
    decreases qs.len(),
{
    if qs.len() == 0 {
        Seq::<char>::empty()
    } else {
        spec_concat_all(qs.drop_last()) + qs.last()
    }
}

/// The content hash of a statement group: uppercase-hex SHA-256 of the
/// statements concatenated verbatim in order.
pub open spec fn spec_group_hash(qs: Seq<Seq<char>>) -> Seq<char> {
    spec_upper_hex(sha256_of(spec_concat_all(qs)))
}

} // verus!
