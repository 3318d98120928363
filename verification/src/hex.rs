//! Lower-case hexadecimal encoding of bytes (as `hex::encode` gives it).
use vstd::prelude::*;

verus! {

/// The lower-case hexadecimal digit for `n` (below 16).
pub open spec fn hex_digit(n: int) -> char {
    if n < 10 {
        (n + 48) as char
    } else {
        (n + 87) as char
    }
}

/// Two lower-case hexadecimal digits per byte, the high half first.
pub open spec fn hex_lower(bytes: Seq<u8>) -> Seq<char>
    decreases bytes.len(),
{
    if bytes.len() == 0 {
        Seq::empty()
    } else {
        hex_lower(bytes.drop_last()) + seq![
            hex_digit(bytes.last() as int / 16),
            hex_digit(bytes.last() as int % 16),
        ]
    }
}

/// Every character is a lower-case hexadecimal digit.
pub open spec fn is_hex_lower(s: Seq<char>) -> bool {
    forall|i: int| 0 <= i < s.len() ==> ('0' <= #[trigger] s[i] <= '9' || 'a' <= s[i] <= 'f')
}

/// Encoded bytes are lower-case hexadecimal digits.
pub proof fn lemma_hex_lower_digits(bytes: Seq<u8>)
    ensures
        is_hex_lower(hex_lower(bytes)),
        hex_lower(bytes).len() == 2 * bytes.len(),
    decreases bytes.len(),
{
    if bytes.len() > 0 {
        lemma_hex_lower_digits(bytes.drop_last());
        let b = bytes.last() as int;
        let rest = hex_lower(bytes.drop_last());
        let pair = seq![hex_digit(b / 16), hex_digit(b % 16)];
        assert forall|i: int| 0 <= i < hex_lower(bytes).len() implies ('0' <= #[trigger] hex_lower(
            bytes,
        )[i] <= '9' || 'a' <= hex_lower(bytes)[i] <= 'f') by {
            if i >= rest.len() {
                assert(hex_lower(bytes)[i] == pair[i - rest.len()]);
            } else {
                assert(hex_lower(bytes)[i] == rest[i]);
            }
        }
    }
}

/// `String::push`: appends one character.
#[verifier::external_body]
fn push_char(s: &mut String, c: char)
    ensures
        final(s)@ == old(s)@.push(c),
{
    s.push(c)
}

/// The digit for a half byte.
fn digit(n: u8) -> (c: char)
    requires
        n < 16,
    ensures
        c == hex_digit(n as int),
{
    if n < 10 {
        (n + 48) as char
    } else {
        (n + 87) as char
    }
}

/// The lower-case hexadecimal encoding of `bytes`.
pub fn encode(bytes: &[u8]) -> (res: String)
    ensures
        res@ == hex_lower(bytes@),
        res@.len() == 2 * bytes@.len(),
        is_hex_lower(res@),
{
    proof {
        lemma_hex_lower_digits(bytes@);
    }
    let mut out = String::new();
    let mut i: usize = 0;
    assert(bytes@.take(0) =~= Seq::<u8>::empty());
    while i < bytes.len()
        invariant
            i <= bytes@.len(),
            out@ == hex_lower(bytes@.take(i as int)),
            out@.len() == 2 * i,
        decreases bytes@.len() - i,
    {
        let b = bytes[i];
        push_char(&mut out, digit(b / 16));
        push_char(&mut out, digit(b % 16));
        assert(bytes@.take(i + 1).drop_last() =~= bytes@.take(i as int));
        assert(bytes@.take(i + 1).last() == b);
        assert(out@ =~= hex_lower(bytes@.take(i + 1)));
        i += 1;
    }
    assert(bytes@.take(bytes@.len() as int) =~= bytes@);
    out
}

} // verus!
