//! Byte-level helpers for assembling protocol text.

use vstd::prelude::*;
use vstd::string::*;
use vstd::utf8::*;

verus! {

/// The bytes that a string is written as.
pub open spec fn bytes_of(s: Seq<char>) -> Seq<u8> {
    encode_utf8(s)
}

/// Appends `bytes` to `buf`.
pub fn append_bytes(buf: &mut Vec<u8>, bytes: &[u8])
    ensures
        final(buf)@ == old(buf)@ + bytes@,
{
    let mut i: usize = 0;
    while i < bytes.len()
        invariant
            i <= bytes.len(),
            buf@ == old(buf)@ + bytes@.take(i as int),
        decreases bytes.len() - i,
    {
        buf.push(bytes[i]);
        i += 1;
        assert(bytes@.take(i as int) == bytes@.take(i - 1).push(bytes@[i - 1]));
    }
    assert(bytes@.take(i as int) == bytes@);
}

/// Appends the bytes of `s` to `buf`.
pub fn append_str(buf: &mut Vec<u8>, s: &str)
    ensures
        final(buf)@ == old(buf)@ + bytes_of(s@),
{
    append_bytes(buf, s.as_bytes());
}

/// The bytes of two texts in a row are the bytes of the one, then the bytes
/// of the other.
pub proof fn lemma_bytes_of_concat(a: Seq<char>, b: Seq<char>)
    ensures
        bytes_of(a + b) == bytes_of(a) + bytes_of(b),
    decreases a.len(),
{
    if a.len() == 0 {
        assert(a + b =~= b);
        assert(bytes_of(a) + bytes_of(b) =~= bytes_of(b));
    } else {
        assert((a + b).drop_first() =~= a.drop_first() + b);
        assert((a + b)[0] == a[0]);
        lemma_bytes_of_concat(a.drop_first(), b);
        assert(bytes_of(a + b) =~= bytes_of(a) + bytes_of(b));
    }
}

/// An ASCII character is written as the one byte of its number.
pub proof fn lemma_bytes_of_ascii(c: char)
    requires
        c as u32 <= 0x7f,
    ensures
        bytes_of(seq![c]) == seq![c as u8],
{
    let one = seq![c];
    assert(is_ascii_chars(one));
    is_ascii_chars_encode_utf8(one);
    assert(one[0] == c);
    assert(bytes_of(one) =~= seq![c as u8]);
}

/// Text that holds an ASCII character holds its byte.
proof fn lemma_ascii_shows_in_bytes(s: Seq<char>, k: int)
    requires
        0 <= k < s.len(),
        s[k] as u32 <= 0x7f,
    ensures
        bytes_of(s).contains(s[k] as u8),
{
    let before = s.take(k);
    let after = s.skip(k + 1);
    assert(s =~= before + seq![s[k]] + after);
    lemma_bytes_of_concat(before + seq![s[k]], after);
    lemma_bytes_of_concat(before, seq![s[k]]);
    lemma_bytes_of_ascii(s[k]);
    let bytes = bytes_of(before) + seq![s[k] as u8] + bytes_of(after);
    assert(bytes[bytes_of(before).len() as int] == s[k] as u8);
}

/// Text whose bytes are cut at an ASCII byte is cut at that character.
proof fn lemma_cut_in_chars(whole: Seq<char>, head: Seq<char>, tail: Seq<char>, sep: u8)
    requires
        sep < 0x80,
        bytes_of(whole) == bytes_of(head).push(sep) + bytes_of(tail),
    ensures
        whole == head.push(sep as char) + tail,
{
    let c = sep as char;
    let joined = head.push(c) + tail;
    assert(head.push(c) =~= head + seq![c]);
    lemma_bytes_of_concat(head.push(c), tail);
    lemma_bytes_of_concat(head, seq![c]);
    lemma_bytes_of_ascii(c);
    assert(bytes_of(joined) =~= bytes_of(whole));
    encode_utf8_decode_utf8(joined);
    encode_utf8_decode_utf8(whole);
}

/// Splits `s` at the first character `sep`, which is left out of both halves.
pub(crate) fn split_once<'a>(s: &'a str, sep: u8) -> (r: Option<(&'a str, &'a str)>)
    requires
        sep < 0x80,
    ensures
        match r {
            None => !s@.contains(sep as char),
            Some((head, tail)) => !head@.contains(sep as char) && s@ == head@.push(sep as char)
                + tail@,
        },
{
    let bytes = s.as_bytes();
    let mut i: usize = 0;
    while i < bytes.len()
        invariant
            i <= bytes.len(),
            sep < 0x80,
            bytes@ == bytes_of(s@),
            forall|j: int| 0 <= j < i ==> bytes@[j] != sep,
        decreases bytes.len() - i,
    {
        if bytes[i] == sep {
            proof {
                encode_utf8_valid_utf8(s@);
                is_char_boundary_iff_not_is_continuation_byte(bytes@, i as int);
            }
            let (head, rest) = s.split_at(i);
            proof {
                encode_utf8_valid_utf8(rest@);
                lemma_boundary_after_ascii(bytes_of(rest@));
            }
            let (_, tail) = rest.split_at(1);
            proof {
                assert(bytes_of(s@) =~= bytes_of(head@).push(sep) + bytes_of(tail@));
                lemma_cut_in_chars(s@, head@, tail@, sep);
                assert forall|k: int| 0 <= k < head@.len() implies head@[k] != sep as char by {
                    if head@[k] == sep as char {
                        lemma_ascii_shows_in_bytes(head@, k);
                    }
                }
            }
            return Some((head, tail));
        }
        i += 1;
    }
    proof {
        assert forall|k: int| 0 <= k < s@.len() implies s@[k] != sep as char by {
            if s@[k] == sep as char {
                lemma_ascii_shows_in_bytes(s@, k);
            }
        }
    }
    None
}

/// Drops the leading character `lead` from `s`, where `s` starts with it.
pub(crate) fn strip_leading<'a>(s: &'a str, lead: u8) -> (r: Option<&'a str>)
    requires
        lead < 0x80,
    ensures
        match r {
            None => s@.len() == 0 || s@[0] != lead as char,
            Some(rest) => s@ == seq![lead as char] + rest@,
        },
{
    let bytes = s.as_bytes();
    if bytes.len() > 0 && bytes[0] == lead {
        proof {
            encode_utf8_valid_utf8(s@);
            lemma_boundary_after_ascii(bytes_of(s@));
        }
        let (_, rest) = s.split_at(1);
        proof {
            let none = Seq::<char>::empty();
            assert(bytes_of(none) =~= Seq::<u8>::empty());
            assert(bytes_of(s@) =~= bytes_of(none).push(lead) + bytes_of(rest@));
            lemma_cut_in_chars(s@, none, rest@, lead);
            assert(none.push(lead as char) =~= seq![lead as char]);
        }
        Some(rest)
    } else {
        proof {
            if s@.len() > 0 && s@[0] == lead as char {
                let after = s@.skip(1);
                assert(s@ =~= seq![s@[0]] + after);
                lemma_bytes_of_concat(seq![s@[0]], after);
                lemma_bytes_of_ascii(s@[0]);
                assert(bytes_of(s@)[0] == lead);
            }
        }
        None
    }
}

/// Text may be cut right after a leading ASCII byte.
proof fn lemma_boundary_after_ascii(bytes: Seq<u8>)
    requires
        valid_utf8(bytes),
        bytes.len() > 0,
        bytes[0] < 0x80,
    ensures
        is_char_boundary(bytes, 1),
{
    reveal_with_fuel(valid_utf8, 2);
    reveal_with_fuel(is_char_boundary, 2);
}

/// The decimal digits of `n`, most significant first, without padding.
pub open spec fn decimal(n: nat) -> Seq<u8>
    decreases n,
{
    if n < 10 {
        seq![(48 + n) as u8]
    } else {
        decimal(n / 10).push((48 + n % 10) as u8)
    }
}

/// Whether `b` is one of the digits `0` to `9`.
pub open spec fn is_digit(b: u8) -> bool {
    48 <= b <= 57
}

/// The number that a run of decimal digits stands for.
pub open spec fn decimal_value(digits: Seq<u8>) -> nat
    decreases digits.len(),
{
    if digits.len() == 0 {
        0
    } else {
        (decimal_value(digits.drop_last()) * 10 + (digits.last() - 48)) as nat
    }
}

/// Reading back the digits of a number gives the number, and the digits are
/// digits: one at least, and no leading zero but for zero itself.
pub proof fn lemma_decimal_round_trip(n: nat)
    ensures
        decimal_value(decimal(n)) == n,
        decimal(n).len() >= 1,
        forall|i: int| 0 <= i < decimal(n).len() ==> is_digit(#[trigger] decimal(n)[i]),
        n > 0 ==> decimal(n)[0] != 48,
    decreases n,
{
    if n < 10 {
        assert(decimal(n).drop_last() =~= Seq::<u8>::empty());
        assert(decimal_value(Seq::<u8>::empty()) == 0);
    } else {
        lemma_decimal_round_trip(n / 10);
        assert(decimal(n).drop_last() =~= decimal(n / 10));
    }
}

/// Appends the decimal digits of `n` to `buf`.
pub fn append_decimal(buf: &mut Vec<u8>, n: usize)
    ensures
        final(buf)@ == old(buf)@ + decimal(n as nat),
{
    let mut digits: Vec<u8> = Vec::new();
    let mut rest: usize = n;
    // The digits are produced least significant first.
    while rest >= 10
        invariant
            decimal(n as nat) == decimal(rest as nat) + digits@.reverse(),
        decreases rest,
    {
        let d: u8 = (rest % 10) as u8;
        proof {
            let next = digits@.push((48 + d) as u8);
            assert(next.reverse() =~= seq![(48 + d) as u8] + digits@.reverse());
            assert(decimal(rest as nat) == decimal((rest / 10) as nat).push((48 + d) as u8));
            assert(decimal((rest / 10) as nat).push((48 + d) as u8) + digits@.reverse()
                =~= decimal((rest / 10) as nat) + next.reverse());
        }
        digits.push(48 + d);
        rest = rest / 10;
    }
    buf.push(48 + (rest as u8));
    proof {
        assert(decimal(rest as nat) =~= seq![(48 + rest) as u8]);
    }
    let ghost start = buf@;
    let mut i: usize = digits.len();
    while i > 0
        invariant
            i <= digits.len(),
            buf@ == start + digits@.reverse().take(digits.len() - i),
        decreases i,
    {
        i -= 1;
        buf.push(digits[i]);
        proof {
            let r = digits@.reverse();
            let k = digits.len() - i;
            assert(r.take(k) =~= r.take(k - 1).push(r[k - 1]));
        }
    }
    proof {
        assert(digits@.reverse().take(digits.len() as int) =~= digits@.reverse());
        assert(start + digits@.reverse() =~= old(buf)@ + decimal(n as nat));
    }
}

} // verus!
