//! Helpers for inspecting recovered bit streams: hex lines to bits, bits to
//! bytes, and printable renderings of bytes.

use vstd::prelude::*;

use crate::error::ErrorKind;
use crate::text::{decimal_text, push_char, push_decimal, push_str};

verus! {

/// The value of a hexadecimal digit (either case).
pub open spec fn hex_value(c: char) -> Option<nat> {
    if '0' <= c && c <= '9' {
        Some((c as u32 - '0' as u32) as nat)
    } else if 'a' <= c && c <= 'f' {
        Some((c as u32 - 'a' as u32 + 10) as nat)
    } else if 'A' <= c && c <= 'F' {
        Some((c as u32 - 'A' as u32 + 10) as nat)
    } else {
        None
    }
}

/// The four bits of a nibble, most significant first.
pub open spec fn nibble_bits(v: nat) -> Seq<u8> {
    seq![(v / 8 % 2) as u8, (v / 4 % 2) as u8, (v / 2 % 2) as u8, (v % 2) as u8]
}

/// All hex digits of `s` as bits, four per digit; `None` if any character
/// is not a hex digit.
pub open spec fn hex_bits_spec(s: Seq<char>) -> Option<Seq<u8>>
    decreases s.len(),
{
    if s.len() == 0 {
        Some(Seq::empty())
    } else {
        match hex_bits_spec(s.drop_last()) {
            None => None,
            Some(b) => match hex_value(s.last()) {
                None => None,
                Some(v) => Some(b + nibble_bits(v)),
            },
        }
    }
}

fn hex_digit(c: char) -> (r: Option<u8>)
    ensures
        match hex_value(c) {
            Some(v) => r == Some(v as u8),
            None => r is None,
        },
{
    if '0' <= c && c <= '9' {
        Some((c as u32 - '0' as u32) as u8)
    } else if 'a' <= c && c <= 'f' {
        Some((c as u32 - 'a' as u32 + 10) as u8)
    } else if 'A' <= c && c <= 'F' {
        Some((c as u32 - 'A' as u32 + 10) as u8)
    } else {
        None
    }
}

/// Expands a line of hex digits into bits (0 or 1), four per digit.
pub fn hex_bits(line: &str) -> (r: Result<Vec<u8>, ErrorKind>)
    ensures
        match hex_bits_spec(line@) {
            Some(b) => r matches Ok(v) && v@ == b,
            None => r == Err::<Vec<u8>, ErrorKind>(ErrorKind::InvalidNumber),
        },
{
    let n = line.unicode_len();
    let mut out: Vec<u8> = Vec::new();
    let mut i: usize = 0;
    while i < n
        invariant
            n == line@.len(),
            i <= n,
            hex_bits_spec(line@.take(i as int)) == Some(out@),
        decreases n - i,
    {
        let c = line.get_char(i);
        assert(line@.take(i + 1).drop_last() =~= line@.take(i as int));
        let v = match hex_digit(c) {
            None => {
                proof {
                    lemma_hex_prefix_fails(line@, i + 1);
                }
                return Err(ErrorKind::InvalidNumber);
            },
            Some(v) => v,
        };
        out.push(v / 8 % 2);
        out.push(v / 4 % 2);
        out.push(v / 2 % 2);
        out.push(v % 2);
        i = i + 1;
        assert(out@ =~= hex_bits_spec(line@.take(i - 1)).unwrap() + nibble_bits(v as nat));
    }
    assert(line@.take(n as int) =~= line@);
    Ok(out)
}

proof fn lemma_hex_prefix_fails(s: Seq<char>, i: int)
    requires
        0 <= i <= s.len(),
        hex_bits_spec(s.take(i)) is None,
    ensures
        hex_bits_spec(s) is None,
    decreases s.len() - i,
{
    if i < s.len() {
        assert(s.take(i + 1).drop_last() =~= s.take(i));
        lemma_hex_prefix_fails(s, i + 1);
    } else {
        assert(s.take(i) =~= s);
    }
}

/// The value of bits (each 0 or 1), most significant first.
pub open spec fn bits_value(b: Seq<u8>) -> nat
    decreases b.len(),
{
    if b.len() == 0 {
        0
    } else {
        2 * bits_value(b.drop_last()) + b.last() as nat
    }
}

/// Packs up to eight bits, most significant first, into a byte.
pub fn to_byte(bits: &[u8]) -> (r: u8)
    requires
        bits@.len() <= 8,
        forall|i: int| 0 <= i < bits@.len() ==> #[trigger] bits@[i] <= 1,
    ensures
        r == bits_value(bits@),
{
    let mut acc: u8 = 0;
    let mut i: usize = 0;
    proof {
        vstd::arithmetic::power2::lemma_pow2_pos(0);
    }
    while i < bits.len()
        invariant
            bits@.len() <= 8,
            forall|k: int| 0 <= k < bits@.len() ==> #[trigger] bits@[k] <= 1,
            i <= bits@.len(),
            acc == bits_value(bits@.take(i as int)),
            acc < vstd::arithmetic::power2::pow2(i as nat),
        decreases bits.len() - i,
    {
        assert(bits@.take(i + 1).drop_last() =~= bits@.take(i as int));
        proof {
            vstd::arithmetic::power2::lemma_pow2_unfold(i as nat + 1);
            vstd::arithmetic::power2::lemma2_to64();
            if i + 1 < 8 {
                vstd::arithmetic::power2::lemma_pow2_strictly_increases(i as nat + 1, 8);
            }
        }
        acc = acc * 2 + bits[i];
        i = i + 1;
    }
    assert(bits@.take(i as int) =~= bits@);
    acc
}

/// A visible ASCII character (`!` to `~`).
pub open spec fn is_graphic(b: u8) -> bool {
    0x21 <= b && b <= 0x7e
}

/// How one byte is shown: itself if visible, a space for zero, else `.`.
pub open spec fn printable_of(b: u8) -> char {
    if is_graphic(b) {
        b as char
    } else if b == 0 {
        ' '
    } else {
        '.'
    }
}

/// Shows bytes one character each: visible ASCII as is, zero as a space,
/// anything else as `.`.
pub fn printables(decoded: &[u8]) -> (r: String)
    ensures
        r@ == Seq::new(decoded@.len(), |i: int| printable_of(decoded@[i])),
{
    let mut s = String::new();
    let mut i: usize = 0;
    while i < decoded.len()
        invariant
            i <= decoded@.len(),
            s@ == Seq::new(i as nat, |k: int| printable_of(decoded@[k])),
        decreases decoded.len() - i,
    {
        let b = decoded[i];
        let c = if 0x21 <= b && b <= 0x7e {
            b as char
        } else if b == 0 {
            ' '
        } else {
            '.'
        };
        push_char(&mut s, c);
        i = i + 1;
        assert(s@ =~= Seq::new(i as nat, |k: int| printable_of(decoded@[k])));
    }
    s
}

/// An ASCII letter.
pub open spec fn is_letter(b: u8) -> bool {
    (0x41 <= b && b <= 0x5a) || (0x61 <= b && b <= 0x7a)
}

/// How one byte is shown unambiguously: a letter as itself, anything else
/// as `\d{N}` with its decimal value.
pub open spec fn unambiguous_of(b: u8) -> Seq<char> {
    if is_letter(b) {
        seq![b as char]
    } else {
        "\\d{"@ + decimal_text(b as nat) + "}"@
    }
}

/// The renderings of `bytes`, one after another.
pub open spec fn unambiguous_text(bytes: Seq<u8>) -> Seq<char>
    decreases bytes.len(),
{
    if bytes.len() == 0 {
        Seq::empty()
    } else {
        unambiguous_text(bytes.drop_last()) + unambiguous_of(bytes.last())
    }
}

/// Shows bytes so that letters stand out and every other byte is spelled
/// out as `\d{N}`.
pub fn unambiguous(decoded: &[u8]) -> (r: String)
    ensures
        r@ == unambiguous_text(decoded@),
{
    let mut s = String::new();
    let mut i: usize = 0;
    while i < decoded.len()
        invariant
            i <= decoded@.len(),
            s@ == unambiguous_text(decoded@.take(i as int)),
        decreases decoded.len() - i,
    {
        let b = decoded[i];
        assert(decoded@.take(i + 1).drop_last() =~= decoded@.take(i as int));
        if (0x41 <= b && b <= 0x5a) || (0x61 <= b && b <= 0x7a) {
            push_char(&mut s, b as char);
        } else {
            push_str(&mut s, "\\d{");
            push_decimal(&mut s, b as u64);
            push_str(&mut s, "}");
        }
        i = i + 1;
        assert(s@ =~= unambiguous_text(decoded@.take(i as int)));
    }
    assert(decoded@.take(i as int) =~= decoded@);
    s
}

} // verus!
