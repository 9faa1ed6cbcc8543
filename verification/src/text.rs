//! Rendering of integers as decimal and hexadecimal text.
//!
//! Decimal rendering backs the status line and `Content-Length` header of
//! HTTP replies; hexadecimal rendering backs session identifiers. The
//! injectivity lemmas let the registry prove that a fresh session identifier
//! differs from every identifier built from a smaller counter.

use vstd::prelude::*;

verus! {

/// The character for one digit value below sixteen.
pub open spec fn digit_char(d: nat) -> char {
    if d == 0 {
        '0'
    } else if d == 1 {
        '1'
    } else if d == 2 {
        '2'
    } else if d == 3 {
        '3'
    } else if d == 4 {
        '4'
    } else if d == 5 {
        '5'
    } else if d == 6 {
        '6'
    } else if d == 7 {
        '7'
    } else if d == 8 {
        '8'
    } else if d == 9 {
        '9'
    } else if d == 10 {
        'a'
    } else if d == 11 {
        'b'
    } else if d == 12 {
        'c'
    } else if d == 13 {
        'd'
    } else if d == 14 {
        'e'
    } else {
        'f'
    }
}

/// The decimal rendering of a number, most significant digit first.
pub open spec fn dec_of(n: nat) -> Seq<char>
    decreases n,
{
    if n < 10 {
        seq![digit_char(n)]
    } else {
        dec_of(n / 10) + seq![digit_char(n % 10)]
    }
}

/// The hexadecimal rendering of a number, most significant digit first.
pub open spec fn hex_of(n: nat) -> Seq<char>
    decreases n,
{
    if n < 16 {
        seq![digit_char(n)]
    } else {
        hex_of(n / 16) + seq![digit_char(n % 16)]
    }
}

/// Every character below 128, seen as a byte.
pub open spec fn ascii_seq(s: Seq<char>) -> Seq<u8> {
    Seq::new(s.len(), |i: int| s[i] as u8)
}

/// All characters of a digit rendering are ASCII digits or lower-case
/// hex letters; in particular none is a dash, a question mark or an
/// ampersand, the characters that delimit ids inside a request path.
pub proof fn lemma_hex_shape(n: nat)
    ensures
        hex_of(n).len() >= 1,
        forall|i: int|
            0 <= i < hex_of(n).len() ==> #[trigger] hex_of(n)[i] != '-' && hex_of(n)[i] != '?'
                && hex_of(n)[i] != '&',
    decreases n,
{
    if n >= 16 {
        lemma_hex_shape(n / 16);
        assert forall|i: int| 0 <= i < hex_of(n).len() implies #[trigger] hex_of(n)[i] != '-'
            && hex_of(n)[i] != '?' && hex_of(n)[i] != '&' by {
            if i < hex_of(n).len() - 1 {
                assert(hex_of(n)[i] == hex_of(n / 16)[i]);
            } else {
                assert(hex_of(n)[i] == digit_char(n % 16));
            }
        }
    }
}

/// The decimal rendering is never empty and consists of ASCII characters.
pub proof fn lemma_dec_ascii(n: nat)
    ensures
        dec_of(n).len() >= 1,
        vstd::utf8::is_ascii_chars(dec_of(n)),
    decreases n,
{
    if n >= 10 {
        lemma_dec_ascii(n / 10);
        assert forall|i: int| 0 <= i < dec_of(n).len() implies '\0' <= #[trigger] dec_of(n)[i]
            <= '\u{7f}' by {
            if i < dec_of(n).len() - 1 {
                assert(dec_of(n)[i] == dec_of(n / 10)[i]);
            } else {
                assert(dec_of(n)[i] == digit_char(n % 10));
            }
        }
    }
}

/// Two numbers with the same hexadecimal rendering are equal.
pub proof fn lemma_hex_injective(a: nat, b: nat)
    requires
        hex_of(a) == hex_of(b),
    ensures
        a == b,
    decreases a,
{
    lemma_hex_shape(a);
    lemma_hex_shape(b);
    if a < 16 && b < 16 {
        assert(hex_of(a)[0] == digit_char(a));
        assert(hex_of(b)[0] == digit_char(b));
    } else if a < 16 && b >= 16 {
        lemma_hex_shape(b / 16);
        assert(hex_of(b).len() >= 2);
    } else if a >= 16 && b < 16 {
        lemma_hex_shape(a / 16);
        assert(hex_of(a).len() >= 2);
    } else {
        assert(hex_of(a).last() == digit_char(a % 16));
        assert(hex_of(b).last() == digit_char(b % 16));
        assert(a % 16 == b % 16);
        assert(hex_of(a).drop_last() =~= hex_of(a / 16));
        assert(hex_of(b).drop_last() =~= hex_of(b / 16));
        lemma_hex_injective(a / 16, b / 16);
    }
}

/// One digit value below sixteen as a string slice.
fn digit_str(d: u64) -> (r: &'static str)
    requires
        d < 16,
    ensures
        r@ == seq![digit_char(d as nat)],
{
    proof {
        reveal_strlit("0");
        reveal_strlit("1");
        reveal_strlit("2");
        reveal_strlit("3");
        reveal_strlit("4");
        reveal_strlit("5");
        reveal_strlit("6");
        reveal_strlit("7");
        reveal_strlit("8");
        reveal_strlit("9");
        reveal_strlit("a");
        reveal_strlit("b");
        reveal_strlit("c");
        reveal_strlit("d");
        reveal_strlit("e");
        reveal_strlit("f");
    }
    match d {
        0 => "0",
        1 => "1",
        2 => "2",
        3 => "3",
        4 => "4",
        5 => "5",
        6 => "6",
        7 => "7",
        8 => "8",
        9 => "9",
        10 => "a",
        11 => "b",
        12 => "c",
        13 => "d",
        14 => "e",
        _ => "f",
    }
}

/// A number rendered in decimal.
pub fn u64_to_dec(n: u64) -> (r: String)
    ensures
        r@ == dec_of(n as nat),
    decreases n,
{
    if n < 10 {
        digit_str(n).to_owned()
    } else {
        let mut s = u64_to_dec(n / 10);
        s.append(digit_str(n % 10));
        s
    }
}

/// A number rendered in hexadecimal.
pub fn u64_to_hex(n: u64) -> (r: String)
    ensures
        r@ == hex_of(n as nat),
    decreases n,
{
    if n < 16 {
        digit_str(n).to_owned()
    } else {
        let mut s = u64_to_hex(n / 16);
        s.append(digit_str(n % 16));
        s
    }
}

/// A wide number rendered in hexadecimal.
pub fn u128_to_hex(n: u128) -> (r: String)
    ensures
        r@ == hex_of(n as nat),
    decreases n,
{
    if n < 16 {
        digit_str(n as u64).to_owned()
    } else {
        let mut s = u128_to_hex(n / 16);
        s.append(digit_str((n % 16) as u64));
        s
    }
}

/// Whether two string slices hold the same characters.
pub fn str_eq(a: &str, b: &str) -> (r: bool)
    ensures
        r == (a@ == b@),
{
    let alen = a.unicode_len();
    let blen = b.unicode_len();
    if alen != blen {
        return false;
    }
    let mut i: usize = 0;
    while i < alen
        invariant
            alen == a@.len(),
            blen == b@.len(),
            alen == blen,
            0 <= i <= alen,
            forall|j: int| 0 <= j < i ==> a@[j] == b@[j],
        decreases alen - i,
    {
        if a.get_char(i) != b.get_char(i) {
            return false;
        }
        i = i + 1;
    }
    proof {
        assert(a@ =~= b@);
    }
    true
}

} // verus!
