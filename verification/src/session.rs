//! Session identifiers and checkpoint tokens.
//!
//! The engine names sessions and checkpoints by opaque 36-character tokens
//! shaped like a UUID: five groups of hexadecimal digits separated by
//! hyphens. Here a token carries a 64-bit counter in its last sixteen
//! digits, which makes distinct counters yield distinct tokens
//! ([`lemma_token_injective`]) — a token, once issued, never names anything
//! else.

use vstd::prelude::*;

verus! {

/// The hexadecimal digit character for a value below sixteen.
pub open spec fn hex_digit_char(d: u8) -> char {
    if d == 0 {
        '0'
    } else if d == 1 {
        '1'
    } else if d == 2 {
        '2'
    } else if d == 3 {
        '3'
    } else if d == 4 {
        '4'
    } else if d == 5 {
        '5'
    } else if d == 6 {
        '6'
    } else if d == 7 {
        '7'
    } else if d == 8 {
        '8'
    } else if d == 9 {
        '9'
    } else if d == 10 {
        'a'
    } else if d == 11 {
        'b'
    } else if d == 12 {
        'c'
    } else if d == 13 {
        'd'
    } else if d == 14 {
        'e'
    } else {
        'f'
    }
}

/// The `k`-th hexadecimal digit of `n`, counting from the least significant.
pub open spec fn nibble(n: u64, k: int) -> u8 {
    ((n >> (4 * k) as u64) & 0xf) as u8
}

/// The character at position `i` of the token carrying `n`: three all-zero
/// groups, a hyphen after positions 7, 12, 17 and 22, and the sixteen
/// hexadecimal digits of `n` spread over the last two groups, most
/// significant first.
pub open spec fn token_char(n: u64, i: int) -> char {
    if i == 8 || i == 13 || i == 18 || i == 23 {
        '-'
    } else if i < 19 {
        '0'
    } else if i < 23 {
        hex_digit_char(nibble(n, 34 - i))
    } else {
        hex_digit_char(nibble(n, 35 - i))
    }
}

/// The 36-character token carrying the counter `n`.
pub open spec fn spec_token(n: u64) -> Seq<char> {
    Seq::new(36, |i: int| token_char(n, i))
}

/// Append the hexadecimal digit character for `d` to `s`.
fn append_hex_digit(s: &mut String, d: u8)
    requires
        d < 16,
    ensures
        final(s)@ == old(s)@ + seq![hex_digit_char(d)],
{
    let digit: &str = if d == 0 {
        "0"
    } else if d == 1 {
        "1"
    } else if d == 2 {
        "2"
    } else if d == 3 {
        "3"
    } else if d == 4 {
        "4"
    } else if d == 5 {
        "5"
    } else if d == 6 {
        "6"
    } else if d == 7 {
        "7"
    } else if d == 8 {
        "8"
    } else if d == 9 {
        "9"
    } else if d == 10 {
        "a"
    } else if d == 11 {
        "b"
    } else if d == 12 {
        "c"
    } else if d == 13 {
        "d"
    } else if d == 14 {
        "e"
    } else {
        "f"
    };
    proof {
        reveal_strlit("0");
        reveal_strlit("1");
        reveal_strlit("2");
        reveal_strlit("3");
        reveal_strlit("4");
        reveal_strlit("5");
        reveal_strlit("6");
        reveal_strlit("7");
        reveal_strlit("8");
        reveal_strlit("9");
        reveal_strlit("a");
        reveal_strlit("b");
        reveal_strlit("c");
        reveal_strlit("d");
        reveal_strlit("e");
        reveal_strlit("f");
        assert(digit@ =~= seq![hex_digit_char(d)]);
    }
    s.append(digit);
}

/// Build the token string carrying the counter `n`.
pub(crate) fn make_token(n: u64) -> (r: String)
    ensures
        r@ == spec_token(n),
        r@.len() == 36,
{
    let mut s = String::new();
    s.append("00000000-0000-0000-");
    proof {
        reveal_strlit("00000000-0000-0000-");
        assert(s@ =~= spec_token(n).take(19));
    }
    let mut k: usize = 0;
    while k < 4
        invariant
            k <= 4,
            s@ =~= spec_token(n).take(19 + k as int),
        decreases 4 - k,
    {
        let d: u8 = ((n >> (60 - 4 * (k as u64))) & 0xf) as u8;
        proof {
            let shift: u64 = (60 - 4 * k) as u64;
            assert((n >> shift) & 0xf < 16) by (bit_vector);
            assert(d == nibble(n, 15 - k as int));
        }
        append_hex_digit(&mut s, d);
        proof {
            assert(s@ =~= spec_token(n).take(19 + k as int + 1));
        }
        k = k + 1;
    }
    s.append("-");
    proof {
        reveal_strlit("-");
        assert(s@ =~= spec_token(n).take(24));
    }
    let mut j: usize = 0;
    while j < 12
        invariant
            j <= 12,
            s@ =~= spec_token(n).take(24 + j as int),
        decreases 12 - j,
    {
        let d: u8 = ((n >> (44 - 4 * (j as u64))) & 0xf) as u8;
        proof {
            let shift: u64 = (44 - 4 * j) as u64;
            assert((n >> shift) & 0xf < 16) by (bit_vector);
            assert(d == nibble(n, 11 - j as int));
        }
        append_hex_digit(&mut s, d);
        proof {
            assert(s@ =~= spec_token(n).take(24 + j as int + 1));
        }
        j = j + 1;
    }
    proof {
        assert(s@ =~= spec_token(n));
    }
    s
}

/// Distinct hexadecimal digits have distinct characters.
proof fn lemma_hex_digit_char_injective(a: u8, b: u8)
    requires
        a < 16,
        b < 16,
        hex_digit_char(a) == hex_digit_char(b),
    ensures
        a == b,
{
}

/// Distinct counters yield distinct tokens.
pub proof fn lemma_token_injective(a: u64, b: u64)
    requires
        spec_token(a) == spec_token(b),
    ensures
        a == b,
{
    assert forall|k: int| 0 <= k < 16 implies nibble(a, k) == nibble(b, k) by {
        let i = if k >= 12 {
            34 - k
        } else {
            35 - k
        };
        assert(spec_token(a)[i] == spec_token(b)[i]);
        assert(spec_token(a)[i] == token_char(a, i) && spec_token(b)[i] == token_char(b, i));
        assert(token_char(a, i) == hex_digit_char(nibble(a, k)));
        assert(token_char(b, i) == hex_digit_char(nibble(b, k)));
        assert((a >> (4 * k) as u64) & 0xf < 16 && (b >> (4 * k) as u64) & 0xf < 16) by {
            let s = (4 * k) as u64;
            assert((a >> s) & 0xf < 16 && (b >> s) & 0xf < 16) by (bit_vector);
        }
        lemma_hex_digit_char_injective(nibble(a, k), nibble(b, k));
    }
    assert(((a >> 0) & 0xf) < 16 && ((a >> 4) & 0xf) < 16 && ((a >> 8) & 0xf) < 16 && ((a >> 12) & 0xf) < 16 && ((a >> 16) & 0xf) < 16 && ((a >> 20) & 0xf) < 16 && ((a >> 24) & 0xf) < 16 && ((a >> 28) & 0xf) < 16 && ((a >> 32) & 0xf) < 16 && ((a >> 36) & 0xf) < 16 && ((a >> 40) & 0xf) < 16 && ((a >> 44) & 0xf) < 16 && ((a >> 48) & 0xf) < 16 && ((a >> 52) & 0xf) < 16 && ((a >> 56) & 0xf) < 16 && ((a >> 60) & 0xf) < 16) by (bit_vector);
    assert(((b >> 0) & 0xf) < 16 && ((b >> 4) & 0xf) < 16 && ((b >> 8) & 0xf) < 16 && ((b >> 12) & 0xf) < 16 && ((b >> 16) & 0xf) < 16 && ((b >> 20) & 0xf) < 16 && ((b >> 24) & 0xf) < 16 && ((b >> 28) & 0xf) < 16 && ((b >> 32) & 0xf) < 16 && ((b >> 36) & 0xf) < 16 && ((b >> 40) & 0xf) < 16 && ((b >> 44) & 0xf) < 16 && ((b >> 48) & 0xf) < 16 && ((b >> 52) & 0xf) < 16 && ((b >> 56) & 0xf) < 16 && ((b >> 60) & 0xf) < 16) by (bit_vector);
    assert(((a >> 0) & 0xf) == ((b >> 0) & 0xf)) by {
        assert(nibble(a, 0) == nibble(b, 0));
        assert((4 * 0) as u64 == 0u64);
    }
    assert(((a >> 4) & 0xf) == ((b >> 4) & 0xf)) by {
        assert(nibble(a, 1) == nibble(b, 1));
        assert((4 * 1) as u64 == 4u64);
    }
    assert(((a >> 8) & 0xf) == ((b >> 8) & 0xf)) by {
        assert(nibble(a, 2) == nibble(b, 2));
        assert((4 * 2) as u64 == 8u64);
    }
    assert(((a >> 12) & 0xf) == ((b >> 12) & 0xf)) by {
        assert(nibble(a, 3) == nibble(b, 3));
        assert((4 * 3) as u64 == 12u64);
    }
    assert(((a >> 16) & 0xf) == ((b >> 16) & 0xf)) by {
        assert(nibble(a, 4) == nibble(b, 4));
        assert((4 * 4) as u64 == 16u64);
    }
    assert(((a >> 20) & 0xf) == ((b >> 20) & 0xf)) by {
        assert(nibble(a, 5) == nibble(b, 5));
        assert((4 * 5) as u64 == 20u64);
    }
    assert(((a >> 24) & 0xf) == ((b >> 24) & 0xf)) by {
        assert(nibble(a, 6) == nibble(b, 6));
        assert((4 * 6) as u64 == 24u64);
    }
    assert(((a >> 28) & 0xf) == ((b >> 28) & 0xf)) by {
        assert(nibble(a, 7) == nibble(b, 7));
        assert((4 * 7) as u64 == 28u64);
    }
    assert(((a >> 32) & 0xf) == ((b >> 32) & 0xf)) by {
        assert(nibble(a, 8) == nibble(b, 8));
        assert((4 * 8) as u64 == 32u64);
    }
    assert(((a >> 36) & 0xf) == ((b >> 36) & 0xf)) by {
        assert(nibble(a, 9) == nibble(b, 9));
        assert((4 * 9) as u64 == 36u64);
    }
    assert(((a >> 40) & 0xf) == ((b >> 40) & 0xf)) by {
        assert(nibble(a, 10) == nibble(b, 10));
        assert((4 * 10) as u64 == 40u64);
    }
    assert(((a >> 44) & 0xf) == ((b >> 44) & 0xf)) by {
        assert(nibble(a, 11) == nibble(b, 11));
        assert((4 * 11) as u64 == 44u64);
    }
    assert(((a >> 48) & 0xf) == ((b >> 48) & 0xf)) by {
        assert(nibble(a, 12) == nibble(b, 12));
        assert((4 * 12) as u64 == 48u64);
    }
    assert(((a >> 52) & 0xf) == ((b >> 52) & 0xf)) by {
        assert(nibble(a, 13) == nibble(b, 13));
        assert((4 * 13) as u64 == 52u64);
    }
    assert(((a >> 56) & 0xf) == ((b >> 56) & 0xf)) by {
        assert(nibble(a, 14) == nibble(b, 14));
        assert((4 * 14) as u64 == 56u64);
    }
    assert(((a >> 60) & 0xf) == ((b >> 60) & 0xf)) by {
        assert(nibble(a, 15) == nibble(b, 15));
        assert((4 * 15) as u64 == 60u64);
    }
    assert((((a >> 0) & 0xf) == ((b >> 0) & 0xf)
        && ((a >> 4) & 0xf) == ((b >> 4) & 0xf)
        && ((a >> 8) & 0xf) == ((b >> 8) & 0xf)
        && ((a >> 12) & 0xf) == ((b >> 12) & 0xf)
        && ((a >> 16) & 0xf) == ((b >> 16) & 0xf)
        && ((a >> 20) & 0xf) == ((b >> 20) & 0xf)
        && ((a >> 24) & 0xf) == ((b >> 24) & 0xf)
        && ((a >> 28) & 0xf) == ((b >> 28) & 0xf)
        && ((a >> 32) & 0xf) == ((b >> 32) & 0xf)
        && ((a >> 36) & 0xf) == ((b >> 36) & 0xf)
        && ((a >> 40) & 0xf) == ((b >> 40) & 0xf)
        && ((a >> 44) & 0xf) == ((b >> 44) & 0xf)
        && ((a >> 48) & 0xf) == ((b >> 48) & 0xf)
        && ((a >> 52) & 0xf) == ((b >> 52) & 0xf)
        && ((a >> 56) & 0xf) == ((b >> 56) & 0xf)
        && ((a >> 60) & 0xf) == ((b >> 60) & 0xf)) ==> a == b) by (bit_vector);
}

/// One registered session: the counter its token carries, the token itself,
/// the last monotonic serial number it reported, and whether it is currently
/// live.
pub(crate) struct SessionRecord {
    pub(crate) id: u64,
    pub(crate) token: String,
    pub(crate) last_serial: u64,
    pub(crate) active: bool,
}

} // verus!
