//! Verified text rendering: decimal, binary and hexadecimal digit strings,
//! plus character-counting and splitting specs used to reason about the
//! colon-separated signature format.

use vstd::prelude::*;

verus! {

/// The character for one digit value below 16 (decimal digits and
/// lowercase hexadecimal letters).
pub open spec fn digit_char(d: nat) -> char {
    if d == 0 {
        '0'
    } else if d == 1 {
        '1'
    } else if d == 2 {
        '2'
    } else if d == 3 {
        '3'
    } else if d == 4 {
        '4'
    } else if d == 5 {
        '5'
    } else if d == 6 {
        '6'
    } else if d == 7 {
        '7'
    } else if d == 8 {
        '8'
    } else if d == 9 {
        '9'
    } else if d == 10 {
        'a'
    } else if d == 11 {
        'b'
    } else if d == 12 {
        'c'
    } else if d == 13 {
        'd'
    } else if d == 14 {
        'e'
    } else {
        'f'
    }
}

/// Decimal rendering of a natural number, without leading zeros
/// (a single `'0'` for zero).
pub open spec fn dec_str(n: nat) -> Seq<char>
    decreases n,
{
    if n < 10 {
        seq![digit_char(n)]
    } else {
        dec_str(n / 10) + seq![digit_char(n % 10)]
    }
}

/// Appends the character for one digit value below 16.
pub fn push_digit(s: &mut String, d: u8)
    requires
        d < 16,
    ensures
        final(s)@ == old(s)@ + seq![digit_char(d as nat)],
{
    if d == 0 {
        proof { reveal_strlit("0"); }
        s.append("0");
    } else if d == 1 {
        proof { reveal_strlit("1"); }
        s.append("1");
    } else if d == 2 {
        proof { reveal_strlit("2"); }
        s.append("2");
    } else if d == 3 {
        proof { reveal_strlit("3"); }
        s.append("3");
    } else if d == 4 {
        proof { reveal_strlit("4"); }
        s.append("4");
    } else if d == 5 {
        proof { reveal_strlit("5"); }
        s.append("5");
    } else if d == 6 {
        proof { reveal_strlit("6"); }
        s.append("6");
    } else if d == 7 {
        proof { reveal_strlit("7"); }
        s.append("7");
    } else if d == 8 {
        proof { reveal_strlit("8"); }
        s.append("8");
    } else if d == 9 {
        proof { reveal_strlit("9"); }
        s.append("9");
    } else if d == 10 {
        proof { reveal_strlit("a"); }
        s.append("a");
    } else if d == 11 {
        proof { reveal_strlit("b"); }
        s.append("b");
    } else if d == 12 {
        proof { reveal_strlit("c"); }
        s.append("c");
    } else if d == 13 {
        proof { reveal_strlit("d"); }
        s.append("d");
    } else if d == 14 {
        proof { reveal_strlit("e"); }
        s.append("e");
    } else {
        proof { reveal_strlit("f"); }
        s.append("f");
    }
    proof {
        assert(final(s)@ =~= old(s)@ + seq![digit_char(d as nat)]);
    }
}

/// Appends the decimal rendering of `n`.
pub fn push_dec_u16(s: &mut String, n: u16)
    ensures
        final(s)@ == old(s)@ + dec_str(n as nat),
    decreases n,
{
    if n < 10 {
        push_digit(s, n as u8);
    } else {
        push_dec_u16(s, n / 10);
        push_digit(s, (n % 10) as u8);
        proof {
            assert(final(s)@ =~= old(s)@ + dec_str(n as nat));
        }
    }
}

/// Binary rendering of the low `w` bits of `n`, most significant bit first,
/// zero-padded to exactly `w` characters.
pub open spec fn bin_str(n: nat, w: nat) -> Seq<char>
    decreases w,
{
    if w == 0 {
        Seq::<char>::empty()
    } else {
        bin_str(n / 2, (w - 1) as nat) + seq![digit_char(n % 2)]
    }
}

/// Appends the `w`-character binary rendering of `n`.
pub fn push_bin_u16(s: &mut String, n: u16, w: usize)
    ensures
        final(s)@ == old(s)@ + bin_str(n as nat, w as nat),
    decreases w,
{
    if w == 0 {
        proof {
            assert(final(s)@ =~= old(s)@ + bin_str(n as nat, 0));
        }
    } else {
        push_bin_u16(s, n / 2, w - 1);
        push_digit(s, (n % 2) as u8);
        proof {
            assert(final(s)@ =~= old(s)@ + bin_str(n as nat, w as nat));
        }
    }
}

/// Lowercase hexadecimal rendering of a natural number, without leading
/// zeros (a single `'0'` for zero).
pub open spec fn hex_str(n: nat) -> Seq<char>
    decreases n,
{
    if n < 16 {
        seq![digit_char(n)]
    } else {
        hex_str(n / 16) + seq![digit_char(n % 16)]
    }
}

/// Appends the hexadecimal rendering of `n`.
pub fn push_hex_u16(s: &mut String, n: u16)
    ensures
        final(s)@ == old(s)@ + hex_str(n as nat),
    decreases n,
{
    if n < 16 {
        push_digit(s, n as u8);
    } else {
        push_hex_u16(s, n / 16);
        push_digit(s, (n % 16) as u8);
        proof {
            assert(final(s)@ =~= old(s)@ + hex_str(n as nat));
        }
    }
}

/// How many times `c` occurs in `s`.
pub open spec fn count_char(s: Seq<char>, c: char) -> nat
    decreases s.len(),
{
    if s.len() == 0 {
        0
    } else {
        (if s[0] == c {
            1nat
        } else {
            0nat
        }) + count_char(s.drop_first(), c)
    }
}

/// The segments of `s` between occurrences of the separator `c`,
/// in order; always at least one segment.
pub open spec fn split_char(s: Seq<char>, c: char) -> Seq<Seq<char>>
    decreases s.len(),
{
    if s.len() == 0 {
        seq![Seq::<char>::empty()]
    } else if s[0] == c {
        seq![Seq::<char>::empty()] + split_char(s.drop_first(), c)
    } else {
        let rest = split_char(s.drop_first(), c);
        seq![seq![s[0]] + rest[0]] + rest.drop_first()
    }
}

/// Splitting on `c` yields one more segment than there are occurrences
/// of `c`.
pub proof fn lemma_split_char_len(s: Seq<char>, c: char)
    ensures
        split_char(s, c).len() == count_char(s, c) + 1,
    decreases s.len(),
{
    if s.len() == 0 {
    } else {
        lemma_split_char_len(s.drop_first(), c);
    }
}

/// Character occurrences add up across concatenation.
pub proof fn lemma_count_char_add(a: Seq<char>, b: Seq<char>, c: char)
    ensures
        count_char(a + b, c) == count_char(a, c) + count_char(b, c),
    decreases a.len(),
{
    if a.len() == 0 {
        assert(a + b =~= b);
    } else {
        assert((a + b).drop_first() =~= a.drop_first() + b);
        lemma_count_char_add(a.drop_first(), b, c);
    }
}

/// A sequence none of whose characters is `c` contains no occurrence of `c`.
pub proof fn lemma_count_char_zero(s: Seq<char>, c: char)
    requires
        forall|i: int| 0 <= i < s.len() ==> s[i] != c,
    ensures
        count_char(s, c) == 0,
    decreases s.len(),
{
    if s.len() == 0 {
    } else {
        lemma_count_char_zero(s.drop_first(), c);
    }
}

/// Digit characters are never `':'`, so decimal renderings are colon-free.
pub proof fn lemma_dec_str_colon_free(n: nat)
    ensures
        count_char(dec_str(n), ':') == 0,
    decreases n,
{
    if n < 10 {
        lemma_count_char_zero(dec_str(n), ':');
    } else {
        lemma_dec_str_colon_free(n / 10);
        lemma_count_char_zero(seq![digit_char(n % 10)], ':');
        lemma_count_char_add(dec_str(n / 10), seq![digit_char(n % 10)], ':');
    }
}

/// Binary renderings are colon-free.
pub proof fn lemma_bin_str_colon_free(n: nat, w: nat)
    ensures
        count_char(bin_str(n, w), ':') == 0,
    decreases w,
{
    if w == 0 {
    } else {
        lemma_bin_str_colon_free(n / 2, (w - 1) as nat);
        lemma_count_char_zero(seq![digit_char(n % 2)], ':');
        lemma_count_char_add(bin_str(n / 2, (w - 1) as nat), seq![digit_char(n % 2)], ':');
    }
}

} // verus!
