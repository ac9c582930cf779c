//! Fixed-width text building blocks: runs of spaces, decimal numerals,
//! joining cells with single spaces, and the display width of a line
//! (style escape sequences are zero-width for layout purposes).

use vstd::prelude::*;
use vstd::string::StringExecFns;

verus! {

/// A run of `n` spaces.
pub open spec fn spaces(n: int) -> Seq<char> {
    Seq::new(n as nat, |i: int| ' ')
}

pub open spec fn digit_char(d: int) -> char {
    if d == 0 {
        '0'
    } else if d == 1 {
        '1'
    } else if d == 2 {
        '2'
    } else if d == 3 {
        '3'
    } else if d == 4 {
        '4'
    } else if d == 5 {
        '5'
    } else if d == 6 {
        '6'
    } else if d == 7 {
        '7'
    } else if d == 8 {
        '8'
    } else {
        '9'
    }
}

/// The decimal numeral of a non-negative number, most significant digit
/// first, without leading zeros.
pub open spec fn dec_digits(n: int) -> Seq<char>
    recommends
        n >= 0,
    decreases n,
{
    if n <= 9 {
        seq![digit_char(n)]
    } else {
        dec_digits(n / 10) + seq![digit_char(n % 10)]
    }
}

/// How many times `c` occurs in `s`.
pub open spec fn count_char(s: Seq<char>, c: char) -> int
    decreases s.len(),
{
    if s.len() == 0 {
        0
    } else {
        count_char(s.drop_last(), c) + if s.last() == c {
            1int
        } else {
            0int
        }
    }
}

/// The escape character that begins a terminal style sequence.
pub open spec fn esc_char() -> char {
    '\u{1b}'
}

/// The width a line occupies on screen: every style sequence this
/// library emits is the 4-character `ESC [ x m`, so each occurrence of
/// the escape character hides itself and three more characters.
pub open spec fn display_len(s: Seq<char>) -> int {
    s.len() - 4 * count_char(s, esc_char())
}

pub proof fn lemma_count_char_concat(a: Seq<char>, b: Seq<char>, c: char)
    ensures
        count_char(a + b, c) == count_char(a, c) + count_char(b, c),
    decreases b.len(),
{
    if b.len() == 0 {
        assert(a + b =~= a);
    } else {
        lemma_count_char_concat(a, b.drop_last(), c);
        assert((a + b).drop_last() =~= a + b.drop_last());
        assert((a + b).last() == b.last());
    }
}

pub proof fn lemma_count_char_zero(s: Seq<char>, c: char)
    requires
        forall|i: int| 0 <= i < s.len() ==> s[i] != c,
    ensures
        count_char(s, c) == 0,
    decreases s.len(),
{
    if s.len() > 0 {
        lemma_count_char_zero(s.drop_last(), c);
    }
}

pub proof fn lemma_spaces_no_esc(n: int)
    requires
        n >= 0,
    ensures
        count_char(spaces(n), esc_char()) == 0,
        display_len(spaces(n)) == n,
{
    assert(forall|i: int| 0 <= i < spaces(n).len() ==> spaces(n)[i] != esc_char());
    lemma_count_char_zero(spaces(n), esc_char());
    assert(spaces(n).len() == n);
}

pub proof fn lemma_dec_digits_no_esc(n: int)
    ensures
        count_char(dec_digits(n), esc_char()) == 0,
    decreases n,
{
    if n <= 9 {
        lemma_count_char_zero(dec_digits(n), esc_char());
    } else {
        lemma_dec_digits_no_esc(n / 10);
        lemma_count_char_concat(dec_digits(n / 10), seq![digit_char(n % 10)], esc_char());
        lemma_count_char_zero(seq![digit_char(n % 10)], esc_char());
    }
}

/// The numeral of a number up to 9999 has one to four digits.
pub proof fn lemma_dec_digits_len(n: int)
    requires
        0 <= n <= 9999,
    ensures
        1 <= dec_digits(n).len() <= 4,
{
    reveal_with_fuel(dec_digits, 5);
    if n <= 9 {
    } else if n <= 99 {
        assert(1 <= n / 10 <= 9);
    } else if n <= 999 {
        assert(10 <= n / 10 <= 99);
        assert(1 <= n / 10 / 10 <= 9);
    } else {
        assert(100 <= n / 10 <= 999);
        assert(10 <= n / 10 / 10 <= 99);
        assert(1 <= n / 10 / 10 / 10 <= 9);
    }
}

/// One decimal digit as text.
pub fn digit_str(d: u32) -> (r: &'static str)
    requires
        d < 10,
    ensures
        r@ =~= seq![digit_char(d as int)],
{
    proof {
        reveal_strlit("0");
        reveal_strlit("1");
        reveal_strlit("2");
        reveal_strlit("3");
        reveal_strlit("4");
        reveal_strlit("5");
        reveal_strlit("6");
        reveal_strlit("7");
        reveal_strlit("8");
        reveal_strlit("9");
    }
    if d == 0 {
        "0"
    } else if d == 1 {
        "1"
    } else if d == 2 {
        "2"
    } else if d == 3 {
        "3"
    } else if d == 4 {
        "4"
    } else if d == 5 {
        "5"
    } else if d == 6 {
        "6"
    } else if d == 7 {
        "7"
    } else if d == 8 {
        "8"
    } else {
        "9"
    }
}

/// The decimal numeral of `n`, most significant digit first.
pub fn u32_string(n: u32) -> (r: String)
    ensures
        r@ == dec_digits(n as int),
    decreases n,
{
    if n <= 9 {
        String::from_str(digit_str(n))
    } else {
        let mut s = u32_string(n / 10);
        s.append(digit_str(n % 10));
        proof {
            assert(s@ =~= dec_digits(n as int));
        }
        s
    }
}

/// Appends `n` spaces to `s`.
pub fn push_spaces(s: &mut String, n: usize)
    ensures
        final(s)@ == old(s)@ + spaces(n as int),
{
    let mut i: usize = 0;
    while i < n
        invariant
            i <= n,
            s@ == old(s)@ + spaces(i as int),
        decreases n - i,
    {
        s.append(" ");
        proof {
            reveal_strlit(" ");
            assert(old(s)@ + spaces(i as int) + " "@ =~= old(s)@ + spaces(i + 1));
        }
        i = i + 1;
    }
    proof {
        assert(s@ =~= old(s)@ + spaces(n as int));
    }
}

/// A line of `n` spaces.
pub fn spaces_string(n: usize) -> (r: String)
    ensures
        r@ == spaces(n as int),
{
    let mut s = String::new();
    push_spaces(&mut s, n);
    proof {
        assert(s@ =~= spaces(n as int));
    }
    s
}

} // verus!
