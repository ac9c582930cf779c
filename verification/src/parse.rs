//! Resolving a month given as text: a number checked against 1 through
//! 12, or a case-insensitive prefix of exactly one English month name.

use vstd::prelude::*;
use vstd::string::StrSliceExecFns;
use vstd::string::StringExecFns;

use crate::render::month_name;
use crate::render::month_name_seq;

verus! {

pub open spec fn is_digit(c: char) -> bool {
    48 <= c as int <= 57
}

pub open spec fn digit_val(c: char) -> int {
    c as int - 48
}

pub open spec fn all_digits(s: Seq<char>) -> bool {
    forall|i: int| 0 <= i < s.len() ==> is_digit(#[trigger] s[i])
}

/// The number a digit string names, most significant digit first.
pub open spec fn digits_val(s: Seq<char>) -> int
    decreases s.len(),
{
    if s.len() == 0 {
        0
    } else {
        10 * digits_val(s.drop_last()) + digit_val(s.last())
    }
}

/// The digits of a number written with an optional leading plus sign.
pub open spec fn numeric_body(s: Seq<char>) -> Seq<char> {
    if s.len() > 0 && s[0] == '+' {
        s.subrange(1, s.len() as int)
    } else {
        s
    }
}

/// Whether the text is a number: an optional plus sign, then at least
/// one decimal digit.
pub open spec fn is_numeric(s: Seq<char>) -> bool {
    numeric_body(s).len() > 0 && all_digits(numeric_body(s))
}

pub open spec fn numeric_val(s: Seq<char>) -> int {
    digits_val(numeric_body(s))
}

/// Case folding for the ASCII letters, on code points.
pub open spec fn lower_code(c: char) -> int {
    if 65 <= c as int <= 90 {
        c as int + 32
    } else {
        c as int
    }
}

/// Whether `s` is a prefix of `name`, ignoring ASCII case.
pub open spec fn is_prefix_ci(s: Seq<char>, name: Seq<char>) -> bool {
    s.len() <= name.len() && forall|i: int|
        0 <= i < s.len() ==> lower_code(#[trigger] s[i]) == lower_code(name[i])
}

pub open spec fn matches_month(s: Seq<char>, m: int) -> bool {
    is_prefix_ci(s, month_name_seq(m))
}

/// How many of months 1 through `m` the text matches as a prefix.
pub open spec fn match_count(s: Seq<char>, m: int) -> int
    decreases m,
{
    if m <= 0 {
        0
    } else {
        match_count(s, m - 1) + if matches_month(s, m) {
            1int
        } else {
            0int
        }
    }
}

pub open spec fn range_err_seq(s: Seq<char>) -> Seq<char> {
    "month \""@ + s + "\" not in the range 1 through 12"@
}

pub open spec fn invalid_err_seq(s: Seq<char>) -> Seq<char> {
    "Invalid month \""@ + s + "\""@
}

proof fn lemma_digits_val_nonneg(s: Seq<char>)
    requires
        all_digits(s),
    ensures
        digits_val(s) >= 0,
    decreases s.len(),
{
    if s.len() > 0 {
        assert(all_digits(s.drop_last()));
        lemma_digits_val_nonneg(s.drop_last());
    }
}

/// Whether the text is a case-insensitive prefix of the name of month `m`.
fn month_prefix_match(s: &str, m: u32) -> (b: bool)
    requires
        1 <= m <= 12,
    ensures
        b == matches_month(s@, m as int),
{
    let name = month_name(m);
    let sl = s.unicode_len();
    let nl = name.unicode_len();
    if sl > nl {
        return false;
    }
    let mut i: usize = 0;
    while i < sl
        invariant
            sl == s@.len(),
            nl == name@.len(),
            name@ == month_name_seq(m as int),
            sl <= nl,
            i <= sl,
            forall|j: int| 0 <= j < i ==> lower_code(#[trigger] s@[j]) == lower_code(name@[j]),
        decreases sl - i,
    {
        let a = s.get_char(i) as u32;
        let b = name.get_char(i) as u32;
        let la = if 65 <= a && a <= 90 {
            a + 32
        } else {
            a
        };
        let lb = if 65 <= b && b <= 90 {
            b + 32
        } else {
            b
        };
        if la != lb {
            proof {
                assert(lower_code(s@[i as int]) != lower_code(name@[i as int]));
            }
            return false;
        }
        i = i + 1;
    }
    true
}

/// The month the text names. A number is accepted iff it lies in 1
/// through 12; any other text is accepted iff it is a case-insensitive
/// prefix of exactly one month name. Each error message names the
/// offending text verbatim.
pub fn parse_month(month: String) -> (r: Result<u32, String>)
    ensures
        (is_numeric(month@) && 1 <= numeric_val(month@) <= 12) ==> (r matches Ok(v) && v
            == numeric_val(month@)),
        (is_numeric(month@) && numeric_val(month@) <= u32::MAX && !(1 <= numeric_val(month@)
            <= 12)) ==> (r matches Err(e) && e@ == range_err_seq(month@)),
        ((!is_numeric(month@) || numeric_val(month@) > u32::MAX) && match_count(month@, 12) == 1)
            ==> (r matches Ok(v) && 1 <= v <= 12 && matches_month(month@, v as int)),
        ((!is_numeric(month@) || numeric_val(month@) > u32::MAX) && match_count(month@, 12) != 1)
            ==> (r matches Err(e) && e@ == invalid_err_seq(month@)),
{
    let ms = month.as_str();
    let len = ms.unicode_len();
    let start: usize = if len > 0 && ms.get_char(0) == '+' {
        1
    } else {
        0
    };
    let ghost body = numeric_body(month@);
    proof {
        assert(body =~= month@.subrange(start as int, len as int));
    }
    let mut is_num: bool = len > start;
    let mut val: u64 = 0;
    let mut overflow: bool = false;
    let mut i: usize = start;
    while i < len && is_num
        invariant
            ms@ == month@,
            len == month@.len(),
            start <= i <= len,
            body == numeric_body(month@),
            body =~= month@.subrange(start as int, len as int),
            is_num ==> len > start,
            is_num ==> all_digits(body.subrange(0, i - start)),
            is_num && !overflow ==> val == digits_val(body.subrange(0, i - start)) && val
                <= u32::MAX,
            is_num && overflow ==> digits_val(body.subrange(0, i - start)) > u32::MAX,
            is_num && overflow ==> all_digits(body.subrange(0, i - start)),
            !is_num ==> !is_numeric(month@),
        decreases len - i,
    {
        let c = ms.get_char(i);
        let cu = c as u32;
        let ghost pre = body.subrange(0, i - start);
        let ghost cur = body.subrange(0, i + 1 - start);
        proof {
            assert(cur.drop_last() =~= pre);
            assert(cur.last() == month@[i as int]);
        }
        if 48 <= cu && cu <= 57 {
            if !overflow {
                proof {
                    lemma_digits_val_nonneg(pre);
                }
                val = val * 10 + ((cu - 48) as u64);
                if val > 4294967295 {
                    overflow = true;
                }
            } else {
                proof {
                    lemma_digits_val_nonneg(pre);
                }
            }
        } else {
            is_num = false;
            proof {
                assert(!is_digit(body[i - start]));
                assert(!all_digits(body));
            }
        }
        i = i + 1;
    }
    if is_num && !overflow {
        proof {
            assert(body.subrange(0, len - start) =~= body);
            assert(is_numeric(month@));
            assert(val == numeric_val(month@));
        }
        let v = val as u32;
        if 1 <= v && v <= 12 {
            return Ok(v);
        }
        let mut e = String::from_str("month \"");
        e.append(ms);
        e.append("\" not in the range 1 through 12");
        return Err(e);
    }
    proof {
        if is_num {
            assert(body.subrange(0, len - start) =~= body);
            assert(numeric_val(month@) > u32::MAX);
        }
    }
    let mut count: u32 = 0;
    let mut found: u32 = 0;
    let mut m: u32 = 1;
    while m <= 12
        invariant
            ms@ == month@,
            1 <= m <= 13,
            count == match_count(month@, m as int - 1),
            count <= m - 1,
            count >= 1 ==> 1 <= found <= m - 1 && matches_month(month@, found as int),
        decreases 13 - m,
    {
        let hit = month_prefix_match(ms, m);
        proof {
            assert(match_count(month@, m as int) == match_count(month@, m as int - 1)
                + if matches_month(month@, m as int) {
                1int
            } else {
                0int
            });
        }
        if hit {
            count = count + 1;
            found = m;
        }
        m = m + 1;
    }
    if count == 1 {
        return Ok(found);
    }
    let mut e = String::from_str("Invalid month \"");
    e.append(ms);
    e.append("\"");
    Err(e)
}

} // verus!
