//! Tiling month blocks side by side: groups of exactly three blocks,
//! eight printed lines per group, with a blank separator line after each
//! of the first three groups; and the right-justified year banner.

use vstd::prelude::*;
use vstd::string::StrSliceExecFns;
use vstd::string::StringExecFns;

use crate::text::dec_digits;
use crate::text::lemma_dec_digits_len;
use crate::text::spaces;
use crate::text::spaces_string;
use crate::text::u32_string;

verus! {

/// How many complete groups of three a row of blocks yields; a trailing
/// partial group is dropped.
pub open spec fn group_count(nblocks: int) -> int {
    nblocks / 3
}

/// Where the printed lines of group `g` begin: every group takes 8
/// lines, and each of the first three is followed by one separator.
pub open spec fn group_start(g: int) -> int {
    if g < 3 {
        9 * g
    } else {
        27 + 8 * (g - 3)
    }
}

/// How many lines tiling `nblocks` blocks prints in all.
pub open spec fn tile_len(nblocks: int) -> int {
    if group_count(nblocks) <= 3 {
        9 * group_count(nblocks)
    } else {
        27 + 8 * (group_count(nblocks) - 3)
    }
}

/// The blocks tiled three abreast: for each complete group of three
/// consecutive blocks, the 8 lines formed by concatenating the blocks'
/// lines left to right; a blank separator line follows each of the
/// first three groups. Blocks past the last complete group are dropped.
pub fn tile_months(calendar: Vec<Vec<String>>) -> (out: Vec<String>)
    requires
        forall|k: int| 0 <= k < calendar@.len() ==> #[trigger] calendar@[k]@.len() == 8,
    ensures
        out@.len() == tile_len(calendar@.len() as int),
        forall|g: int, i: int|
            0 <= g < group_count(calendar@.len() as int) && 0 <= i < 8 ==> out@[group_start(g)
                + i]@ == #[trigger] (calendar@[3 * g]@[i]@ + calendar@[3 * g + 1]@[i]@ + calendar@[3
                * g + 2]@[i]@),
        forall|g: int|
            0 <= g < group_count(calendar@.len() as int) && g < 3 ==> out@[#[trigger] group_start(g)
                + 8]@ == Seq::<char>::empty(),
{
    let n = calendar.len();
    let ghost gc = group_count(n as int);
    proof {
        assert(gc == n as int / 3);
        assert(0 <= gc && 3 * gc <= n as int) by (nonlinear_arith)
            requires
                gc == n as int / 3,
                n as int >= 0,
        ;
    }
    let ngroups = n / 3;
    proof {
        assert(ngroups == gc);
    }
    let mut out: Vec<String> = Vec::new();
    let mut g: usize = 0;
    while g < ngroups
        invariant
            ngroups == gc,
            n == calendar@.len(),
            forall|k: int| 0 <= k < calendar@.len() ==> #[trigger] calendar@[k]@.len() == 8,
            gc == group_count(n as int),
            3 * gc <= n as int,
            0 <= g <= gc,
            out@.len() == group_start(g as int),
            forall|h: int, i: int|
                0 <= h < g && 0 <= i < 8 ==> out@[group_start(h) + i]@ == #[trigger] (calendar@[3
                    * h]@[i]@ + calendar@[3 * h + 1]@[i]@ + calendar@[3 * h + 2]@[i]@),
            forall|h: int|
                0 <= h < g && h < 3 ==> out@[#[trigger] group_start(h) + 8]@
                    == Seq::<char>::empty(),
        decreases ngroups - g,
    {
        proof {
            assert(3 * (g as int) + 3 <= n as int) by (nonlinear_arith)
                requires
                    gc == n as int / 3,
                    (g as int) < gc,
            ;
        }
        let mut i: usize = 0;
        while i < 8
            invariant
                n == calendar@.len(),
                forall|k: int| 0 <= k < calendar@.len() ==> #[trigger] calendar@[k]@.len() == 8,
                3 * (g as int) + 3 <= n as int,
                0 <= i <= 8,
                out@.len() == group_start(g as int) + i,
                forall|h: int, j: int|
                    0 <= h < g && 0 <= j < 8 ==> out@[group_start(h) + j]@ == #[trigger] (
                    calendar@[3 * h]@[j]@ + calendar@[3 * h + 1]@[j]@ + calendar@[3 * h
                        + 2]@[j]@),
                forall|h: int|
                    0 <= h < g && h < 3 ==> out@[#[trigger] group_start(h) + 8]@
                        == Seq::<char>::empty(),
                forall|j: int|
                    0 <= j < i ==> out@[group_start(g as int) + j]@ == #[trigger] (calendar@[3 * (
                    g as int)]@[j]@ + calendar@[3 * (g as int) + 1]@[j]@ + calendar@[3 * (g as int)
                        + 2]@[j]@),
            decreases 8 - i,
        {
            let mut line = calendar[3 * g][i].clone();
            line.append(calendar[3 * g + 1][i].as_str());
            line.append(calendar[3 * g + 2][i].as_str());
            out.push(line);
            i = i + 1;
        }
        if g < 3 {
            out.push(String::new());
        }
        proof {
            assert(group_start(g as int + 1) == group_start(g as int) + if (g as int) < 3 {
                9int
            } else {
                8int
            });
        }
        g = g + 1;
    }
    proof {
        assert(group_start(gc) == tile_len(n as int));
    }
    out
}

/// Tiling exactly twelve blocks prints four groups of eight lines with
/// the three separator lines between them, and none after the last.
pub proof fn lemma_tile_twelve_shape()
    ensures
        group_count(12) == 4,
        tile_len(12) == 35,
        group_start(0) == 0,
        group_start(1) == 9,
        group_start(2) == 18,
        group_start(3) == 27,
{
}

/// The year right-justified in a 32-character field.
pub fn year_banner(year: i32) -> (r: String)
    requires
        1 <= year <= 9999,
    ensures
        r@ == spaces(32 - dec_digits(year as int).len()) + dec_digits(year as int),
{
    let ys = u32_string(year as u32);
    proof {
        lemma_dec_digits_len(year as int);
    }
    let l = ys.as_str().unicode_len();
    let mut s = spaces_string(32 - l);
    s.append(ys.as_str());
    s
}

} // verus!
