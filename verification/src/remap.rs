//! Remap tables: which column of the input each column of the output shows.

use vstd::prelude::*;
use vstd::string::*;

use crate::binary64::{of_nat, of_u32, Binary64};
use crate::decimal::{decimal, numeral, numerals_differ};
use crate::text::{cat3, ends_with, parts_are_contained, starts_with};

verus! {

/// The bits of one half.
pub const HALF: u64 = 0x3fe0_0000_0000_0000;

/// The bits of two.
pub const TWO: u64 = 0x4000_0000_0000_0000;

/// The bits of minus one.
pub const MINUS_ONE: u64 = 0xbff0_0000_0000_0000;

/// The greatest width for which tables are shown to be in order.
pub const WIDEST: u32 = 0x10_0000;

/// How often the search for a column of a squeezed row halves its interval.
pub const HALVINGS: u32 = 48;

// ---------------------------------------------------------------------------
// The curve
// ---------------------------------------------------------------------------

/// Where column `x` of an output `out_width` wide lies in an input
/// `input_width` wide: the middle of the picture keeps its scale, and the
/// columns move outwards with the square of their distance from the middle.
pub open spec fn source(x: Binary64, out_width: Binary64, input_width: Binary64) -> Binary64 {
    let half_diff = out_width.minus(input_width).over(Binary64 { bits: TWO });
    let sx = x.minus(half_diff);
    let tx = x.over(out_width).minus(Binary64 { bits: HALF }).times(Binary64 { bits: TWO });
    let offset = tx.times(tx).times(half_diff);
    if tx.below(Binary64 { bits: 0 }) {
        sx.minus(offset.times(Binary64 { bits: MINUS_ONE }))
    } else {
        sx.minus(offset)
    }
}

/// Where column `x` of the output lies in the input.
pub fn stretch_source(x: Binary64, out_width: Binary64, input_width: Binary64) -> (r: Binary64)
    ensures
        r == source(x, out_width, input_width),
{
    let half_diff: Binary64 = out_width.subtract(input_width).divide(Binary64 { bits: TWO });
    let sx: Binary64 = x.subtract(half_diff);
    let tx: Binary64 = x.divide(out_width).subtract(Binary64 { bits: HALF }).multiply(
        Binary64 { bits: TWO },
    );
    let mut offset: Binary64 = tx.multiply(tx).multiply(half_diff);
    if tx.less(Binary64 { bits: 0 }) {
        offset = offset.multiply(Binary64 { bits: MINUS_ONE });
    }
    sx.subtract(offset)
}

/// The last column of an input `width` wide that a table can name.
pub open spec fn last_column(width: u32) -> int {
    if width - 1 > u16::MAX {
        u16::MAX as int
    } else {
        width - 1
    }
}

fn last_column_exec(width: u32) -> (r: u64)
    requires
        width >= 1,
    ensures
        r == last_column(width),
{
    if width - 1 > u16::MAX as u32 {
        u16::MAX as u64
    } else {
        (width - 1) as u64
    }
}

/// The input column that output column `x` of a stretched picture shows.
pub open spec fn stretched(x: int, input_width: u32, out_width: u32) -> int {
    source(
        of_nat(x as nat),
        of_nat(out_width as nat),
        of_nat(input_width as nat),
    ).to_integer(0, last_column(input_width))
}

/// The table of a picture stretched from `input_width` to `out_width` columns.
pub fn stretch_row(input_width: u32, out_width: u32) -> (row: Vec<u16>)
    requires
        input_width >= 1,
    ensures
        row@.len() == out_width,
        forall|x: int|
            0 <= x < out_width ==> #[trigger] row@[x] == stretched(x, input_width, out_width),
{
    let high: u64 = last_column_exec(input_width);
    let in_w: Binary64 = of_u32(input_width);
    let out_w: Binary64 = of_u32(out_width);
    let mut row: Vec<u16> = Vec::new();
    let mut x: u32 = 0;
    while x < out_width
        invariant
            input_width >= 1,
            high == last_column(input_width),
            in_w == of_nat(input_width as nat),
            out_w == of_nat(out_width as nat),
            x <= out_width,
            row@.len() == x,
            forall|i: int|
                0 <= i < x ==> #[trigger] row@[i] == stretched(i, input_width, out_width),
        decreases out_width - x,
    {
        row.push(stretch_source(of_u32(x), out_w, in_w).to_u64(high) as u16);
        x += 1;
    }
    row
}

/// The interval left after `n` halvings of the search for the column of a
/// picture `in_w` wide that a stretched picture `out_w` wide shows at `target`.
pub open spec fn search(
    lo: Binary64,
    hi: Binary64,
    target: Binary64,
    in_w: Binary64,
    out_w: Binary64,
    n: nat,
) -> (Binary64, Binary64)
    decreases n,
{
    if n == 0 {
        (lo, hi)
    } else {
        let mid = lo.plus(hi).over(Binary64 { bits: TWO });
        if source(mid, in_w, out_w).below(target) {
            search(mid, hi, target, in_w, out_w, (n - 1) as nat)
        } else {
            search(lo, mid, target, in_w, out_w, (n - 1) as nat)
        }
    }
}

/// The input column that output column `s` of a squeezed picture shows.
pub open spec fn squeezed(s: int, input_width: u32, out_width: u32) -> int {
    let in_w = of_nat(input_width as nat);
    let out_w = of_nat(out_width as nat);
    let (lo, hi) = search(
        Binary64 { bits: 0 },
        in_w,
        of_nat(s as nat),
        in_w,
        out_w,
        HALVINGS as nat,
    );
    lo.plus(hi).over(Binary64 { bits: TWO }).to_integer(0, last_column(input_width))
}

/// The table of a picture squeezed from `input_width` to `out_width` columns.
pub fn squeeze_row(input_width: u32, out_width: u32) -> (row: Vec<u16>)
    requires
        input_width >= 1 || out_width == 0,
    ensures
        row@.len() == out_width,
        forall|s: int|
            0 <= s < out_width ==> #[trigger] row@[s] == squeezed(s, input_width, out_width),
{
    let mut row: Vec<u16> = Vec::new();
    if out_width == 0 {
        return row;
    }
    let high: u64 = last_column_exec(input_width);
    let in_w: Binary64 = of_u32(input_width);
    let out_w: Binary64 = of_u32(out_width);
    let mut s: u32 = 0;
    while s < out_width
        invariant
            input_width >= 1,
            high == last_column(input_width),
            in_w == of_nat(input_width as nat),
            out_w == of_nat(out_width as nat),
            s <= out_width,
            row@.len() == s,
            forall|i: int|
                0 <= i < s ==> #[trigger] row@[i] == squeezed(i, input_width, out_width),
        decreases out_width - s,
    {
        let target: Binary64 = of_u32(s);
        let mut lo: Binary64 = Binary64 { bits: 0 };
        let mut hi: Binary64 = in_w;
        let ghost goal = search(lo, hi, target, in_w, out_w, HALVINGS as nat);
        let mut left: u32 = HALVINGS;
        while left > 0
            invariant
                search(lo, hi, target, in_w, out_w, left as nat) == goal,
            decreases left,
        {
            let mid: Binary64 = lo.sum(hi).divide(Binary64 { bits: TWO });
            if stretch_source(mid, in_w, out_w).less(target) {
                lo = mid;
            } else {
                hi = mid;
            }
            left -= 1;
        }
        row.push(lo.sum(hi).divide(Binary64 { bits: TWO }).to_u64(high) as u16);
        s += 1;
    }
    row
}

// ---------------------------------------------------------------------------
// Sizes
// ---------------------------------------------------------------------------

/// The width of the output for an input of the given height: 16:9, or 4:3 for
/// a squeezed picture, rounded down to an even number.
pub open spec fn target_width(input_height: u32, squeeze: bool) -> int {
    let wide = if squeeze {
        input_height as int * 4 / 3
    } else {
        input_height as int * 16 / 9
    };
    if wide > u32::MAX {
        u32::MAX - 1
    } else {
        wide / 2 * 2
    }
}

/// The width of the output for an input of the given height.
pub fn output_width(input_height: u32, squeeze: bool) -> (r: u32)
    ensures
        r == target_width(input_height, squeeze),
{
    let wide: u64 = if squeeze {
        input_height as u64 * 4 / 3
    } else {
        input_height as u64 * 16 / 9
    };
    if wide > u32::MAX as u64 {
        u32::MAX - 1
    } else {
        wide as u32 / 2 * 2
    }
}

/// The factor by which a table is finer than the pictures; 0 counts as 1.
pub open spec fn factor(supersample: u32) -> int {
    if supersample < 1 {
        1
    } else {
        supersample as int
    }
}

/// The sizes of the tables fit in 32 bits.
pub open spec fn sizes_fit(
    input_width: u32,
    input_height: u32,
    squeeze: bool,
    supersample: u32,
) -> bool {
    &&& target_width(input_height, squeeze) * factor(supersample) <= u32::MAX
    &&& input_height * factor(supersample) <= u32::MAX
    &&& input_width * factor(supersample) <= u32::MAX
}

/// Whether the sizes of the tables fit in 32 bits.
pub fn remap_fits(
    input_width: u32,
    input_height: u32,
    squeeze: bool,
    supersample: u32,
) -> (r: bool)
    ensures
        r == sizes_fit(input_width, input_height, squeeze, supersample),
{
    let ss: u64 = if supersample < 1 {
        1
    } else {
        supersample as u64
    };
    let out_width: u32 = output_width(input_height, squeeze);
    proof {
        assert(out_width * ss <= u64::MAX && input_height * ss <= u64::MAX && input_width * ss
            <= u64::MAX) by (nonlinear_arith)
            requires
                out_width <= u32::MAX,
                input_height <= u32::MAX,
                input_width <= u32::MAX,
                ss <= u32::MAX,
        ;
    }
    out_width as u64 * ss <= u32::MAX as u64 && input_height as u64 * ss <= u32::MAX as u64
        && input_width as u64 * ss <= u32::MAX as u64
}

/// A remap table and the sizes that go with it.
pub struct Remap {
    /// The input column for each column of the table.
    pub row: Vec<u16>,
    /// How many rows the table has.
    pub map_height: u32,
    pub out_width: u32,
    pub out_height: u32,
    /// The factor by which the table is finer than the output.
    pub supersample: u32,
}

/// The remap table for an input of the given size.
pub fn generate_remap(
    input_width: u32,
    input_height: u32,
    squeeze: bool,
    supersample: u32,
) -> (r: Remap)
    requires
        input_width >= 1 || (squeeze && target_width(input_height, squeeze) == 0),
        sizes_fit(input_width, input_height, squeeze, supersample),
    ensures
        r.out_width == target_width(input_height, squeeze),
        r.out_height == input_height,
        r.supersample == factor(supersample),
        r.map_height == input_height * factor(supersample),
        r.row@.len() == target_width(input_height, squeeze) * factor(supersample),
        forall|x: int|
            0 <= x < r.row@.len() ==> #[trigger] r.row@[x] == if squeeze {
                squeezed(
                    x,
                    (input_width * factor(supersample)) as u32,
                    (r.out_width * factor(supersample)) as u32,
                )
            } else {
                stretched(
                    x,
                    (input_width * factor(supersample)) as u32,
                    (r.out_width * factor(supersample)) as u32,
                )
            },
{
    let out_width: u32 = output_width(input_height, squeeze);
    let ss: u32 = if supersample < 1 {
        1
    } else {
        supersample
    };
    proof {
        assert(input_width >= 1 ==> input_width * ss >= 1) by (nonlinear_arith)
            requires
                ss >= 1,
        ;
        assert(0 * ss == 0);
    }
    let map_width: u32 = out_width * ss;
    let map_height: u32 = input_height * ss;
    let scaled_input: u32 = input_width * ss;
    let row: Vec<u16> = if squeeze {
        squeeze_row(scaled_input, map_width)
    } else {
        stretch_row(scaled_input, map_width)
    };
    Remap { row, map_height, out_width, out_height: input_height, supersample: ss }
}

// ---------------------------------------------------------------------------
// Files
// ---------------------------------------------------------------------------

/// The two files of a remap table, and the sizes that go with it.
pub struct RemapFiles<P> {
    pub x_path: P,
    pub y_path: P,
    pub out_width: u32,
    pub out_height: u32,
    pub supersample: u32,
}

impl<P: Copy> RemapFiles<P> {
    /// The file of the columns.
    pub fn x_path(&self) -> (r: P)
        ensures
            r == self.x_path,
    {
        self.x_path
    }

    /// The file of the rows.
    pub fn y_path(&self) -> (r: P)
        ensures
            r == self.y_path,
    {
        self.y_path
    }
}

impl Remap {
    /// The table, once it is written to two files.
    pub fn written<P>(&self, x_path: P, y_path: P) -> (r: RemapFiles<P>)
        ensures
            r.x_path == x_path,
            r.y_path == y_path,
            r.out_width == self.out_width,
            r.out_height == self.out_height,
            r.supersample == self.supersample,
    {
        RemapFiles {
            x_path,
            y_path,
            out_width: self.out_width,
            out_height: self.out_height,
            supersample: self.supersample,
        }
    }
}

/// The name of the temporary file of the columns, for process `pid`.
pub open spec fn x_map_file(pid: u32) -> Seq<char> {
    "superview_x_"@ + numeral(pid as nat) + ".pgm"@
}

/// The name of the temporary file of the rows, for process `pid`.
pub open spec fn y_map_file(pid: u32) -> Seq<char> {
    "superview_y_"@ + numeral(pid as nat) + ".pgm"@
}

/// The name of the temporary file of the columns, for process `pid`.
pub fn x_map_name(pid: u32) -> (r: String)
    ensures
        r@ == x_map_file(pid),
{
    cat3("superview_x_", decimal(pid as u64).as_str(), ".pgm")
}

/// The name of the temporary file of the rows, for process `pid`.
pub fn y_map_name(pid: u32) -> (r: String)
    ensures
        r@ == y_map_file(pid),
{
    cat3("superview_y_", decimal(pid as u64).as_str(), ".pgm")
}

// ---------------------------------------------------------------------------
// Laws
// ---------------------------------------------------------------------------

/// The width of an output is the greatest even number that is not wider than
/// 16:9, or than 4:3 for a squeezed picture, as far as 32 bits hold it.
pub proof fn output_is_as_wide_as_its_shape_allows(input_height: u32, squeeze: bool)
    ensures
        target_width(input_height, squeeze) % 2 == 0,
        0 <= target_width(input_height, squeeze) < u32::MAX,
        !squeeze ==> 9 * target_width(input_height, squeeze) <= 16 * input_height,
        squeeze ==> 3 * target_width(input_height, squeeze) <= 4 * input_height,
        !squeeze ==> 16 * input_height < 9 * (target_width(input_height, squeeze) + 2)
            || target_width(input_height, squeeze) == u32::MAX - 1,
        squeeze ==> 4 * input_height < 3 * (target_width(input_height, squeeze) + 2)
            || target_width(input_height, squeeze) == u32::MAX - 1,
{
}

/// A table is as much finer as it is asked to be, and never coarser than the
/// picture.
pub proof fn tables_are_never_coarser(supersample: u32)
    ensures
        factor(0) == 1,
        supersample >= 1 ==> factor(supersample) == supersample,
        factor(supersample) >= 1,
{
}

/// The last column that a table can name is the last one of the picture, up to
/// 65536 columns, and column 65535 beyond.
pub proof fn tables_name_columns_of_16_bits(width: u32)
    requires
        width >= 1,
    ensures
        width <= 65536 ==> last_column(width) == width - 1,
        width > 65536 ==> last_column(width) == 65535,
{
}

/// The two files of a table have different names, and so have those of
/// different processes. Both are named after what they hold and after the
/// process.
pub proof fn temporary_files_are_kept_apart(a: u32, b: u32)
    ensures
        x_map_file(a) != y_map_file(b),
        a != b ==> x_map_file(a) != x_map_file(b) && y_map_file(a) != y_map_file(b),
        starts_with(x_map_file(a), "superview_x_"@ + numeral(a as nat)),
        starts_with(y_map_file(a), "superview_y_"@ + numeral(a as nat)),
        ends_with(x_map_file(a), ".pgm"@),
        ends_with(y_map_file(a), ".pgm"@),
{
    reveal_strlit("superview_x_");
    reveal_strlit("superview_y_");
    reveal_strlit(".pgm");
    let n = numeral(a as nat);
    let m = numeral(b as nat);
    assert(x_map_file(a)[10] == 'x' && y_map_file(b)[10] == 'y');
    if a != b {
        numerals_differ(a as nat, b as nat);
        let x = x_map_file(a);
        let y = y_map_file(a);
        assert(x.subrange(12, x.len() - 4) =~= n);
        assert(y.subrange(12, y.len() - 4) =~= n);
        let p = x_map_file(b);
        let q = y_map_file(b);
        assert(p.subrange(12, p.len() - 4) =~= m);
        assert(q.subrange(12, q.len() - 4) =~= m);
    }
    parts_are_contained(Seq::empty(), "superview_x_"@ + n, ".pgm"@);
    parts_are_contained(Seq::empty(), "superview_y_"@ + n, ".pgm"@);
    parts_are_contained("superview_x_"@ + n, ".pgm"@, Seq::empty());
    parts_are_contained("superview_y_"@ + n, ".pgm"@, Seq::empty());
}

} // verus!
