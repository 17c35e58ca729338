//! Remap tables as images: binary PGM files with two bytes for a pixel, the
//! greater one first. One image holds a column of the input for each pixel, the
//! other a row.

use vstd::arithmetic::mul::*;
use vstd::prelude::*;
use vstd::string::*;
use vstd::utf8::encode_utf8;

use crate::decimal::{decimal, numeral};
use crate::text::cat3;

verus! {

/// The header of an image.
pub open spec fn header_text(width: nat, height: nat) -> Seq<char> {
    "P5\n"@ + numeral(width) + " "@ + numeral(height) + "\n65535\n"@
}

/// The header of an image, in bytes.
pub open spec fn header(width: nat, height: nat) -> Seq<u8> {
    encode_utf8(header_text(width, height))
}

/// The bytes of one line of an image.
pub open spec fn line(pixels: Seq<u16>) -> Seq<u8> {
    Seq::new(
        2 * pixels.len(),
        |i: int|
            if i % 2 == 0 {
                (pixels[i / 2] / 256) as u8
            } else {
                (pixels[i / 2] % 256) as u8
            },
    )
}

/// The pixels of a line of the image of the rows: all hold the line's number,
/// as far as 16 bits hold it.
pub open spec fn row_pixels(width: nat, y: int) -> Seq<u16> {
    Seq::new(width, |x: int| (y % 65536) as u16)
}

/// The first `n` lines of the image of the columns.
pub open spec fn x_lines(row: Seq<u16>, n: nat) -> Seq<u8>
    decreases n,
{
    if n == 0 {
        Seq::empty()
    } else {
        x_lines(row, (n - 1) as nat) + line(row)
    }
}

/// The first `n` lines of the image of the rows.
pub open spec fn y_lines(width: nat, n: nat) -> Seq<u8>
    decreases n,
{
    if n == 0 {
        Seq::empty()
    } else {
        y_lines(width, (n - 1) as nat) + line(row_pixels(width, n - 1))
    }
}

/// The image of the columns.
pub open spec fn x_map(row: Seq<u16>, height: nat) -> Seq<u8> {
    header(row.len(), height) + x_lines(row, height)
}

/// The image of the rows.
pub open spec fn y_map(width: nat, height: nat) -> Seq<u8> {
    header(width, height) + y_lines(width, height)
}

/// The next bytes of the two images.
#[derive(Debug)]
pub struct MapPart {
    pub x: Vec<u8>,
    pub y: Vec<u8>,
}

fn header_bytes(width: usize, height: u32) -> (r: Vec<u8>)
    ensures
        r@ == header(width as nat, height as nat),
{
    let mut t: String = cat3("P5\n", decimal(width as u64).as_str(), " ");
    t.append(decimal(height as u64).as_str());
    t.append("\n65535\n");
    t.as_str().as_bytes_vec()
}

fn push_pixel(r: &mut Vec<u8>, pixels: Ghost<Seq<u16>>, v: u16)
    requires
        old(r)@ == line(pixels@),
    ensures
        final(r)@ == line(pixels@.push(v)),
{
    r.push((v / 256) as u8);
    r.push((v % 256) as u8);
    assert(r@ =~= line(pixels@.push(v)));
}

fn x_line(row: &[u16]) -> (r: Vec<u8>)
    ensures
        r@ == line(row@),
{
    let mut r: Vec<u8> = Vec::new();
    let mut i: usize = 0;
    assert(r@ =~= line(row@.take(0)));
    while i < row.len()
        invariant
            i <= row@.len(),
            r@ == line(row@.take(i as int)),
        decreases row@.len() - i,
    {
        push_pixel(&mut r, Ghost(row@.take(i as int)), row[i]);
        assert(row@.take(i + 1) =~= row@.take(i as int).push(row@[i as int]));
        i += 1;
    }
    assert(row@.take(i as int) =~= row@);
    r
}

fn y_line(width: usize, y: u32) -> (r: Vec<u8>)
    ensures
        r@ == line(row_pixels(width as nat, y as int)),
{
    let v: u16 = (y % 65536) as u16;
    let mut r: Vec<u8> = Vec::new();
    let mut i: usize = 0;
    assert(r@ =~= line(row_pixels(0, y as int)));
    while i < width
        invariant
            i <= width,
            v == (y as int % 65536) as u16,
            r@ == line(row_pixels(i as nat, y as int)),
        decreases width - i,
    {
        push_pixel(&mut r, Ghost(row_pixels(i as nat, y as int)), v);
        assert(row_pixels((i + 1) as nat, y as int) =~= row_pixels(i as nat, y as int).push(v));
        i += 1;
    }
    r
}

/// Part `part` of the image of the columns: the header, and then the lines.
pub open spec fn x_part(row: Seq<u16>, height: nat, part: int) -> Seq<u8> {
    if part == 0 {
        header(row.len(), height)
    } else {
        line(row)
    }
}

/// Part `part` of the image of the rows: the header, and then the lines.
pub open spec fn y_part(width: nat, height: nat, part: int) -> Seq<u8> {
    if part == 0 {
        header(width, height)
    } else {
        line(row_pixels(width, part - 1))
    }
}

/// Part `part` of the two images of a table; there is one more than the table
/// has lines.
pub fn write_maps(row: &[u16], height: u32, part: u64) -> (r: Option<MapPart>)
    ensures
        match r {
            Some(p) => {
                &&& part <= height
                &&& p.x@ == x_part(row@, height as nat, part as int)
                &&& p.y@ == y_part(row@.len(), height as nat, part as int)
            },
            None => part > height,
        },
{
    if part > height as u64 {
        return None;
    }
    if part == 0 {
        return Some(
            MapPart { x: header_bytes(row.len(), height), y: header_bytes(row.len(), height) },
        );
    }
    Some(MapPart { x: x_line(row), y: y_line(row.len(), (part - 1) as u32) })
}

// ---------------------------------------------------------------------------
// Laws
// ---------------------------------------------------------------------------

/// The first `n` parts of the image of the columns, one after the other.
pub open spec fn x_parts(row: Seq<u16>, height: nat, n: nat) -> Seq<u8>
    decreases n,
{
    if n == 0 {
        Seq::empty()
    } else {
        x_parts(row, height, (n - 1) as nat) + x_part(row, height, n - 1)
    }
}

/// The first `n` parts of the image of the rows, one after the other.
pub open spec fn y_parts(width: nat, height: nat, n: nat) -> Seq<u8>
    decreases n,
{
    if n == 0 {
        Seq::empty()
    } else {
        y_parts(width, height, (n - 1) as nat) + y_part(width, height, n - 1)
    }
}

proof fn parts_are_lines(row: Seq<u16>, height: nat, n: nat)
    ensures
        x_parts(row, height, n + 1) == header(row.len(), height) + x_lines(row, n),
        y_parts(row.len(), height, n + 1) == header(row.len(), height) + y_lines(row.len(), n),
    decreases n,
{
    reveal_with_fuel(x_parts, 2);
    reveal_with_fuel(y_parts, 2);
    if n > 0 {
        parts_are_lines(row, height, (n - 1) as nat);
    }
    assert(x_parts(row, height, n + 1) =~= header(row.len(), height) + x_lines(row, n));
    assert(y_parts(row.len(), height, n + 1) =~= header(row.len(), height) + y_lines(
        row.len(),
        n,
    ));
}

/// The parts of an image, one after the other, are the image.
pub proof fn parts_make_the_images(row: Seq<u16>, height: nat)
    ensures
        x_parts(row, height, height + 1) == x_map(row, height),
        y_parts(row.len(), height, height + 1) == y_map(row.len(), height),
{
    parts_are_lines(row, height, height);
}

/// The pixel in column `x` of line `y` of an image.
pub open spec fn pixel(image: Seq<u8>, width: nat, height: nat, x: int, y: int) -> int {
    let at = header(width, height).len() + 2 * (y * width + x);
    image[at] * 256 + image[at + 1]
}

proof fn lines_at(row: Seq<u16>, n: nat, x: int, y: int)
    requires
        0 <= x < row.len(),
        0 <= y < n,
    ensures
        x_lines(row, n).len() == 2 * (n * row.len()),
        y_lines(row.len(), n).len() == 2 * (n * row.len()),
        0 <= 2 * (y * row.len() + x),
        2 * (y * row.len() + x) + 1 < x_lines(row, n).len(),
        x_lines(row, n)[2 * (y * row.len() + x)] == (row[x] / 256) as u8,
        x_lines(row, n)[2 * (y * row.len() + x) + 1] == (row[x] % 256) as u8,
        y_lines(row.len(), n)[2 * (y * row.len() + x)] == ((y % 65536) as u16 / 256) as u8,
        y_lines(row.len(), n)[2 * (y * row.len() + x) + 1] == ((y % 65536) as u16 % 256) as u8,
    decreases n,
{
    let w = row.len();
    lines_len(row, (n - 1) as nat);
    lines_len(row, n);
    assert(0 <= y * w + x < n * w) by (nonlinear_arith)
        requires
            0 <= y,
            y + 1 <= n,
            0 <= x < w,
    ;
    if y == n - 1 {
        let lx = line(row);
        let ly = line(row_pixels(w, y));
        assert(lx[2 * x] == (row[x] / 256) as u8);
        assert(lx[2 * x + 1] == (row[x] % 256) as u8);
        assert(ly[2 * x] == ((y % 65536) as u16 / 256) as u8);
        assert(ly[2 * x + 1] == ((y % 65536) as u16 % 256) as u8);
    } else {
        lines_at(row, (n - 1) as nat, x, y);
    }
}

proof fn lines_len(row: Seq<u16>, n: nat)
    ensures
        x_lines(row, n).len() == 2 * (n * row.len()),
        y_lines(row.len(), n).len() == 2 * (n * row.len()),
    decreases n,
{
    if n > 0 {
        lines_len(row, (n - 1) as nat);
        lemma_mul_is_distributive_sub_other_way(row.len() as int, n as int, 1);
    } else {
        assert(0 * row.len() == 0);
    }
}

/// What the images hold at column `x` of line `y`: the column of the table, and
/// the line, as far as 16 bits hold it.
pub proof fn images_hold_the_table(row: Seq<u16>, height: nat, x: int, y: int)
    requires
        0 <= x < row.len(),
        0 <= y < height,
    ensures
        pixel(x_map(row, height), row.len(), height, x, y) == row[x],
        pixel(y_map(row.len(), height), row.len(), height, x, y) == y % 65536,
{
    lines_at(row, height, x, y);
    let h = header(row.len(), height);
    let at = 2 * (y * row.len() + x);
    assert(x_map(row, height)[h.len() + at] == x_lines(row, height)[at]);
    assert(x_map(row, height)[h.len() + at + 1] == x_lines(row, height)[at + 1]);
    assert(y_map(row.len(), height)[h.len() + at] == y_lines(row.len(), height)[at]);
    assert(y_map(row.len(), height)[h.len() + at + 1] == y_lines(row.len(), height)[at + 1]);
}

/// An image has two bytes for each pixel after its header.
pub proof fn images_have_all_pixels(row: Seq<u16>, height: nat)
    ensures
        x_map(row, height).len() == header(row.len(), height).len() + 2 * (height * row.len()),
        y_map(row.len(), height).len() == x_map(row, height).len(),
{
    lines_len(row, height);
}

/// Both images begin with the same header: the mark of a binary PGM file, width
/// and height, and the greatest value of a pixel, which takes two bytes.
pub proof fn images_begin_with_their_sizes(row: Seq<u16>, height: nat)
    ensures
        ({
            let h = encode_utf8(
                "P5\n"@ + numeral(row.len()) + " "@ + numeral(height) + "\n65535\n"@,
            );
            &&& x_map(row, height).take(h.len() as int) == h
            &&& y_map(row.len(), height).take(h.len() as int) == h
            &&& h == header(row.len(), height)
        }),
{
    let h = header(row.len(), height);
    assert(x_map(row, height).take(h.len() as int) =~= h);
    assert(y_map(row.len(), height).take(h.len() as int) =~= h);
}

/// Of the two bytes of a pixel the greater one comes first.
pub proof fn greater_byte_comes_first(pixels: Seq<u16>, i: int)
    requires
        0 <= i < pixels.len(),
    ensures
        line(pixels).len() == 2 * pixels.len(),
        line(pixels)[2 * i] == pixels[i] / 256,
        line(pixels)[2 * i + 1] == pixels[i] % 256,
{
}

} // verus!
