//! Black bars: how they are looked for, and the rectangle between them.

use vstd::prelude::*;
use vstd::string::*;

use crate::args::{path, texts, ArgList, ArgView};
use crate::binary64::{of_nat, of_u32, Binary64};
use crate::bytes::{lossy_text, utf8_lossy};
use crate::decimal::{
    decimal, is_digit, numeral, numeral_is_read_back, parse_u32, read_number, NumberFault,
};
use crate::error::Error;
use crate::fixed::{fixed, fixed_text};
use crate::text::{
    after_prefix, cat, cat3, contains, fields, fields_are_some, find_last, is_space, lines,
    nth_word, occurs_at, opt_text, rfind, rfind_is_the_last_match, same, split, split_lines,
    strings, strip_prefix, white_space_parts_words, word, words, Separator,
};

verus! {

/// The bits of 4 / 3.
pub const FOUR_THIRDS: u64 = 0x3ff5_5555_5555_5555;

/// The bits of 16 / 9.
pub const SIXTEEN_NINTHS: u64 = 0x3ffc_71c7_1c71_c71c;

/// The bits of 0.1: how far a cropped picture may be from 4:3.
pub const CROP_TOLERANCE: u64 = 0x3fb9_9999_9999_999a;

/// The bits of 0.05: how far an input may be from its expected shape.
pub const INPUT_TOLERANCE: u64 = 0x3fa9_9999_9999_999a;

/// The bits of 60.
pub const SIXTY: u64 = 0x404e_0000_0000_0000;

/// The bits of 20.
pub const TWENTY: u64 = 0x4034_0000_0000_0000;

// ---------------------------------------------------------------------------
// Rectangles
// ---------------------------------------------------------------------------

/// A part of a picture: its size and its upper left corner.
#[derive(Clone, Copy, Debug, PartialEq, Eq, Structural)]
pub struct CropRect {
    pub w: u32,
    pub h: u32,
    pub x: u32,
    pub y: u32,
}

impl CropRect {
    /// Width to height.
    pub open spec fn aspect(&self) -> Binary64 {
        of_nat(self.w as nat).over(of_nat(self.h as nat))
    }

    /// Width to height.
    pub fn aspect_ratio(&self) -> (r: Binary64)
        ensures
            r == self.aspect(),
    {
        of_u32(self.w).divide(of_u32(self.h))
    }

    /// The filter that cuts the rectangle out of a picture.
    pub open spec fn filter(&self) -> Seq<char> {
        "crop="@ + numeral(self.w as nat) + ":"@ + numeral(self.h as nat) + ":"@ + numeral(
            self.x as nat,
        ) + ":"@ + numeral(self.y as nat)
    }

    /// The filter that cuts the rectangle out of a picture.
    pub fn as_filter(&self) -> (r: String)
        ensures
            r@ == self.filter(),
    {
        let mut r: String = cat("crop=", decimal(self.w as u64).as_str());
        r.append(":");
        r.append(decimal(self.h as u64).as_str());
        r.append(":");
        r.append(decimal(self.x as u64).as_str());
        r.append(":");
        r.append(decimal(self.y as u64).as_str());
        r
    }
}

/// The four texts between colons, after `crop=` where that stands.
pub open spec fn crop_fields(s: Seq<char>) -> Seq<Seq<char>> {
    fields(
        match strip_prefix(s, "crop="@) {
            Some(rest) => rest,
            None => s,
        },
        Separator::Char(':'),
    )
}

/// What is said of a number of a rectangle that cannot be read.
pub open spec fn crop_fault(name: Seq<char>, fault: NumberFault) -> Seq<char> {
    name + ": "@ + fault.text()
}

/// The rectangle that a text gives, or why it gives none.
pub open spec fn read_crop(s: Seq<char>) -> Result<CropRect, Seq<char>> {
    let v = crop_fields(s);
    if v.len() != 4 {
        Err("Unexpected cropdetect format: "@ + s)
    } else {
        match read_number(v[0]) {
            Err(fault) => Err(crop_fault("Invalid crop width"@, fault)),
            Ok(w) => match read_number(v[1]) {
                Err(fault) => Err(crop_fault("Invalid crop height"@, fault)),
                Ok(h) => match read_number(v[2]) {
                    Err(fault) => Err(crop_fault("Invalid crop x"@, fault)),
                    Ok(x) => match read_number(v[3]) {
                        Err(fault) => Err(crop_fault("Invalid crop y"@, fault)),
                        Ok(y) => Ok(
                            CropRect { w: w as u32, h: h as u32, x: x as u32, y: y as u32 },
                        ),
                    },
                },
            },
        }
    }
}

fn crop_error(name: &str, fault: NumberFault) -> (r: Error)
    ensures
        r@ == crop_fault(name@, fault),
{
    Error::new(cat3(name, ": ", fault.message()))
}

/// The rectangle that a text gives.
pub fn parse_crop(s: &str) -> (r: Result<CropRect, Error>)
    ensures
        match r {
            Ok(c) => read_crop(s@) == Ok::<CropRect, Seq<char>>(c),
            Err(e) => read_crop(s@) == Err::<CropRect, Seq<char>>(e@),
        },
{
    let body: &str = match after_prefix(s, "crop=") {
        Some(rest) => rest,
        None => s,
    };
    let values: Vec<String> = split(body, Separator::Char(':'));
    let ghost v = crop_fields(s@);
    assert(strings(values@) == v);
    if values.len() != 4 {
        return Err(Error::new(cat("Unexpected cropdetect format: ", s)));
    }
    assert(values@[0]@ == v[0] && values@[1]@ == v[1] && values@[2]@ == v[2] && values@[3]@
        == v[3]) by {
        assert(strings(values@)[0] == v[0]);
        assert(strings(values@)[1] == v[1]);
        assert(strings(values@)[2] == v[2]);
        assert(strings(values@)[3] == v[3]);
    }
    let w: u32 = match parse_u32(values[0].as_str()) {
        Ok(n) => n,
        Err(fault) => return Err(crop_error("Invalid crop width", fault)),
    };
    let h: u32 = match parse_u32(values[1].as_str()) {
        Ok(n) => n,
        Err(fault) => return Err(crop_error("Invalid crop height", fault)),
    };
    let x: u32 = match parse_u32(values[2].as_str()) {
        Ok(n) => n,
        Err(fault) => return Err(crop_error("Invalid crop x", fault)),
    };
    let y: u32 = match parse_u32(values[3].as_str()) {
        Ok(n) => n,
        Err(fault) => return Err(crop_error("Invalid crop y", fault)),
    };
    Ok(CropRect { w, h, x, y })
}

/// Text without a separator lengthens the last piece.
proof fn fields_extend(a: Seq<char>, b: Seq<char>, sep: Separator)
    requires
        forall|i: int| 0 <= i < b.len() ==> !sep.holds(#[trigger] b[i]),
    ensures
        fields(a + b, sep) == fields(a, sep).drop_last().push(fields(a, sep).last() + b),
    decreases b.len(),
{
    fields_are_some(a, sep);
    let f = fields(a, sep);
    if b.len() == 0 {
        assert(a + b =~= a);
        assert(f.last() + b =~= f.last());
        assert(f.drop_last().push(f.last()) =~= f);
    } else {
        let c = b.drop_last();
        assert forall|i: int| 0 <= i < c.len() implies !sep.holds(#[trigger] c[i]) by {
            assert(c[i] == b[i]);
        }
        fields_extend(a, c, sep);
        assert((a + b).drop_last() =~= a + c);
        assert((a + b).last() == b.last());
        let g = f.drop_last().push(f.last() + c);
        assert(g.drop_last() =~= f.drop_last());
        assert((f.last() + c).push(b.last()) =~= f.last() + b);
    }
}

/// A separator and text without one add a piece.
proof fn fields_add(a: Seq<char>, d: char, b: Seq<char>)
    requires
        forall|i: int| 0 <= i < b.len() ==> #[trigger] b[i] != d,
    ensures
        fields(a.push(d) + b, Separator::Char(d)) == fields(a, Separator::Char(d)).push(b),
{
    let sep = Separator::Char(d);
    fields_extend(a.push(d), b, sep);
    assert(a.push(d).drop_last() =~= a);
    let f = fields(a, sep).push(Seq::empty());
    assert(f.drop_last() =~= fields(a, sep));
    assert(Seq::<char>::empty() + b =~= b);
}

/// The rectangle that a filter names is read back from it.
pub proof fn filter_is_read_back(c: CropRect)
    ensures
        read_crop(c.filter()) == Ok::<CropRect, Seq<char>>(c),
{
    reveal_strlit("crop=");
    reveal_strlit(":");
    let w = numeral(c.w as nat);
    let h = numeral(c.h as nat);
    let x = numeral(c.x as nat);
    let y = numeral(c.y as nat);
    numeral_is_read_back(c.w as nat);
    numeral_is_read_back(c.h as nat);
    numeral_is_read_back(c.x as nat);
    numeral_is_read_back(c.y as nat);
    let sep = Separator::Char(':');
    let body = w + ":"@ + h + ":"@ + x + ":"@ + y;
    let s = c.filter();
    assert(s.subrange(0, 5) =~= "crop="@);
    assert(s.skip(5) =~= body);
    assert(strip_prefix(s, "crop="@) == Some(body));
    let empty = Seq::<char>::empty();
    fields_extend(empty, w, sep);
    assert(fields(empty, sep) =~= seq![empty]);
    assert(empty + w =~= w);
    assert(fields(empty, sep).drop_last() =~= Seq::<Seq<char>>::empty());
    assert(fields(w, sep) =~= seq![w]);
    assert(w.push(':') + h =~= w + ":"@ + h);
    fields_add(w, ':', h);
    let wh = w + ":"@ + h;
    assert(wh.push(':') + x =~= wh + ":"@ + x);
    fields_add(wh, ':', x);
    let whx = wh + ":"@ + x;
    assert(whx.push(':') + y =~= whx + ":"@ + y);
    fields_add(whx, ':', y);
    assert(fields(body, sep) =~= seq![w, h, x, y]);
}

// ---------------------------------------------------------------------------
// Detection
// ---------------------------------------------------------------------------

/// The rectangle that a line of ffmpeg's cropdetect filter names: the last
/// `crop=` and what follows it up to white space.
pub open spec fn crop_token(line: Seq<char>) -> Option<Seq<char>> {
    match rfind(line, "crop="@) {
        Some(i) => {
            let rest = line.skip(i);
            match word(rest, 0) {
                Some(w) => Some(w),
                None => Some(rest),
            }
        },
        None => None,
    }
}

/// The rectangles that some lines name, in order.
pub open spec fn crop_tokens(lines: Seq<Seq<char>>) -> Seq<Seq<char>>
    decreases lines.len(),
{
    if lines.len() == 0 {
        Seq::empty()
    } else {
        let init = crop_tokens(lines.drop_last());
        match crop_token(lines.last()) {
            Some(t) => init.push(t),
            None => init,
        }
    }
}

fn crop_token_exec(line: &str) -> (r: Option<String>)
    ensures
        opt_text(r) == crop_token(line@),
{
    match find_last(line, "crop=") {
        Some(i) => {
            proof {
                crate::text::rfind_is_the_last_match(line@, "crop="@);
            }
            let n: usize = line.unicode_len();
            let rest: &str = line.substring_char(i, n);
            assert(rest@ =~= line@.skip(i as int));
            match nth_word(rest, 0) {
                Some(w) => Some(w),
                None => Some(rest.to_owned()),
            }
        },
        None => None,
    }
}

/// The rectangles that the lines of a text name.
pub fn crops_in(text: &str) -> (r: Vec<String>)
    ensures
        strings(r@) == crop_tokens(lines(text@)),
{
    let all: Vec<String> = split_lines(text);
    let ghost whole = lines(text@);
    let mut r: Vec<String> = Vec::new();
    let mut i: usize = 0;
    assert(whole.take(0) =~= Seq::<Seq<char>>::empty());
    assert(strings(r@) =~= crop_tokens(whole.take(0)));
    while i < all.len()
        invariant
            i <= all@.len(),
            strings(all@) == whole,
            strings(r@) == crop_tokens(whole.take(i as int)),
        decreases all@.len() - i,
    {
        let line: &str = all[i].as_str();
        let ghost before = strings(r@);
        proof {
            assert(whole.take(i + 1).drop_last() =~= whole.take(i as int));
            assert(strings(all@)[i as int] == line@);
        }
        if let Some(t) = crop_token_exec(line) {
            r.push(t);
            assert(strings(r@) =~= before.push(t@));
        }
        i += 1;
    }
    assert(whole.take(i as int) =~= whole);
    r
}

/// How often `t` stands in a list.
pub open spec fn count(list: Seq<Seq<char>>, t: Seq<char>) -> nat
    decreases list.len(),
{
    if list.len() == 0 {
        0
    } else {
        count(list.drop_last(), t) + if list.last() == t {
            1nat
        } else {
            0
        }
    }
}

/// Nothing stands in the list more often than what is at `i`, and nothing
/// before `i` stands in it as often.
pub open spec fn is_most_common(list: Seq<Seq<char>>, i: int) -> bool {
    &&& 0 <= i < list.len()
    &&& forall|j: int|
        0 <= j < list.len() ==> count(list, #[trigger] list[j]) <= count(list, list[i])
    &&& forall|j: int| 0 <= j < i ==> count(list, #[trigger] list[j]) < count(list, list[i])
}

/// The place of the most common text of a list; of several, the one that comes
/// first.
pub open spec fn most_common(list: Seq<Seq<char>>) -> int {
    choose|i: int| is_most_common(list, i)
}

fn count_exec(list: &Vec<String>, t: &str) -> (r: usize)
    ensures
        r == count(strings(list@), t@),
{
    let ghost all = strings(list@);
    let mut r: usize = 0;
    let mut i: usize = 0;
    assert(all.take(0) =~= Seq::<Seq<char>>::empty());
    while i < list.len()
        invariant
            i <= list@.len(),
            all == strings(list@),
            r <= i,
            r == count(all.take(i as int), t@),
        decreases list@.len() - i,
    {
        proof {
            assert(all.take(i + 1).drop_last() =~= all.take(i as int));
            assert(all.take(i + 1).last() == list@[i as int]@);
        }
        if same(list[i].as_str(), t) {
            r += 1;
        }
        i += 1;
    }
    assert(all.take(i as int) =~= all);
    r
}

/// The place of the most common text of a list.
pub fn find_most_common(list: &Vec<String>) -> (r: Option<usize>)
    ensures
        match r {
            Some(i) => i < list@.len() && i == most_common(strings(list@)) && is_most_common(
                strings(list@),
                i as int,
            ),
            None => list@.len() == 0,
        },
{
    if list.len() == 0 {
        return None;
    }
    let ghost all = strings(list@);
    let mut best: usize = 0;
    let mut best_count: usize = count_exec(list, list[0].as_str());
    let mut i: usize = 1;
    while i < list.len()
        invariant
            1 <= i <= list@.len(),
            all == strings(list@),
            best < i,
            best_count == count(all, all[best as int]),
            forall|j: int| 0 <= j < i ==> count(all, #[trigger] all[j]) <= best_count,
            forall|j: int| 0 <= j < best ==> count(all, #[trigger] all[j]) < best_count,
        decreases list@.len() - i,
    {
        let c: usize = count_exec(list, list[i].as_str());
        if c > best_count {
            best = i;
            best_count = c;
        }
        i += 1;
    }
    proof {
        assert(is_most_common(all, best as int));
        let other = most_common(all);
        assert(is_most_common(all, other));
        if other < best {
            assert(count(all, all[other]) < count(all, all[best as int]));
        } else if best < other {
            assert(count(all, all[best as int]) < count(all, all[other]));
        }
    }
    Some(best)
}

/// How a run of ffmpeg's cropdetect filter ended, with its error output.
pub enum CropRun {
    Failed(Vec<u8>),
    Done(Vec<u8>),
}

/// The rectangle that a run of cropdetect settles on: the one that it names
/// most often.
pub open spec fn detected(text: Seq<char>) -> Result<CropRect, Seq<char>> {
    let list = crop_tokens(lines(text));
    if list.len() == 0 {
        Err("cropdetect produced no output - video may have no frames"@)
    } else {
        read_crop(list[most_common(list)])
    }
}

/// The rectangle that the output of cropdetect settles on.
pub fn detected_in(text: &str) -> (r: Result<CropRect, Error>)
    ensures
        match r {
            Ok(c) => detected(text@) == Ok::<CropRect, Seq<char>>(c),
            Err(e) => detected(text@) == Err::<CropRect, Seq<char>>(e@),
        },
{
    let list: Vec<String> = crops_in(text);
    match find_most_common(&list) {
        Some(i) => {
            assert(strings(list@)[i as int] == list@[i as int]@);
            parse_crop(list[i].as_str())
        },
        None => Err(Error::of("cropdetect produced no output - video may have no frames")),
    }
}

/// The rectangle between the black bars, from a run of cropdetect.
pub fn detect_crop(run: CropRun) -> (r: Result<CropRect, Error>)
    ensures
        match run {
            CropRun::Failed(stderr) => r is Err && r->Err_0@ == "ffmpeg cropdetect failed:\n"@
                + utf8_lossy(stderr@),
            CropRun::Done(stderr) => match r {
                Ok(c) => detected(utf8_lossy(stderr@)) == Ok::<CropRect, Seq<char>>(c),
                Err(e) => detected(utf8_lossy(stderr@)) == Err::<CropRect, Seq<char>>(e@),
            },
        },
{
    match run {
        CropRun::Failed(stderr) => Err(
            Error::new(
                cat(
                    "ffmpeg cropdetect failed:\n",
                    lossy_text(stderr.as_slice()).as_str(),
                ),
            ),
        ),
        CropRun::Done(stderr) => detected_in(lossy_text(stderr.as_slice()).as_str()),
    }
}

/// Where detection starts, in seconds: past the opening of a long video.
pub open spec fn crop_start(duration: Binary64) -> Seq<char> {
    if (Binary64 { bits: SIXTY }).below(duration) {
        "30"@
    } else {
        "0"@
    }
}

/// How much detection looks at, in seconds: 10, or all of a short video.
pub open spec fn crop_length(duration: Binary64, duration_text: Seq<char>) -> Seq<char> {
    if (Binary64 { bits: TWENTY }).below(duration) || (!duration.is_nan() && !(Binary64 {
        bits: 0,
    }).below(duration)) {
        "10"@
    } else {
        duration_text
    }
}

/// The arguments of ffmpeg that look for black bars.
pub open spec fn crop_query<P>(
    file: P,
    duration: Binary64,
    duration_text: Seq<char>,
) -> Seq<ArgView<P>> {
    texts(seq!["-hide_banner"@, "-ss"@, crop_start(duration), "-i"@]) + path(file) + texts(
        seq![
            "-t"@,
            crop_length(duration, duration_text),
            "-vf"@,
            "cropdetect=24:2:0"@,
            "-f"@,
            "null"@,
            "-"@,
        ],
    )
}

/// The arguments of ffmpeg that look for black bars in a video of the given
/// duration, which is also given as a text.
pub fn detect_crop_args<P>(file: P, duration: Binary64, duration_text: &str) -> (r: ArgList<P>)
    ensures
        r@ == crop_query(file, duration, duration_text@),
{
    let start: &str = if (Binary64 { bits: SIXTY }).less(duration) {
        "30"
    } else {
        "0"
    };
    let length: &str = if (Binary64 { bits: TWENTY }).less(duration) || (!duration.nan() && !(
    Binary64 { bits: 0 }).less(duration)) {
        "10"
    } else {
        duration_text
    };
    let mut r: ArgList<P> = ArgList::new();
    r.pair("-hide_banner", "-ss");
    r.pair(start, "-i");
    assert(r@ =~= texts(seq!["-hide_banner"@, "-ss"@, start@, "-i"@]));
    r.path(file);
    let ghost head = r@;
    r.pair("-t", length);
    r.pair("-vf", "cropdetect=24:2:0");
    r.pair("-f", "null");
    r.text("-");
    assert(r@ =~= head + texts(
        seq!["-t"@, length@, "-vf"@, "cropdetect=24:2:0"@, "-f"@, "null"@, "-"@],
    ));
    r
}

// ---------------------------------------------------------------------------
// Shapes
// ---------------------------------------------------------------------------

/// A shape is farther than a tolerance from an expected one.
pub open spec fn is_off(aspect: Binary64, expected: Binary64, tolerance: Binary64) -> bool {
    tolerance.below(aspect.minus(expected).spec_magnitude())
}

fn off(aspect: Binary64, expected: Binary64, tolerance: Binary64) -> (r: bool)
    ensures
        r == is_off(aspect, expected, tolerance),
{
    tolerance.less(aspect.subtract(expected).magnitude())
}

/// What detection comes to: the rectangle to cut out, if any, what is said of
/// it, and a warning.
#[derive(Debug)]
pub struct CropVerdict {
    pub crop: Option<CropRect>,
    pub note: String,
    pub warning: Option<String>,
}

/// What is said of a rectangle that was found.
pub open spec fn region_text(c: CropRect) -> Seq<char> {
    "Detected content region: "@ + numeral(c.w as nat) + "x"@ + numeral(c.h as nat)
        + " at offset ("@ + numeral(c.x as nat) + ", "@ + numeral(c.y as nat)
        + ") — aspect ratio "@ + fixed(c.aspect(), true)
}

/// The warning that a rectangle is far from 4:3.
pub open spec fn region_warning(c: CropRect) -> Option<Seq<char>> {
    if is_off(c.aspect(), Binary64 { bits: FOUR_THIRDS }, Binary64 { bits: CROP_TOLERANCE }) {
        Some(
            "Warning: cropped region aspect ratio "@ + fixed(c.aspect(), true)
                + " is not close to 4:3 ("@ + fixed(Binary64 { bits: FOUR_THIRDS }, true)
                + ") - output may look distorted"@,
        )
    } else {
        None
    }
}

/// The rectangle to cut out of a picture: none if it has the size of the whole
/// picture.
pub open spec fn worth_cutting(c: CropRect, width: u32, height: u32) -> Option<CropRect> {
    if c.w == width && c.h == height {
        None
    } else {
        Some(c)
    }
}

/// Whether to cut out the rectangle that was found: not if it has the size of
/// the whole picture.
pub fn judge_crop(c: CropRect, width: u32, height: u32) -> (r: CropVerdict)
    ensures
        r.crop == worth_cutting(c, width, height),
        if r.crop is None {
            &&& r.note@ == "No black bars detected, proceeding without cropping.\n"@
            &&& r.warning is None
        } else {
            &&& r.note@ == region_text(c)
            &&& opt_text(r.warning) == region_warning(c)
        },
{
    if c.w == width && c.h == height {
        return CropVerdict {
            crop: None,
            note: "No black bars detected, proceeding without cropping.\n".to_owned(),
            warning: None,
        };
    }
    let aspect: Binary64 = c.aspect_ratio();
    let shape: String = fixed_text(aspect, true);
    let mut note: String = cat("Detected content region: ", decimal(c.w as u64).as_str());
    note.append("x");
    note.append(decimal(c.h as u64).as_str());
    note.append(" at offset (");
    note.append(decimal(c.x as u64).as_str());
    note.append(", ");
    note.append(decimal(c.y as u64).as_str());
    note.append(") — aspect ratio ");
    note.append(shape.as_str());
    let warning: Option<String> = if off(
        aspect,
        Binary64 { bits: FOUR_THIRDS },
        Binary64 { bits: CROP_TOLERANCE },
    ) {
        let mut w: String = cat("Warning: cropped region aspect ratio ", shape.as_str());
        w.append(" is not close to 4:3 (");
        w.append(fixed_text(Binary64 { bits: FOUR_THIRDS }, true).as_str());
        w.append(") - output may look distorted");
        Some(w)
    } else {
        None
    };
    CropVerdict { crop: Some(c), note, warning }
}

/// The warning that an input is far from the shape that it should have: 4:3,
/// or 16:9 where it is to be squeezed.
pub open spec fn input_warning(width: u32, height: u32, squeeze: bool) -> Option<Seq<char>> {
    let aspect = of_nat(width as nat).over(of_nat(height as nat));
    let expected = if squeeze {
        Binary64 { bits: SIXTEEN_NINTHS }
    } else {
        Binary64 { bits: FOUR_THIRDS }
    };
    if is_off(aspect, expected, Binary64 { bits: INPUT_TOLERANCE }) {
        Some(
            "Warning: input aspect ratio "@ + fixed(aspect, true) + " is not close to "@ + fixed(
                expected,
                true,
            ) + " ("@ + if squeeze {
                "16:9"@
            } else {
                "4:3"@
            } + ") - output may look distorted"@,
        )
    } else {
        None
    }
}

/// The warning that an input is far from the shape that it should have.
pub fn check_aspect(width: u32, height: u32, squeeze: bool) -> (r: Option<String>)
    ensures
        opt_text(r) == input_warning(width, height, squeeze),
{
    let aspect: Binary64 = of_u32(width).divide(of_u32(height));
    let expected: Binary64 = if squeeze {
        Binary64 { bits: SIXTEEN_NINTHS }
    } else {
        Binary64 { bits: FOUR_THIRDS }
    };
    if !off(aspect, expected, Binary64 { bits: INPUT_TOLERANCE }) {
        return None;
    }
    let mut w: String = cat("Warning: input aspect ratio ", fixed_text(aspect, true).as_str());
    w.append(" is not close to ");
    w.append(fixed_text(expected, true).as_str());
    w.append(" (");
    w.append(if squeeze {
        "16:9"
    } else {
        "4:3"
    });
    w.append(") - output may look distorted");
    Some(w)
}

// ---------------------------------------------------------------------------
// Laws of detection
// ---------------------------------------------------------------------------

/// The number that ranks a text is how many places of the list hold it: its
/// count among the texts of the list, in whatever order they stand, and the
/// size of the set of those places.
pub proof fn count_is_the_number_of_places(list: Seq<Seq<char>>, t: Seq<char>)
    ensures
        count(list, t) == list.to_multiset().count(t),
        count(list, t) == Set::new(|i: int| 0 <= i < list.len() && list[i] == t).len(),
        Set::new(|i: int| 0 <= i < list.len() && list[i] == t).finite(),
    decreases list.len(),
{
    broadcast use vstd::seq_lib::group_to_multiset_ensures;

    let here = Set::new(|i: int| 0 <= i < list.len() && list[i] == t);
    if list.len() == 0 {
        assert(list =~= Seq::<Seq<char>>::empty());
        assert(list.to_multiset().len() == 0);
        assert(here =~= Set::<int>::empty());
    } else {
        let init = list.drop_last();
        count_is_the_number_of_places(init, t);
        assert(init.push(list.last()) =~= list);
        let last: int = list.len() - 1;
        let before = Set::new(|i: int| 0 <= i < init.len() && init[i] == t);
        if list.last() == t {
            assert(here =~= before.insert(last));
        } else {
            assert(here =~= before);
        }
    }
}

/// Some text of a list that is not empty is the most common one.
proof fn most_common_exists(list: Seq<Seq<char>>)
    requires
        list.len() > 0,
    ensures
        is_most_common(list, most_common(list)),
{
    let i = best_of(list, list.len() as int);
    assert(is_most_common(list, i));
}

proof fn best_of(list: Seq<Seq<char>>, n: int) -> (i: int)
    requires
        1 <= n <= list.len(),
    ensures
        0 <= i < n,
        forall|j: int| 0 <= j < n ==> count(list, #[trigger] list[j]) <= count(list, list[i]),
        forall|j: int| 0 <= j < i ==> count(list, #[trigger] list[j]) < count(list, list[i]),
    decreases n,
{
    if n == 1 {
        0
    } else {
        let i = best_of(list, n - 1);
        if count(list, list[n - 1]) > count(list, list[i]) {
            n - 1
        } else {
            i
        }
    }
}

/// The rectangle that detection settles on is read from a text that stands in
/// at least as many lines as any other. Of several such texts it is the one
/// that is named first.
pub proof fn no_rectangle_is_named_more_often(text: Seq<char>)
    ensures
        crop_tokens(lines(text)).len() == 0 <==> detected(text) == Err::<CropRect, Seq<char>>(
            "cropdetect produced no output - video may have no frames"@,
        ),
        crop_tokens(lines(text)).len() > 0 ==> {
            let list = crop_tokens(lines(text));
            exists|i: int|
                {
                    &&& 0 <= i < list.len()
                    &&& detected(text) == read_crop(#[trigger] list[i])
                    &&& forall|t: Seq<char>|
                        #[trigger] list.to_multiset().count(t) <= list.to_multiset().count(list[i])
                    &&& forall|j: int|
                        0 <= j < i ==> list.to_multiset().count(#[trigger] list[j])
                            < list.to_multiset().count(list[i])
                }
        },
{
    broadcast use vstd::seq_lib::group_to_multiset_ensures;

    let list = crop_tokens(lines(text));
    if list.len() > 0 {
        most_common_exists(list);
        let i = most_common(list);
        count_is_the_number_of_places(list, list[i]);
        assert forall|t: Seq<char>|
            #[trigger] list.to_multiset().count(t) <= list.to_multiset().count(list[i]) by {
            count_is_the_number_of_places(list, t);
            if list.to_multiset().count(t) > 0 {
                assert(list.contains(t));
                let j = choose|j: int| 0 <= j < list.len() && list[j] == t;
                assert(count(list, list[j]) <= count(list, list[i]));
            }
        }
        assert forall|j: int| 0 <= j < i implies list.to_multiset().count(#[trigger] list[j])
            < list.to_multiset().count(list[i]) by {
            count_is_the_number_of_places(list, list[j]);
        }
        crop_faults_are_others(list[i]);
    }
}

/// What is said of a text that gives no rectangle is never what is said where
/// there is no text.
proof fn crop_faults_are_others(s: Seq<char>)
    ensures
        read_crop(s) != Err::<CropRect, Seq<char>>(
            "cropdetect produced no output - video may have no frames"@,
        ),
{
    let none = "cropdetect produced no output - video may have no frames"@;
    reveal_strlit("cropdetect produced no output - video may have no frames");
    reveal_strlit("Unexpected cropdetect format: ");
    reveal_strlit("Invalid crop width");
    reveal_strlit("Invalid crop height");
    reveal_strlit("Invalid crop x");
    reveal_strlit("Invalid crop y");
    assert(none[0] == 'c');
    match read_crop(s) {
        Ok(_) => {},
        Err(e) => {
            assert(e[0] == 'U' || e[0] == 'I');
        },
    }
}

/// A line names the rectangle behind its last `crop=`, up to the first white
/// space behind it or to the end of the line. A line without `crop=` names
/// none.
pub proof fn last_rectangle_of_a_line_counts(
    before: Seq<char>,
    numbers: Seq<char>,
    space: char,
    after: Seq<char>,
    line: Seq<char>,
)
    requires
        forall|i: int| 0 <= i < numbers.len() ==> !is_space(#[trigger] numbers[i]),
        is_space(space),
        !contains(numbers.push(space) + after, "crop="@),
        !contains(numbers, "crop="@),
    ensures
        crop_token(before + "crop="@ + numbers.push(space) + after) == Some("crop="@ + numbers),
        crop_token(before + "crop="@ + numbers) == Some("crop="@ + numbers),
        !contains(line, "crop="@) ==> crop_token(line) is None,
{
    reveal_strlit("crop=");
    let w = "crop="@ + numbers;
    assert forall|i: int| 0 <= i < w.len() implies !is_space(#[trigger] w[i]) by {
        if i >= 5 {
            assert(w[i] == numbers[i - 5]);
        }
    }
    last_crop_is_found(before, numbers.push(space) + after);
    last_crop_is_found(before, numbers);
    let long = before + "crop="@ + (numbers.push(space) + after);
    assert(long =~= before + "crop="@ + numbers.push(space) + after);
    assert(long.skip(before.len() as int) =~= w.push(space) + after);
    assert((before + w).skip(before.len() as int) =~= w);
    assert(before + w =~= before + "crop="@ + numbers);
    white_space_parts_words(w, space, after);
    assert(words(w.push(space) + after)[0] == w);
    rfind_is_the_last_match(line, "crop="@);
}

proof fn last_crop_is_found(before: Seq<char>, rest: Seq<char>)
    requires
        !contains(rest, "crop="@),
    ensures
        rfind(before + "crop="@ + rest, "crop="@) == Some(before.len() as int),
{
    reveal_strlit("crop=");
    let line = before + "crop="@ + rest;
    let k = before.len() as int;
    assert(line.subrange(k, k + 5) =~= "crop="@);
    assert(occurs_at(line, "crop="@, k));
    rfind_is_the_last_match(line, "crop="@);
    let i = rfind(line, "crop="@)->0;
    if i > k {
        let found = line.subrange(i, i + 5);
        assert(found[0] == 'c' && found[0] == line[i]);
        if i < k + 5 {
            assert(line[i] == "crop="@[i - k]);
        } else {
            assert(rest.subrange(i - k - 5, i - k) =~= found);
            assert(occurs_at(rest, "crop="@, i - k - 5));
        }
    } else if i < k {
        assert(!occurs_at(line, "crop="@, k));
    }
}

/// The rectangles of two runs of lines are those of the first run and then
/// those of the second: each line adds the one that it names.
pub proof fn rectangles_are_collected_in_order(
    a: Seq<Seq<char>>,
    b: Seq<Seq<char>>,
    line: Seq<char>,
)
    ensures
        crop_tokens(a + b) == crop_tokens(a) + crop_tokens(b),
        crop_token(line) matches Some(t) ==> crop_tokens(seq![line]) == seq![t],
        crop_token(line) is None ==> crop_tokens(seq![line]) == Seq::<Seq<char>>::empty(),
    decreases b.len(),
{
    assert(seq![line].drop_last() =~= Seq::<Seq<char>>::empty());
    assert(crop_tokens(Seq::<Seq<char>>::empty()) =~= Seq::<Seq<char>>::empty());
    if crop_token(line) is Some {
        assert(crop_tokens(seq![line]) =~= seq![crop_token(line)->0]);
    }
    if b.len() == 0 {
        assert(a + b =~= a);
        assert(crop_tokens(a + b) =~= crop_tokens(a) + crop_tokens(b));
    } else {
        rectangles_are_collected_in_order(a, b.drop_last(), line);
        assert((a + b).drop_last() =~= a + b.drop_last());
        assert(crop_tokens(a + b) =~= crop_tokens(a) + crop_tokens(b));
    }
}

/// A rectangle is written and read as width, height, and the two coordinates
/// of its corner, in this order and with colons between them, with or without
/// `crop=` before them.
pub proof fn rectangles_are_written_in_order(w: u32, h: u32, x: u32, y: u32)
    ensures
        (CropRect { w, h, x, y }).filter() == "crop="@ + numeral(w as nat) + ":"@ + numeral(
            h as nat,
        ) + ":"@ + numeral(x as nat) + ":"@ + numeral(y as nat),
        read_crop(
            "crop="@ + numeral(w as nat) + ":"@ + numeral(h as nat) + ":"@ + numeral(x as nat)
                + ":"@ + numeral(y as nat),
        ) == Ok::<CropRect, Seq<char>>(CropRect { w, h, x, y }),
        read_crop(
            numeral(w as nat) + ":"@ + numeral(h as nat) + ":"@ + numeral(x as nat) + ":"@
                + numeral(y as nat),
        ) == Ok::<CropRect, Seq<char>>(CropRect { w, h, x, y }),
{
    let c = CropRect { w, h, x, y };
    filter_is_read_back(c);
    reveal_strlit("crop=");
    let body = numeral(w as nat) + ":"@ + numeral(h as nat) + ":"@ + numeral(x as nat) + ":"@
        + numeral(y as nat);
    assert(c.filter() =~= "crop="@ + body);
    numeral_is_read_back(w as nat);
    assert(body[0] == numeral(w as nat)[0]);
    assert(is_digit(numeral(w as nat)[0]));
    assert(strip_prefix(body, "crop="@) is None) by {
        if body.len() >= 5 {
            assert(body.subrange(0, 5)[0] == body[0]);
            assert("crop="@[0] == 'c');
        }
    }
    assert(c.filter().subrange(0, 5) =~= "crop="@);
    assert(c.filter().skip(5) =~= body);
    assert(strip_prefix(c.filter(), "crop="@) == Some(body));
}

/// Anything but four fields between colons is refused with the whole text. Of
/// four fields the first that is no number is named, and why it is none.
pub proof fn unreadable_rectangles_are_refused(s: Seq<char>, fault: NumberFault)
    ensures
        ({
            let v = crop_fields(s);
            let e = |name: Seq<char>| Err::<CropRect, Seq<char>>(name + ": "@ + fault.text());
            &&& v.len() != 4 ==> read_crop(s) == Err::<CropRect, Seq<char>>(
                "Unexpected cropdetect format: "@ + s,
            )
            &&& v.len() == 4 && read_number(v[0]) == Err::<nat, NumberFault>(fault) ==> read_crop(s)
                == e("Invalid crop width"@)
            &&& v.len() == 4 && read_number(v[0]) is Ok && read_number(v[1]) == Err::<
                nat,
                NumberFault,
            >(fault) ==> read_crop(s) == e("Invalid crop height"@)
            &&& v.len() == 4 && read_number(v[0]) is Ok && read_number(v[1]) is Ok && read_number(
                v[2],
            ) == Err::<nat, NumberFault>(fault) ==> read_crop(s) == e("Invalid crop x"@)
            &&& v.len() == 4 && read_number(v[0]) is Ok && read_number(v[1]) is Ok && read_number(
                v[2],
            ) is Ok && read_number(v[3]) == Err::<nat, NumberFault>(fault) ==> read_crop(s) == e(
                "Invalid crop y"@,
            )
        }),
        NumberFault::Empty.text() == "cannot parse integer from empty string"@,
        NumberFault::InvalidDigit.text() == "invalid digit found in string"@,
        NumberFault::TooLarge.text() == "number too large to fit in target type"@,
{
}

/// Detection reads the file from its start time on, for its length of time, and
/// keeps no output.
pub proof fn detection_reads_a_part_of_the_file<P>(file: P, duration: Binary64, text: Seq<char>)
    ensures
        ({
            let c = crop_query(file, duration, text);
            &&& c.len() == 12
            &&& c[0] == ArgView::<P>::Text("-hide_banner"@)
            &&& c[1] == ArgView::<P>::Text("-ss"@)
            &&& c[2] == ArgView::<P>::Text(crop_start(duration))
            &&& c[3] == ArgView::<P>::Text("-i"@)
            &&& c[4] == ArgView::Path(file)
            &&& c[5] == ArgView::<P>::Text("-t"@)
            &&& c[6] == ArgView::<P>::Text(crop_length(duration, text))
            &&& c[7] == ArgView::<P>::Text("-vf"@)
            &&& c[8] == ArgView::<P>::Text("cropdetect=24:2:0"@)
            &&& c[9] == ArgView::<P>::Text("-f"@)
            &&& c[10] == ArgView::<P>::Text("null"@)
            &&& c[11] == ArgView::<P>::Text("-"@)
        }),
{
}

/// A warning of a shape gives the shape there is and the shape there should be,
/// as a number with two places and as a ratio.
pub proof fn warnings_give_both_shapes(c: CropRect, width: u32, height: u32)
    ensures
        region_warning(c) matches Some(w) ==> w == "Warning: cropped region aspect ratio "@ + fixed(
            c.aspect(),
            true,
        ) + " is not close to 4:3 ("@ + fixed(Binary64 { bits: FOUR_THIRDS }, true)
            + ") - output may look distorted"@,
        input_warning(width, height, true) matches Some(w) ==> w == "Warning: input aspect ratio "@
            + fixed(of_nat(width as nat).over(of_nat(height as nat)), true)
            + " is not close to "@ + fixed(Binary64 { bits: SIXTEEN_NINTHS }, true) + " ("@
            + "16:9"@ + ") - output may look distorted"@,
        input_warning(width, height, false) matches Some(w) ==> w
            == "Warning: input aspect ratio "@ + fixed(
            of_nat(width as nat).over(of_nat(height as nat)),
            true,
        ) + " is not close to "@ + fixed(Binary64 { bits: FOUR_THIRDS }, true) + " ("@ + "4:3"@
            + ") - output may look distorted"@,
{
}

/// A rectangle is cut out if and only if its width or its height differs from
/// that of the picture, and it is cut out as it was found.
pub proof fn smaller_rectangles_are_cut_out(c: CropRect, width: u32, height: u32)
    ensures
        worth_cutting(c, width, height) is Some <==> c.w != width || c.h != height,
        worth_cutting(c, width, height) is Some ==> worth_cutting(c, width, height) == Some(c),
{
}

} // verus!
