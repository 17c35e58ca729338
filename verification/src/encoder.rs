//! Encoders: which ones ffmpeg has, which one to use, and its quality flags.

use vstd::prelude::*;
use vstd::string::*;

use crate::bytes::{lossy_text, utf8_lossy};
use crate::decimal::{
    decimal, digits_are_read, digits_value, numeral, numeral_writes_its_number, read_number,
    NumberFault,
};
use crate::error::Error;
use crate::probe::VideoSpecs;
use crate::text::{
    begins, cat, contains, has, is_space, join, joined, lines, nth_word, opt_str, opt_text,
    owned_list, parts_are_contained, same, split_lines, starts_with, strings, strs,
    white_space_parts_words, word, words,
};

verus! {

// ---------------------------------------------------------------------------
// What ffmpeg offers
// ---------------------------------------------------------------------------

/// The version of ffmpeg and the names of its video encoders.
#[derive(Debug)]
pub struct FfmpegInfo {
    pub version: String,
    pub encoders: Vec<String>,
}

/// The name of an encoder for H.264 or H.265.
pub open spec fn is_h26x(name: Seq<char>) -> bool {
    contains(name, "264"@) || contains(name, "265"@) || contains(name, "hevc"@)
}

/// The names among `names` that belong to H.264 or H.265, in the same order.
pub open spec fn h26x(names: Seq<Seq<char>>) -> Seq<Seq<char>> {
    names.filter(|name: Seq<char>| is_h26x(name))
}

impl FfmpegInfo {
    /// The names of the encoders.
    pub open spec fn names(&self) -> Seq<Seq<char>> {
        strings(self.encoders@)
    }

    /// Whether ffmpeg has the encoder `name`.
    pub fn has_encoder(&self, name: &str) -> (r: bool)
        ensures
            r == self.names().contains(name@),
    {
        let mut i: usize = 0;
        while i < self.encoders.len()
            invariant
                i <= self.encoders@.len(),
                forall|j: int| 0 <= j < i ==> self.names()[j] != name@,
            decreases self.encoders@.len() - i,
        {
            if same(self.encoders[i].as_str(), name) {
                assert(self.names()[i as int] == name@);
                return true;
            }
            i += 1;
        }
        false
    }

    /// The encoders for H.264 and H.265.
    pub fn h26x_encoders(&self) -> (r: Vec<&str>)
        ensures
            strs(r@) == h26x(self.names()),
    {
        let mut r: Vec<&str> = Vec::new();
        let mut i: usize = 0;
        let ghost all = self.names();
        proof {
            reveal(Seq::filter);
            assert(all.take(0) =~= Seq::<Seq<char>>::empty());
            assert(strs(r@) =~= h26x(all.take(0)));
        }
        while i < self.encoders.len()
            invariant
                i <= self.encoders@.len(),
                all == self.names(),
                strs(r@) == h26x(all.take(i as int)),
            decreases self.encoders@.len() - i,
        {
            let name: &str = self.encoders[i].as_str();
            let ghost before = strs(r@);
            proof {
                reveal(Seq::filter);
                assert(all.take(i + 1).drop_last() =~= all.take(i as int));
                assert(all.take(i + 1).last() == name@);
            }
            if has(name, "264") || has(name, "265") || has(name, "hevc") {
                r.push(name);
                assert(strs(r@) =~= before.push(name@));
            }
            i += 1;
        }
        assert(all.take(i as int) =~= all);
        r
    }

    /// The encoders for H.264 and H.265 as one text.
    pub fn h26x_list(&self) -> (r: String)
        ensures
            r@ == join(h26x(self.names()), ", "@),
    {
        joined(&self.h26x_encoders(), ", ")
    }
}

/// The version in what `ffmpeg -version` prints: its third word.
pub open spec fn version(text: Seq<char>) -> Seq<char> {
    match word(text, 2) {
        Some(w) => w,
        None => "unknown"@,
    }
}

/// The version in what `ffmpeg -version` prints.
pub fn version_in(text: &str) -> (r: String)
    ensures
        r@ == version(text@),
{
    match nth_word(text, 2) {
        Some(w) => w,
        None => "unknown".to_owned(),
    }
}

/// The encoder that one line of `ffmpeg -encoders` lists: the second word of a
/// line that marks a video encoder.
pub open spec fn listed(line: Seq<char>) -> Option<Seq<char>> {
    if starts_with(line, " V"@) {
        word(line, 1)
    } else {
        None
    }
}

/// The encoders that some lines of `ffmpeg -encoders` list, in order.
pub open spec fn listed_in(lines: Seq<Seq<char>>) -> Seq<Seq<char>>
    decreases lines.len(),
{
    if lines.len() == 0 {
        Seq::empty()
    } else {
        let init = listed_in(lines.drop_last());
        match listed(lines.last()) {
            Some(name) => init.push(name),
            None => init,
        }
    }
}

/// The video encoders that `ffmpeg -encoders` lists.
pub fn encoders_in(text: &str) -> (r: Vec<String>)
    ensures
        strings(r@) == listed_in(lines(text@)),
{
    let all: Vec<String> = split_lines(text);
    let ghost whole = lines(text@);
    let mut r: Vec<String> = Vec::new();
    let mut i: usize = 0;
    assert(whole.take(0) =~= Seq::<Seq<char>>::empty());
    assert(strings(r@) =~= listed_in(whole.take(0)));
    while i < all.len()
        invariant
            i <= all@.len(),
            strings(all@) == whole,
            strings(r@) == listed_in(whole.take(i as int)),
        decreases all@.len() - i,
    {
        let line: &str = all[i].as_str();
        let ghost before = strings(r@);
        proof {
            assert(whole.take(i + 1).drop_last() =~= whole.take(i as int));
            assert(strings(all@)[i as int] == line@);
        }
        if begins(line, " V") {
            if let Some(name) = nth_word(line, 1) {
                r.push(name);
                assert(strings(r@) =~= before.push(name@));
            }
        }
        i += 1;
    }
    assert(whole.take(i as int) =~= whole);
    r
}

/// What ffmpeg offers, from what `ffmpeg -version` and `ffmpeg -encoders`
/// print.
pub fn check_ffmpeg(version_output: &[u8], encoders_output: &[u8]) -> (r: FfmpegInfo)
    ensures
        r.version@ == version(utf8_lossy(version_output@)),
        r.names() == listed_in(lines(utf8_lossy(encoders_output@))),
{
    FfmpegInfo {
        version: version_in(lossy_text(version_output).as_str()),
        encoders: encoders_in(lossy_text(encoders_output).as_str()),
    }
}

// ---------------------------------------------------------------------------
// The choice of an encoder
// ---------------------------------------------------------------------------

/// The encoder that goes with the codec of the input.
pub open spec fn encoder_for(codec: Seq<char>) -> Seq<char> {
    if codec == "hevc"@ || codec == "h265"@ {
        "libx265"@
    } else if codec == "h264"@ || codec == "avc"@ {
        "libx264"@
    } else if codec == "vp9"@ {
        "libvpx-vp9"@
    } else if codec == "vp8"@ {
        "libvpx"@
    } else if codec == "av1"@ {
        "libsvtav1"@
    } else {
        codec
    }
}

/// The warning that the encoder for the input is replaced by another one.
pub open spec fn fallback_text(
    candidate: Seq<char>,
    codec: Seq<char>,
    fallback: Seq<char>,
) -> Seq<char> {
    "Warning: encoder '"@ + candidate + "' for input codec '"@ + codec
        + "' is not available, falling back to "@ + fallback
}

/// The encoder to use and a warning, or why there is none. A requested encoder
/// must be available. Without a request it is the one for the codec of the
/// input, else `libx264`, else `libx265`.
pub open spec fn choice(
    requested: Option<Seq<char>>,
    names: Seq<Seq<char>>,
    codec: Seq<char>,
) -> Result<(Seq<char>, Option<Seq<char>>), Seq<char>> {
    let available = join(h26x(names), ", "@);
    match requested {
        Some(name) => if names.contains(name) {
            Ok((name, None))
        } else {
            Err(
                "Requested encoder '"@ + name
                    + "' is not available. Available H.264/H.265 encoders: "@ + available,
            )
        },
        None => {
            let candidate = encoder_for(codec);
            if names.contains(candidate) {
                Ok((candidate, None))
            } else if names.contains("libx264"@) {
                Ok(("libx264"@, Some(fallback_text(candidate, codec, "libx264"@))))
            } else if names.contains("libx265"@) {
                Ok(("libx265"@, Some(fallback_text(candidate, codec, "libx265"@))))
            } else {
                Err(
                    "No suitable encoder found for input codec '"@ + codec
                        + "'. Available H.264/H.265 encoders: "@ + available,
                )
            }
        },
    }
}

/// The encoder to use, with a warning where it is a replacement.
#[derive(Debug)]
pub struct EncoderChoice {
    pub encoder: String,
    pub warning: Option<String>,
}

fn encoder_for_exec(codec: &str) -> (r: String)
    ensures
        r@ == encoder_for(codec@),
{
    if same(codec, "hevc") || same(codec, "h265") {
        "libx265".to_owned()
    } else if same(codec, "h264") || same(codec, "avc") {
        "libx264".to_owned()
    } else if same(codec, "vp9") {
        "libvpx-vp9".to_owned()
    } else if same(codec, "vp8") {
        "libvpx".to_owned()
    } else if same(codec, "av1") {
        "libsvtav1".to_owned()
    } else {
        codec.to_owned()
    }
}

fn fall_back(candidate: &str, codec: &str, fallback: &str) -> (r: EncoderChoice)
    ensures
        r.encoder@ == fallback@,
        opt_text(r.warning) == Some(fallback_text(candidate@, codec@, fallback@)),
{
    let mut w: String = cat("Warning: encoder '", candidate);
    w.append("' for input codec '");
    w.append(codec);
    w.append("' is not available, falling back to ");
    w.append(fallback);
    EncoderChoice { encoder: fallback.to_owned(), warning: Some(w) }
}

/// The encoder to use for a video.
pub fn find_encoder(requested: Option<&str>, info: &FfmpegInfo, video: &VideoSpecs) -> (r: Result<
    EncoderChoice,
    Error,
>)
    requires
        requested is None ==> video.streams@.len() > 0,
    ensures
        match r {
            Ok(c) => choice(opt_str(requested), info.names(), video.streams@[0].codec_name@) == Ok::<
                (Seq<char>, Option<Seq<char>>),
                Seq<char>,
            >((c.encoder@, opt_text(c.warning))),
            Err(e) => choice(opt_str(requested), info.names(), video.streams@[0].codec_name@)
                == Err::<(Seq<char>, Option<Seq<char>>), Seq<char>>(e@),
        },
{
    match requested {
        Some(name) => {
            if info.has_encoder(name) {
                return Ok(EncoderChoice { encoder: name.to_owned(), warning: None });
            }
            let mut m: String = cat("Requested encoder '", name);
            m.append("' is not available. Available H.264/H.265 encoders: ");
            m.append(info.h26x_list().as_str());
            Err(Error::new(m))
        },
        None => {
            let codec: &str = video.streams[0].codec_name.as_str();
            let candidate: String = encoder_for_exec(codec);
            if info.has_encoder(candidate.as_str()) {
                return Ok(EncoderChoice { encoder: candidate, warning: None });
            }
            if info.has_encoder("libx264") {
                return Ok(fall_back(candidate.as_str(), codec, "libx264"));
            }
            if info.has_encoder("libx265") {
                return Ok(fall_back(candidate.as_str(), codec, "libx265"));
            }
            let mut m: String = cat("No suitable encoder found for input codec '", codec);
            m.append("'. Available H.264/H.265 encoders: ");
            m.append(info.h26x_list().as_str());
            Err(Error::new(m))
        },
    }
}

/// Whatever encoder is chosen, ffmpeg has it.
pub proof fn chosen_encoder_is_available(
    requested: Option<Seq<char>>,
    names: Seq<Seq<char>>,
    codec: Seq<char>,
)
    ensures
        choice(requested, names, codec) matches Ok(c) ==> names.contains(c.0),
{
}

/// A request is met by the very encoder that was asked for, or refused.
pub proof fn request_is_never_replaced(
    name: Seq<char>,
    names: Seq<Seq<char>>,
    codec: Seq<char>,
)
    ensures
        choice(Some(name), names, codec) matches Ok(c) ==> c.0 == name && c.1 is None,
        choice(Some(name), names, codec) is Ok <==> names.contains(name),
{
}

/// Without a request an encoder is found as soon as ffmpeg has `libx264` or
/// `libx265`.
pub proof fn usual_encoders_suffice(names: Seq<Seq<char>>, codec: Seq<char>)
    requires
        names.contains("libx264"@) || names.contains("libx265"@),
    ensures
        choice(None, names, codec) is Ok,
{
}

// ---------------------------------------------------------------------------
// Quality
// ---------------------------------------------------------------------------

/// How good the output shall be: a constant rate factor, or bits per second.
#[derive(Clone, Copy, Debug)]
pub enum Quality {
    Crf(u8),
    Bitrate(u64),
}

/// The constant rate factor of an encoder, where none is asked for.
pub open spec fn usual_crf(encoder: Seq<char>) -> u8 {
    if contains(encoder, "265"@) || contains(encoder, "hevc"@) {
        18
    } else if contains(encoder, "264"@) {
        23
    } else {
        28
    }
}

/// The constant rate factor of an encoder, where none is asked for.
pub fn default_crf(encoder: &str) -> (r: u8)
    ensures
        r == usual_crf(encoder@),
{
    if has(encoder, "265") || has(encoder, "hevc") {
        18
    } else if has(encoder, "264") {
        23
    } else {
        28
    }
}

/// The quality asked for. A bitrate goes before a rate factor.
pub open spec fn wanted_quality(
    bitrate: Option<u64>,
    crf: Option<u8>,
    encoder: Seq<char>,
) -> Quality {
    match bitrate {
        Some(b) => Quality::Bitrate(b),
        None => Quality::Crf(
            match crf {
                Some(c) => c,
                None => usual_crf(encoder),
            },
        ),
    }
}

/// The quality asked for.
pub fn choose_quality(bitrate: Option<u64>, crf: Option<u8>, encoder: &str) -> (r: Quality)
    ensures
        r == wanted_quality(bitrate, crf, encoder@),
{
    match bitrate {
        Some(b) => Quality::Bitrate(b),
        None => Quality::Crf(
            match crf {
                Some(c) => c,
                None => default_crf(encoder),
            },
        ),
    }
}

/// The flags that set the quality of an encoder, or why there are none.
pub open spec fn quality_flags(encoder: Seq<char>, quality: Quality) -> Result<
    Seq<Seq<char>>,
    Seq<char>,
> {
    match quality {
        Quality::Bitrate(b) => Ok(seq!["-b:v"@, numeral(b as nat)]),
        Quality::Crf(c) => {
            let crf = numeral(c as nat);
            if contains(encoder, "nvenc"@) {
                Ok(seq!["-rc"@, "vbr"@, "-cq"@, crf, "-b:v"@, "0"@])
            } else if contains(encoder, "qsv"@) {
                Ok(seq!["-global_quality"@, crf])
            } else if contains(encoder, "vaapi"@) {
                Ok(seq!["-qp"@, crf])
            } else if contains(encoder, "amf"@) {
                Ok(seq!["-rc"@, "cqp"@, "-qp_i"@, crf, "-qp_p"@, crf])
            } else if contains(encoder, "videotoolbox"@) {
                Err(
                    "CRF mode is not supported with "@ + encoder + "; use --bitrate instead"@,
                )
            } else if starts_with(encoder, "libvpx"@) {
                Ok(seq!["-crf"@, crf, "-b:v"@, "0"@])
            } else {
                Ok(seq!["-crf"@, crf])
            }
        },
    }
}

/// The flags that set the quality of an encoder.
pub fn quality_args(encoder: &str, quality: &Quality) -> (r: Result<Vec<String>, Error>)
    ensures
        match r {
            Ok(v) => quality_flags(encoder@, *quality) == Ok::<Seq<Seq<char>>, Seq<char>>(
                strings(v@),
            ),
            Err(e) => quality_flags(encoder@, *quality) == Err::<Seq<Seq<char>>, Seq<char>>(e@),
        },
{
    let r: Result<Vec<String>, Error> = match quality {
        Quality::Bitrate(b) => Ok(owned_list(vec!["-b:v", decimal(*b).as_str()])),
        Quality::Crf(c) => {
            let text: String = decimal(*c as u64);
            let crf: &str = text.as_str();
            if has(encoder, "nvenc") {
                Ok(owned_list(vec!["-rc", "vbr", "-cq", crf, "-b:v", "0"]))
            } else if has(encoder, "qsv") {
                Ok(owned_list(vec!["-global_quality", crf]))
            } else if has(encoder, "vaapi") {
                Ok(owned_list(vec!["-qp", crf]))
            } else if has(encoder, "amf") {
                Ok(owned_list(vec!["-rc", "cqp", "-qp_i", crf, "-qp_p", crf]))
            } else if has(encoder, "videotoolbox") {
                let mut m: String = cat("CRF mode is not supported with ", encoder);
                m.append("; use --bitrate instead");
                Err(Error::new(m))
            } else if begins(encoder, "libvpx") {
                Ok(owned_list(vec!["-crf", crf, "-b:v", "0"]))
            } else {
                Ok(owned_list(vec!["-crf", crf]))
            }
        },
    };
    assert(r matches Ok(v) ==> strings(v@) =~= quality_flags(encoder@, *quality)->Ok_0);
    r
}

/// A bitrate suits every encoder. A rate factor suits every encoder but those
/// of VideoToolbox whose name holds none of the marks that are looked for
/// first.
pub proof fn quality_is_refused_only_by_videotoolbox(encoder: Seq<char>, quality: Quality)
    ensures
        quality_flags(encoder, quality) is Err <==> {
            &&& quality is Crf
            &&& contains(encoder, "videotoolbox"@)
            &&& !contains(encoder, "nvenc"@)
            &&& !contains(encoder, "qsv"@)
            &&& !contains(encoder, "vaapi"@)
            &&& !contains(encoder, "amf"@)
        },
{
}

/// What is said of the encoder and its quality before encoding.
pub open spec fn quality_text(encoder: Seq<char>, quality: Quality) -> Seq<char> {
    match quality {
        Quality::Bitrate(b) => "Re-encoding with "@ + encoder + " encoder at "@ + numeral(
            b as nat / 1_000_000,
        ) + " Mbit/s bitrate\n"@,
        Quality::Crf(c) => "Re-encoding with "@ + encoder + " encoder at CRF "@ + numeral(
            c as nat,
        ) + "\n"@,
    }
}

/// What is said of the encoder and its quality before encoding.
pub fn quality_message(encoder: &str, quality: &Quality) -> (r: String)
    ensures
        r@ == quality_text(encoder@, *quality),
{
    let mut m: String = cat("Re-encoding with ", encoder);
    match quality {
        Quality::Bitrate(b) => {
            m.append(" encoder at ");
            m.append(decimal(*b / 1_000_000).as_str());
            m.append(" Mbit/s bitrate\n");
        },
        Quality::Crf(c) => {
            m.append(" encoder at CRF ");
            m.append(decimal(*c as u64).as_str());
            m.append("\n");
        },
    }
    m
}

// ---------------------------------------------------------------------------
// Laws
// ---------------------------------------------------------------------------

/// Whatever the encoder, a bitrate is asked for by `-b:v` and the digits of
/// that very number.
pub proof fn bitrate_is_kept_to_the_bit(encoder: Seq<char>, b: u64)
    ensures
        quality_flags(encoder, Quality::Bitrate(b)) is Ok,
        quality_flags(encoder, Quality::Bitrate(b))->Ok_0.len() == 2,
        quality_flags(encoder, Quality::Bitrate(b))->Ok_0[0] == "-b:v"@,
        ({
            let digits = quality_flags(encoder, Quality::Bitrate(b))->Ok_0[1];
            &&& digits.len() >= 1
            &&& forall|i: int| 0 <= i < digits.len() ==> '0' <= #[trigger] digits[i] <= '9'
            &&& digits_value(digits) == b
            &&& b <= u32::MAX ==> read_number(digits) == Ok::<nat, NumberFault>(b as nat)
        }),
{
    numeral_writes_its_number(b as nat);
    digits_are_read(numeral(b as nat));
}

/// Different bitrates give different flags, for any two encoders.
pub proof fn bitrates_are_told_apart(one: Seq<char>, other: Seq<char>, a: u64, b: u64)
    requires
        a != b,
    ensures
        quality_flags(one, Quality::Bitrate(a)) != quality_flags(other, Quality::Bitrate(b)),
{
    bitrate_is_kept_to_the_bit(one, a);
    bitrate_is_kept_to_the_bit(other, b);
}

/// A rate factor stands in the flags as its own digits, behind the option that
/// the encoder has for it. Where the encoder also takes a bitrate, that is set
/// to 0, so that the factor alone counts.
pub proof fn rate_factor_goes_by_the_kind_of_encoder(
    a: Seq<char>,
    b: Seq<char>,
    encoder: Seq<char>,
    c: u8,
)
    ensures
        quality_flags(a + "nvenc"@ + b, Quality::Crf(c)) == Ok::<Seq<Seq<char>>, Seq<char>>(
            seq!["-rc"@, "vbr"@, "-cq"@, numeral(c as nat), "-b:v"@, "0"@],
        ),
        !contains(a + "qsv"@ + b, "nvenc"@) ==> quality_flags(a + "qsv"@ + b, Quality::Crf(c))
            == Ok::<Seq<Seq<char>>, Seq<char>>(seq!["-global_quality"@, numeral(c as nat)]),
        !contains(a + "vaapi"@ + b, "nvenc"@) && !contains(a + "vaapi"@ + b, "qsv"@)
            ==> quality_flags(a + "vaapi"@ + b, Quality::Crf(c)) == Ok::<
            Seq<Seq<char>>,
            Seq<char>,
        >(seq!["-qp"@, numeral(c as nat)]),
        !contains(a + "amf"@ + b, "nvenc"@) && !contains(a + "amf"@ + b, "qsv"@) && !contains(
            a + "amf"@ + b,
            "vaapi"@,
        ) ==> quality_flags(a + "amf"@ + b, Quality::Crf(c)) == Ok::<Seq<Seq<char>>, Seq<char>>(
            seq!["-rc"@, "cqp"@, "-qp_i"@, numeral(c as nat), "-qp_p"@, numeral(c as nat)],
        ),
        ({
            &&& !contains(encoder, "nvenc"@)
            &&& !contains(encoder, "qsv"@)
            &&& !contains(encoder, "vaapi"@)
            &&& !contains(encoder, "amf"@)
        }) ==> {
            &&& contains(encoder, "videotoolbox"@) ==> quality_flags(encoder, Quality::Crf(c))
                == Err::<Seq<Seq<char>>, Seq<char>>(
                "CRF mode is not supported with "@ + encoder + "; use --bitrate instead"@,
            )
            &&& !contains(encoder, "videotoolbox"@) && encoder.len() >= 6 && encoder.take(6)
                == "libvpx"@ ==> quality_flags(encoder, Quality::Crf(c)) == Ok::<
                Seq<Seq<char>>,
                Seq<char>,
            >(seq!["-crf"@, numeral(c as nat), "-b:v"@, "0"@])
            &&& !contains(encoder, "videotoolbox"@) && !(encoder.len() >= 6 && encoder.take(6)
                == "libvpx"@) ==> quality_flags(encoder, Quality::Crf(c)) == Ok::<
                Seq<Seq<char>>,
                Seq<char>,
            >(seq!["-crf"@, numeral(c as nat)])
        },
{
    parts_are_contained(a, "nvenc"@, b);
    parts_are_contained(a, "qsv"@, b);
    parts_are_contained(a, "vaapi"@, b);
    parts_are_contained(a, "amf"@, b);
    reveal_strlit("libvpx");
}

/// Different rate factors give different flags, wherever there are flags at
/// all.
pub proof fn rate_factors_are_told_apart(encoder: Seq<char>, c: u8, d: u8)
    requires
        c != d,
        quality_flags(encoder, Quality::Crf(c)) is Ok,
    ensures
        quality_flags(encoder, Quality::Crf(d)) is Ok,
        quality_flags(encoder, Quality::Crf(c)) != quality_flags(encoder, Quality::Crf(d)),
        exists|i: int|
            0 <= i < quality_flags(encoder, Quality::Crf(c))->Ok_0.len() && digits_value(
                #[trigger] quality_flags(encoder, Quality::Crf(c))->Ok_0[i],
            ) == c && quality_flags(encoder, Quality::Crf(c))->Ok_0[i] == numeral(c as nat),
{
    numeral_writes_its_number(c as nat);
    numeral_writes_its_number(d as nat);
    let x = quality_flags(encoder, Quality::Crf(c))->Ok_0;
    let y = quality_flags(encoder, Quality::Crf(d))->Ok_0;
    if contains(encoder, "nvenc"@) || (contains(encoder, "amf"@) && !contains(encoder, "qsv"@)
        && !contains(encoder, "vaapi"@)) {
        assert(x[3] == numeral(c as nat) && y[3] == numeral(d as nat));
    } else {
        assert(x[1] == numeral(c as nat) && y[1] == numeral(d as nat));
    }
}

/// Encoders of H.265 have 18 where no rate factor is asked for, those of H.264
/// have 23, and all others 28. A name that speaks of both goes by H.265.
pub proof fn usual_rate_factors(a: Seq<char>, b: Seq<char>, encoder: Seq<char>)
    ensures
        usual_crf(a + "265"@ + b) == 18,
        usual_crf(a + "hevc"@ + b) == 18,
        !contains(a + "264"@ + b, "265"@) && !contains(a + "264"@ + b, "hevc"@) ==> usual_crf(
            a + "264"@ + b,
        ) == 23,
        !contains(encoder, "265"@) && !contains(encoder, "hevc"@) && !contains(encoder, "264"@)
            <==> usual_crf(encoder) == 28,
        usual_crf(encoder) == 18 ==> contains(encoder, "265"@) || contains(encoder, "hevc"@),
{
    parts_are_contained(a, "265"@, b);
    parts_are_contained(a, "hevc"@, b);
    parts_are_contained(a, "264"@, b);
}

/// A bitrate that is asked for is taken whatever else is asked for. Else a rate
/// factor that is asked for is taken, and only without either does the encoder
/// decide.
pub proof fn requests_go_before_the_usual(bitrate: u64, crf: Option<u8>, c: u8, encoder: Seq<char>)
    ensures
        wanted_quality(Some(bitrate), crf, encoder) == Quality::Bitrate(bitrate),
        wanted_quality(None, Some(c), encoder) == Quality::Crf(c),
        wanted_quality(None, None, encoder) == Quality::Crf(18) || wanted_quality(
            None,
            None,
            encoder,
        ) == Quality::Crf(23) || wanted_quality(None, None, encoder) == Quality::Crf(28),
        wanted_quality(None, None, encoder) == Quality::Crf(usual_crf(encoder)),
{
}

/// Each codec has its own encoder; a codec that is not known stands for the
/// encoder of its name.
pub proof fn codecs_have_encoders(codec: Seq<char>)
    ensures
        encoder_for("hevc"@) == "libx265"@,
        encoder_for("h265"@) == "libx265"@,
        encoder_for("h264"@) == "libx264"@,
        encoder_for("avc"@) == "libx264"@,
        encoder_for("vp9"@) == "libvpx-vp9"@,
        encoder_for("vp8"@) == "libvpx"@,
        encoder_for("av1"@) == "libsvtav1"@,
        !seq!["hevc"@, "h265"@, "h264"@, "avc"@, "vp9"@, "vp8"@, "av1"@].contains(codec)
            ==> encoder_for(codec) == codec,
{
    reveal_strlit("hevc");
    reveal_strlit("h265");
    reveal_strlit("h264");
    reveal_strlit("avc");
    reveal_strlit("vp9");
    reveal_strlit("vp8");
    reveal_strlit("av1");
    assert("hevc"@[0] == 'h' && "hevc"@[1] == 'e' && "hevc"@.len() == 4);
    assert("h265"@[2] == '6' && "h264"@[2] == '6' && "h265"@[1] == '2' && "h264"@[1] == '2');
    assert("h265"@[3] == '5' && "h264"@[3] == '4' && "h265"@.len() == 4 && "h264"@.len() == 4);
    assert("avc"@[1] == 'v' && "avc"@[2] == 'c' && "avc"@[0] == 'a' && "avc"@.len() == 3);
    assert("vp9"@[2] == '9' && "vp8"@[2] == '8' && "vp9"@[0] == 'v' && "vp8"@[0] == 'v');
    assert("av1"@[2] == '1' && "av1"@[0] == 'a' && "av1"@.len() == 3);
    assert("vp9"@.len() == 3 && "vp8"@.len() == 3);
    let seven = seq!["hevc"@, "h265"@, "h264"@, "avc"@, "vp9"@, "vp8"@, "av1"@];
    assert(seven[0] == "hevc"@ && seven[1] == "h265"@ && seven[2] == "h264"@ && seven[3] == "avc"@
        && seven[4] == "vp9"@ && seven[5] == "vp8"@ && seven[6] == "av1"@);
}

/// Without a request the encoder for the codec is used where ffmpeg has it,
/// and nothing is said. Else `libx264` goes before `libx265`, with a warning
/// that names the codec and both encoders. Without any of the three the codec
/// is named in what is said.
pub proof fn replacements_have_an_order(names: Seq<Seq<char>>, codec: Seq<char>)
    ensures
        names.contains(encoder_for(codec)) ==> choice(None, names, codec) == Ok::<
            (Seq<char>, Option<Seq<char>>),
            Seq<char>,
        >((encoder_for(codec), None)),
        !names.contains(encoder_for(codec)) && names.contains("libx264"@) ==> choice(
            None,
            names,
            codec,
        ) == Ok::<(Seq<char>, Option<Seq<char>>), Seq<char>>(
            (
                "libx264"@,
                Some(
                    "Warning: encoder '"@ + encoder_for(codec) + "' for input codec '"@ + codec
                        + "' is not available, falling back to libx264"@,
                ),
            ),
        ),
        !names.contains(encoder_for(codec)) && !names.contains("libx264"@) && names.contains(
            "libx265"@,
        ) ==> choice(None, names, codec) == Ok::<(Seq<char>, Option<Seq<char>>), Seq<char>>(
            (
                "libx265"@,
                Some(
                    "Warning: encoder '"@ + encoder_for(codec) + "' for input codec '"@ + codec
                        + "' is not available, falling back to libx265"@,
                ),
            ),
        ),
        !names.contains(encoder_for(codec)) && !names.contains("libx264"@) && !names.contains(
            "libx265"@,
        ) ==> choice(None, names, codec) == Err::<(Seq<char>, Option<Seq<char>>), Seq<char>>(
            "No suitable encoder found for input codec '"@ + codec
                + "'. Available H.264/H.265 encoders: "@ + join(h26x(names), ", "@),
        ),
{
    reveal_strlit("' is not available, falling back to libx264");
    reveal_strlit("' is not available, falling back to libx265");
    reveal_strlit("' is not available, falling back to ");
    reveal_strlit("libx264");
    reveal_strlit("libx265");
    assert("' is not available, falling back to "@ + "libx264"@
        =~= "' is not available, falling back to libx264"@);
    assert("' is not available, falling back to "@ + "libx265"@
        =~= "' is not available, falling back to libx265"@);
    let head = "Warning: encoder '"@ + encoder_for(codec) + "' for input codec '"@ + codec;
    assert(head + "' is not available, falling back to "@ + "libx264"@ =~= head
        + "' is not available, falling back to libx264"@);
    assert(head + "' is not available, falling back to "@ + "libx265"@ =~= head
        + "' is not available, falling back to libx265"@);
}

/// A request that cannot be met is refused with the name that was asked for
/// and the names that could be.
pub proof fn refusal_names_the_request(
    name: Seq<char>,
    names: Seq<Seq<char>>,
    codec: Seq<char>,
)
    requires
        !names.contains(name),
    ensures
        choice(Some(name), names, codec) == Err::<(Seq<char>, Option<Seq<char>>), Seq<char>>(
            "Requested encoder '"@ + name
                + "' is not available. Available H.264/H.265 encoders: "@ + join(
                h26x(names),
                ", "@,
            ),
        ),
{
}

/// An encoder is one for H.264 or H.265 if `264`, `265` or `hevc` stands
/// anywhere in its name. One more name comes last in the list, if it is one.
pub proof fn h26x_names_are_kept_in_order(
    names: Seq<Seq<char>>,
    name: Seq<char>,
    a: Seq<char>,
    b: Seq<char>,
)
    ensures
        h26x(Seq::empty()) == Seq::<Seq<char>>::empty(),
        contains(name, "264"@) || contains(name, "265"@) || contains(name, "hevc"@) <==> h26x(
            names.push(name),
        ) == h26x(names).push(name),
        !contains(name, "264"@) && !contains(name, "265"@) && !contains(name, "hevc"@) ==> h26x(
            names.push(name),
        ) == h26x(names),
        h26x(names.push(a + "264"@ + b)) == h26x(names).push(a + "264"@ + b),
        h26x(names.push(a + "265"@ + b)) == h26x(names).push(a + "265"@ + b),
        h26x(names.push(a + "hevc"@ + b)) == h26x(names).push(a + "hevc"@ + b),
{
    parts_are_contained(a, "265"@, b);
    parts_are_contained(a, "hevc"@, b);
    parts_are_contained(a, "264"@, b);
    reveal(Seq::filter);
    assert(h26x(Seq::empty()) =~= Seq::<Seq<char>>::empty());
    assert(names.push(name).drop_last() =~= names);
    assert(names.push(a + "264"@ + b).drop_last() =~= names);
    assert(names.push(a + "265"@ + b).drop_last() =~= names);
    assert(names.push(a + "hevc"@ + b).drop_last() =~= names);
    assert(h26x(names).push(name).len() != h26x(names).len());
}

/// The version is the third word of what ffmpeg prints, whatever white space
/// stands between the words and whatever follows; with fewer words it is not
/// known.
pub proof fn version_is_the_third_word(
    first: Seq<char>,
    second: Seq<char>,
    third: Seq<char>,
    rest: Seq<char>,
)
    requires
        spaceless(first),
        spaceless(second),
        spaceless(third),
    ensures
        version(first + " "@ + second + " "@ + third + " "@ + rest) == third,
        version(first + " "@ + second + " "@ + third) == third,
        version(first + " "@ + second) == "unknown"@,
        version(first) == "unknown"@,
        version(Seq::empty()) == "unknown"@,
{
    reveal_strlit(" ");
    white_space_parts_words(first, ' ', second);
    white_space_parts_words(second, ' ', Seq::empty());
    white_space_parts_words(third, ' ', rest);
    let two = first + " "@ + second;
    assert(first.push(' ') + second =~= two);
    assert(words(two) =~= seq![first, second]);
    white_space_parts_words(two, ' ', third);
    assert(two.push(' ') + third =~= two + " "@ + third);
    let three = two + " "@ + third;
    assert(words(three) =~= seq![first, second, third]);
    white_space_parts_words(three, ' ', rest);
    assert(three.push(' ') + rest =~= three + " "@ + rest);
    assert(words(three + " "@ + rest)[2] == third);
}

/// A word: at least one character, and no white space.
pub open spec fn spaceless(w: Seq<char>) -> bool {
    w.len() > 0 && forall|i: int| 0 <= i < w.len() ==> !is_space(#[trigger] w[i])
}

/// A line that begins with a blank and a `V` lists its second word, whatever
/// the other marks are and whatever follows. Any other line lists nothing.
pub proof fn video_encoders_are_listed(
    marks: Seq<char>,
    name: Seq<char>,
    rest: Seq<char>,
    line: Seq<char>,
)
    requires
        spaceless("V"@ + marks),
        spaceless(name),
    ensures
        listed(" V"@ + marks + " "@ + name + " "@ + rest) == Some(name),
        listed(" V"@ + marks + " "@ + name) == Some(name),
        line.len() < 2 || line[0] != ' ' || line[1] != 'V' ==> listed(line) is None,
{
    reveal_strlit(" ");
    reveal_strlit("V");
    reveal_strlit(" V");
    let empty = Seq::<char>::empty();
    let first = "V"@ + marks;
    white_space_parts_words(empty, ' ', first);
    white_space_parts_words(first, ' ', name);
    white_space_parts_words(name, ' ', rest);
    let head = " V"@ + marks;
    assert(empty.push(' ') + first =~= head);
    assert(words(head) =~= seq![first]);
    white_space_parts_words(head, ' ', name);
    let short = " V"@ + marks + " "@ + name;
    assert(head.push(' ') + name =~= short);
    assert(words(short) =~= seq![first, name]);
    white_space_parts_words(short, ' ', rest);
    let long = short + " "@ + rest;
    assert(short.push(' ') + rest =~= long);
    assert(words(long)[1] == name);
    parts_are_contained(empty, " V"@, marks + " "@ + name);
    parts_are_contained(empty, " V"@, marks + " "@ + name + " "@ + rest);
    assert(short =~= " V"@ + (marks + " "@ + name));
    assert(long =~= " V"@ + (marks + " "@ + name + " "@ + rest));
    if starts_with(line, " V"@) {
        assert(line.subrange(0, 2)[0] == line[0] && line.subrange(0, 2)[1] == line[1]);
    }
}

/// The encoders of two runs of lines are those of the first run and then those
/// of the second.
pub proof fn encoders_are_listed_in_order(a: Seq<Seq<char>>, b: Seq<Seq<char>>, line: Seq<char>)
    ensures
        listed_in(a + b) == listed_in(a) + listed_in(b),
        listed(line) matches Some(name) ==> listed_in(seq![line]) == seq![name],
        listed(line) is None ==> listed_in(seq![line]) == Seq::<Seq<char>>::empty(),
    decreases b.len(),
{
    assert(seq![line].drop_last() =~= Seq::<Seq<char>>::empty());
    assert(listed_in(Seq::<Seq<char>>::empty()) =~= Seq::<Seq<char>>::empty());
    if listed(line) is Some {
        assert(listed_in(seq![line]) =~= seq![listed(line)->0]);
    }
    if b.len() == 0 {
        assert(a + b =~= a);
        assert(listed_in(a + b) =~= listed_in(a) + listed_in(b));
    } else {
        encoders_are_listed_in_order(a, b.drop_last(), line);
        assert((a + b).drop_last() =~= a + b.drop_last());
        assert(listed_in(a + b) =~= listed_in(a) + listed_in(b));
    }
}

/// The announcement of a bitrate gives whole megabits per second, rounded
/// down, and that of a rate factor gives the factor.
pub proof fn announcement_gives_the_quality(encoder: Seq<char>, b: u64, c: u8)
    ensures
        exists|n: nat|
            {
                &&& n * 1_000_000 <= b < (n + 1) * 1_000_000
                &&& quality_text(encoder, Quality::Bitrate(b)) == "Re-encoding with "@ + encoder
                    + " encoder at "@ + #[trigger] numeral(n) + " Mbit/s bitrate\n"@
            },
        quality_text(encoder, Quality::Crf(c)) == "Re-encoding with "@ + encoder
            + " encoder at CRF "@ + numeral(c as nat) + "\n"@,
{
    let n = b as nat / 1_000_000;
    assert(n * 1_000_000 <= b < (n + 1) * 1_000_000);
    let t = numeral(n);
}

} // verus!
