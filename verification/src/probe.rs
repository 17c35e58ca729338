//! What ffprobe is asked about a video, and what its answers come to.

use vstd::prelude::*;
use vstd::string::*;

use crate::binary64::Binary64;
use crate::bytes::{lossy_text, utf8_lossy};
use crate::decimal::{decimal, numeral};
use crate::error::Error;
use crate::text::{
    cat, contained_texts_are_parts, contains, has, lower, lower_char, opt_str, opt_text, owned_list,
    parts_are_contained, same, same_lower, strings, strs,
};

verus! {

// ---------------------------------------------------------------------------
// Videos
// ---------------------------------------------------------------------------

/// A video: its streams and its container.
#[derive(Debug)]
pub struct VideoSpecs {
    pub streams: Vec<Stream>,
    pub format: Option<Format>,
}

/// A container.
#[derive(Debug)]
pub struct Format {
    pub duration: Option<String>,
}

/// A video stream.
#[derive(Debug)]
pub struct Stream {
    pub codec_name: String,
    pub width: u32,
    pub height: u32,
    pub duration: Option<String>,
    pub pix_fmt: Option<String>,
    pub color_space: Option<String>,
    pub color_primaries: Option<String>,
    pub color_transfer: Option<String>,
    pub color_range: Option<String>,
    pub side_data_list: Vec<SideData>,
}

/// Side data of a stream; of its kinds only a rotation in degrees matters.
#[derive(Debug)]
pub struct SideData {
    pub rotation: Option<Binary64>,
}

impl Default for Stream {
    fn default() -> (r: Stream)
        ensures
            r.codec_name@ == Seq::<char>::empty(),
            r.width == 0,
            r.height == 0,
            r.duration is None,
            r.pix_fmt is None,
            r.color_space is None,
            r.color_primaries is None,
            r.color_transfer is None,
            r.color_range is None,
            r.side_data_list@.len() == 0,
    {
        Stream {
            codec_name: String::new(),
            width: 0,
            height: 0,
            duration: None,
            pix_fmt: None,
            color_space: None,
            color_primaries: None,
            color_transfer: None,
            color_range: None,
            side_data_list: Vec::new(),
        }
    }
}

impl Default for SideData {
    fn default() -> (r: SideData)
        ensures
            r.rotation is None,
    {
        SideData { rotation: None }
    }
}

/// The first rotation in a list of side data.
pub open spec fn first_rotation(list: Seq<SideData>) -> Option<Binary64>
    decreases list.len(),
{
    if list.len() == 0 {
        None
    } else if list[0].rotation is Some {
        list[0].rotation
    } else {
        first_rotation(list.drop_first())
    }
}

/// A rotation as a whole number of degrees from 0 to 359.
pub open spec fn degrees(rotation: Option<Binary64>) -> int {
    match rotation {
        Some(r) => r.to_integer(i32::MIN as int, i32::MAX as int) % 360,
        None => 0,
    }
}

/// A pixel format of 10 bits.
pub open spec fn deep(pix_fmt: Option<Seq<char>>) -> bool {
    match pix_fmt {
        Some(p) => contains(p, "10"@),
        None => false,
    }
}

impl Stream {
    /// The duration in seconds, if its text reads as `read`; 0 where there is
    /// no text, or none that is a number.
    pub open spec fn seconds(&self, read: Option<Binary64>) -> Binary64 {
        match (self.duration, read) {
            (Some(_), Some(d)) => d,
            _ => Binary64 { bits: 0 },
        }
    }

    /// The duration in seconds, if its text reads as `read`.
    pub fn duration_secs(&self, read: Option<Binary64>) -> (r: Binary64)
        ensures
            r == self.seconds(read),
    {
        match (&self.duration, read) {
            (Some(_), Some(d)) => d,
            _ => Binary64 { bits: 0 },
        }
    }

    /// How far the picture is turned, in degrees.
    pub open spec fn rotation(&self) -> int {
        degrees(first_rotation(self.side_data_list@))
    }

    /// How far the picture is turned, in degrees.
    pub fn rotation_degrees(&self) -> (r: u32)
        ensures
            r == self.rotation(),
            r < 360,
    {
        let ghost list = self.side_data_list@;
        let mut i: usize = 0;
        assert(list.skip(0) =~= list);
        while i < self.side_data_list.len()
            invariant
                list == self.side_data_list@,
                i <= list.len(),
                first_rotation(list) == first_rotation(list.skip(i as int)),
            decreases list.len() - i,
        {
            assert(list.skip(i as int).drop_first() =~= list.skip(i + 1));
            if let Some(rotation) = self.side_data_list[i].rotation {
                let turned: i64 = rotation.to_i32() as i64;
                if turned >= 0 {
                    return (turned % 360) as u32;
                }
                let back: i64 = (-turned) % 360;
                return if back == 0 {
                    0
                } else {
                    (360 - back) as u32
                };
            }
            i += 1;
        }
        0
    }

    /// The pixel format has 10 bits.
    pub open spec fn is_deep(&self) -> bool {
        deep(opt_text(self.pix_fmt))
    }

    /// Whether the pixel format has 10 bits.
    pub fn is_10bit(&self) -> (r: bool)
        ensures
            r == self.is_deep(),
    {
        match &self.pix_fmt {
            Some(p) => has(p.as_str(), "10"),
            None => false,
        }
    }
}

// ---------------------------------------------------------------------------
// Runs of ffprobe
// ---------------------------------------------------------------------------

/// How a run of ffprobe ended.
pub enum ProbeRun<T> {
    /// It failed, and left these bytes on its error output.
    Failed(Vec<u8>),
    /// It succeeded, and its output holds this.
    Done(T),
}

/// Why a run of ffprobe that failed is of no use.
pub open spec fn probe_failure_text(stderr: Seq<char>) -> Seq<char> {
    "ffprobe failed:\n"@ + stderr
}

/// Why a run of ffprobe that failed is of no use.
pub fn probe_failure(stderr: &str) -> (r: Error)
    ensures
        r@ == probe_failure_text(stderr@),
{
    Error::new(cat("ffprobe failed:\n", stderr))
}

/// The arguments of ffprobe that ask for the first video stream of `file`.
pub open spec fn video_query(file: Seq<char>) -> Seq<Seq<char>> {
    seq![
        "-i"@,
        file,
        "-v"@,
        "error"@,
        "-select_streams"@,
        "v:0"@,
        "-show_entries"@,
        "stream=codec_name,width,height,duration,pix_fmt,color_space,color_primaries,color_transfer,color_range"@,
        "-show_entries"@,
        "stream_side_data=rotation"@,
        "-show_entries"@,
        "format=duration"@,
        "-print_format"@,
        "json"@,
    ]
}

/// The arguments of ffprobe that ask for the first video stream of `file`.
pub fn probe_video_args(file: &str) -> (r: Vec<String>)
    ensures
        strings(r@) == video_query(file@),
{
    let list: Vec<&str> =
        vec![
        "-i",
        file,
        "-v",
        "error",
        "-select_streams",
        "v:0",
        "-show_entries",
        "stream=codec_name,width,height,duration,pix_fmt,color_space,color_primaries,color_transfer,color_range",
        "-show_entries",
        "stream_side_data=rotation",
        "-show_entries",
        "format=duration",
        "-print_format",
        "json",
    ];
    assert(strs(list@) =~= video_query(file@));
    owned_list(list)
}

/// The arguments of ffprobe that ask for the streams of `file` that `selector`
/// selects.
pub open spec fn stream_query(file: Seq<char>, selector: Seq<char>) -> Seq<Seq<char>> {
    seq![
        "-i"@,
        file,
        "-v"@,
        "error"@,
        "-select_streams"@,
        selector,
        "-show_entries"@,
        "stream=index,codec_name"@,
        "-print_format"@,
        "json"@,
    ]
}

/// The arguments of ffprobe that ask for the streams of `file` that `selector`
/// selects.
pub fn probe_streams_args(file: &str, selector: &str) -> (r: Vec<String>)
    ensures
        strings(r@) == stream_query(file@, selector@),
{
    let list: Vec<&str> =
        vec![
        "-i",
        file,
        "-v",
        "error",
        "-select_streams",
        selector,
        "-show_entries",
        "stream=index,codec_name",
        "-print_format",
        "json",
    ];
    assert(strs(list@) =~= stream_query(file@, selector@));
    owned_list(list)
}

// ---------------------------------------------------------------------------
// The video to work on
// ---------------------------------------------------------------------------

/// The picture lies on its side.
pub open spec fn sideways(rotation: int) -> bool {
    rotation == 90 || rotation == 270
}

/// A stream as it is displayed: with the duration of the container where it has
/// none of its own, and with width and height exchanged where it lies on its
/// side.
pub open spec fn displayed(s: Stream, format: Option<Format>) -> Stream {
    Stream {
        duration: if format is Some && s.duration is None {
            format->0.duration
        } else {
            s.duration
        },
        width: if sideways(s.rotation()) {
            s.height
        } else {
            s.width
        },
        height: if sideways(s.rotation()) {
            s.width
        } else {
            s.height
        },
        ..s
    }
}

/// What is said of a video that lies on its side.
pub open spec fn rotation_text(rotation: int, width: u32, height: u32) -> Seq<char> {
    "Input has "@ + numeral(rotation as nat) + "° rotation metadata; using display dimensions "@
        + numeral(width as nat) + "x"@ + numeral(height as nat)
}

/// A video with what is to be said of it.
#[derive(Debug)]
pub struct ProbedVideo {
    pub specs: VideoSpecs,
    pub note: Option<String>,
}

/// The video that a run of ffprobe describes, as it is displayed.
pub fn probe_video(run: ProbeRun<VideoSpecs>) -> (r: Result<ProbedVideo, Error>)
    ensures
        match run {
            ProbeRun::Failed(stderr) => r is Err && r->Err_0@ == probe_failure_text(
                utf8_lossy(stderr@),
            ),
            ProbeRun::Done(specs) => if specs.streams@.len() == 0 {
                r is Err && r->Err_0@ == "No video streams found in input file"@
            } else {
                let old_stream = specs.streams@[0];
                let new_stream = displayed(old_stream, specs.format);
                &&& r is Ok
                &&& r->Ok_0.specs.format == specs.format
                &&& r->Ok_0.specs.streams@ == specs.streams@.update(0, new_stream)
                &&& opt_text(r->Ok_0.note) == if sideways(old_stream.rotation()) {
                    Some(
                        rotation_text(
                            old_stream.rotation(),
                            new_stream.width,
                            new_stream.height,
                        ),
                    )
                } else {
                    None
                }
            },
        },
{
    match run {
        ProbeRun::Failed(stderr) => Err(
            probe_failure(lossy_text(stderr.as_slice()).as_str()),
        ),
        ProbeRun::Done(specs) => display_specs(specs),
    }
}

/// A video as it is displayed.
fn display_specs(specs: VideoSpecs) -> (r: Result<ProbedVideo, Error>)
    ensures
        if specs.streams@.len() == 0 {
            r is Err && r->Err_0@ == "No video streams found in input file"@
        } else {
            let old_stream = specs.streams@[0];
            let new_stream = displayed(old_stream, specs.format);
            &&& r is Ok
            &&& r->Ok_0.specs.format == specs.format
            &&& r->Ok_0.specs.streams@ == specs.streams@.update(0, new_stream)
            &&& opt_text(r->Ok_0.note) == if sideways(old_stream.rotation()) {
                Some(rotation_text(old_stream.rotation(), new_stream.width, new_stream.height))
            } else {
                None
            }
        },
{
    let VideoSpecs { mut streams, format } = specs;
    if streams.len() == 0 {
        return Err(Error::of("No video streams found in input file"));
    }
    let ghost all = streams@;
    let mut stream: Stream = streams.remove(0);
    if stream.duration.is_none() {
        if let Some(f) = &format {
            stream.duration = match &f.duration {
                Some(d) => Some(d.clone()),
                None => None,
            };
        }
    }
    let rotation: u32 = stream.rotation_degrees();
    let mut note: Option<String> = None;
    if rotation == 90 || rotation == 270 {
        let width: u32 = stream.width;
        stream.width = stream.height;
        stream.height = width;
        let mut m: String = cat("Input has ", decimal(rotation as u64).as_str());
        m.append("° rotation metadata; using display dimensions ");
        m.append(decimal(stream.width as u64).as_str());
        m.append("x");
        m.append(decimal(stream.height as u64).as_str());
        note = Some(m);
    }
    streams.insert(0, stream);
    assert(streams@ =~= all.update(0, displayed(all[0], format)));
    Ok(ProbedVideo { specs: VideoSpecs { streams, format }, note })
}

/// A quarter turn exchanges width and height, and no other turn does. Neither
/// loses a pixel.
pub proof fn display_keeps_or_exchanges_dimensions(s: Stream, format: Option<Format>)
    ensures
        s.rotation() % 180 != 90 ==> displayed(s, format).width == s.width && displayed(
            s,
            format,
        ).height == s.height,
        s.rotation() % 180 == 90 ==> displayed(s, format).width == s.height && displayed(
            s,
            format,
        ).height == s.width,
        displayed(s, format).width * displayed(s, format).height == s.width * s.height,
        displayed(s, format).side_data_list == s.side_data_list,
        displayed(s, format).codec_name == s.codec_name,
{
    assert(0 <= s.rotation() < 360);
    assert(s.width * s.height == s.height * s.width) by (nonlinear_arith);
}

/// A rotation counts by what is left of it after full turns.
pub proof fn full_turns_do_not_count(a: Binary64, b: Binary64, turns: int)
    requires
        b.to_integer(i32::MIN as int, i32::MAX as int) == a.to_integer(
            i32::MIN as int,
            i32::MAX as int,
        ) + 360 * turns,
    ensures
        degrees(Some(a)) == degrees(Some(b)),
        0 <= degrees(Some(a)) < 360,
{
    let i = a.to_integer(i32::MIN as int, i32::MAX as int);
    vstd::arithmetic::div_mod::lemma_mod_multiples_vanish(turns, i, 360);
}

// ---------------------------------------------------------------------------
// Data and audio streams
// ---------------------------------------------------------------------------

/// A stream of any kind.
#[derive(Debug)]
pub struct ProbedStream {
    pub index: u32,
    pub codec_name: Option<String>,
}

/// What becomes of an audio stream: it is copied, or encoded anew.
#[derive(Debug, PartialEq)]
pub struct AudioStream {
    pub index: u32,
    pub codec_name: String,
    pub copy: bool,
}

/// A data stream that the output can hold: telemetry of a GoPro camera.
pub open spec fn is_copyable(s: ProbedStream) -> bool {
    opt_text(s.codec_name) == Some("gpmd"@)
}

/// The indices of the data streams that the output can hold, in order.
pub open spec fn copyable(streams: Seq<ProbedStream>) -> Seq<u32> {
    streams.filter(|s: ProbedStream| is_copyable(s)).map_values(|s: ProbedStream| s.index)
}

/// The indices of the data streams that the output can hold.
pub fn filter_copyable(streams: Vec<ProbedStream>) -> (r: Vec<u32>)
    ensures
        r@ == copyable(streams@),
{
    let mut r: Vec<u32> = Vec::new();
    let mut i: usize = 0;
    let ghost all = streams@;
    proof {
        reveal(Seq::filter);
        assert(all.take(0) =~= Seq::<ProbedStream>::empty());
        assert(r@ =~= copyable(all.take(0)));
    }
    while i < streams.len()
        invariant
            i <= streams@.len(),
            all == streams@,
            r@ == copyable(all.take(i as int)),
        decreases streams@.len() - i,
    {
        proof {
            reveal(Seq::filter);
            assert(all.take(i + 1).drop_last() =~= all.take(i as int));
            assert(all.take(i + 1).last() == all[i as int]);
        }
        let ghost before = r@;
        let known: bool = match &streams[i].codec_name {
            Some(c) => same(c.as_str(), "gpmd"),
            None => false,
        };
        if known {
            r.push(streams[i].index);
        }
        proof {
            assert(known == is_copyable(all[i as int]));
            assert(r@ =~= copyable(all.take(i + 1)));
        }
        i += 1;
    }
    assert(all.take(i as int) =~= all);
    r
}

/// The data streams to copy, from a run of ffprobe on the data streams.
pub fn copyable_data_streams(run: ProbeRun<Vec<ProbedStream>>) -> (r: Result<Vec<u32>, Error>)
    ensures
        match run {
            ProbeRun::Failed(stderr) => r is Err && r->Err_0@ == probe_failure_text(
                utf8_lossy(stderr@),
            ),
            ProbeRun::Done(streams) => r is Ok && r->Ok_0@ == copyable(streams@),
        },
{
    match run {
        ProbeRun::Failed(stderr) => Err(
            probe_failure(lossy_text(stderr.as_slice()).as_str()),
        ),
        ProbeRun::Done(streams) => Ok(filter_copyable(streams)),
    }
}

/// A file name extension of the MP4 family.
pub open spec fn is_mp4(extension: Option<Seq<char>>) -> bool {
    match extension {
        Some(e) => lower(e) == "mp4"@ || lower(e) == "m4v"@ || lower(e) == "mov"@,
        None => false,
    }
}

/// Whether a file name extension is of the MP4 family.
pub fn mp4_extension(extension: Option<&str>) -> (r: bool)
    ensures
        r == is_mp4(opt_str(extension)),
{
    match extension {
        Some(e) => same_lower(e, "mp4") || same_lower(e, "m4v") || same_lower(e, "mov"),
        None => false,
    }
}

/// An audio codec that an MP4 file can hold.
pub open spec fn mp4_holds(codec: Seq<char>) -> bool {
    ||| codec == "aac"@
    ||| codec == "mp3"@
    ||| codec == "mp2"@
    ||| codec == "ac3"@
    ||| codec == "eac3"@
    ||| codec == "alac"@
}

/// The name of a codec, where it has one.
pub open spec fn codec_or_unknown(codec: Option<Seq<char>>) -> Seq<char> {
    match codec {
        Some(c) => c,
        None => "unknown"@,
    }
}

/// What becomes of one audio stream.
pub open spec fn planned(s: ProbedStream, mp4_output: bool, a: AudioStream) -> bool {
    &&& a.index == s.index
    &&& a.codec_name@ == codec_or_unknown(opt_text(s.codec_name))
    &&& a.copy == (!mp4_output || mp4_holds(a.codec_name@))
}

/// What becomes of the audio streams, one by one.
pub open spec fn audio_plan(
    streams: Seq<ProbedStream>,
    mp4_output: bool,
    plan: Seq<AudioStream>,
) -> bool {
    &&& plan.len() == streams.len()
    &&& forall|i: int|
        0 <= i < streams.len() ==> planned(#[trigger] streams[i], mp4_output, plan[i])
}

/// What becomes of the audio streams: an MP4 file gets copies of the codecs
/// that it can hold, any other file gets copies of all.
pub fn plan_audio(streams: Vec<ProbedStream>, mp4_output: bool) -> (r: Vec<AudioStream>)
    ensures
        audio_plan(streams@, mp4_output, r@),
{
    let mut r: Vec<AudioStream> = Vec::new();
    let mut i: usize = 0;
    while i < streams.len()
        invariant
            i <= streams@.len(),
            r@.len() == i,
            forall|j: int| 0 <= j < i ==> planned(#[trigger] streams@[j], mp4_output, r@[j]),
        decreases streams@.len() - i,
    {
        let codec_name: String = match &streams[i].codec_name {
            Some(c) => c.clone(),
            None => "unknown".to_owned(),
        };
        let c: &str = codec_name.as_str();
        let copy: bool = !mp4_output || same(c, "aac") || same(c, "mp3") || same(c, "mp2") || same(
            c,
            "ac3",
        ) || same(c, "eac3") || same(c, "alac");
        r.push(AudioStream { index: streams[i].index, codec_name, copy });
        i += 1;
    }
    r
}

/// The plan for the audio streams, from a run of ffprobe on the audio streams
/// and the extension of the output file.
pub fn audio_streams(run: ProbeRun<Vec<ProbedStream>>, extension: Option<&str>) -> (r: Result<
    Vec<AudioStream>,
    Error,
>)
    ensures
        match run {
            ProbeRun::Failed(stderr) => r is Err && r->Err_0@ == probe_failure_text(
                utf8_lossy(stderr@),
            ),
            ProbeRun::Done(streams) => r is Ok && audio_plan(
                streams@,
                is_mp4(opt_str(extension)),
                r->Ok_0@,
            ),
        },
{
    match run {
        ProbeRun::Failed(stderr) => Err(
            probe_failure(lossy_text(stderr.as_slice()).as_str()),
        ),
        ProbeRun::Done(streams) => Ok(plan_audio(streams, mp4_extension(extension))),
    }
}

/// The warning that an audio stream is encoded anew.
pub open spec fn audio_warning_text(codec: Seq<char>, index: u32) -> Seq<char> {
    "Warning: audio codec '"@ + codec + "' (stream #"@ + numeral(index as nat)
        + ") is not supported by the mp4 muxer, re-encoding to AAC"@
}

/// The warning that goes with an audio stream, if it is not copied.
pub fn audio_warning(a: &AudioStream) -> (r: Option<String>)
    ensures
        opt_text(r) == if a.copy {
            None
        } else {
            Some(audio_warning_text(a.codec_name@, a.index))
        },
{
    if a.copy {
        return None;
    }
    let mut m: String = cat("Warning: audio codec '", a.codec_name.as_str());
    m.append("' (stream #");
    m.append(decimal(a.index as u64).as_str());
    m.append(") is not supported by the mp4 muxer, re-encoding to AAC");
    Some(m)
}

/// Every audio stream is kept, in its place, and only an MP4 file has any of
/// them encoded anew.
pub proof fn no_audio_is_lost(
    streams: Seq<ProbedStream>,
    mp4_output: bool,
    plan: Seq<AudioStream>,
)
    requires
        audio_plan(streams, mp4_output, plan),
    ensures
        plan.len() == streams.len(),
        forall|i: int| 0 <= i < plan.len() ==> (#[trigger] plan[i]).index == streams[i].index,
        !mp4_output ==> forall|i: int| 0 <= i < plan.len() ==> (#[trigger] plan[i]).copy,
        mp4_output ==> forall|i: int|
            0 <= i < plan.len() ==> ((#[trigger] plan[i]).copy <==> mp4_holds(
                plan[i].codec_name@,
            )),
{
    assert forall|i: int| 0 <= i < plan.len() implies planned(
        streams[i],
        mp4_output,
        #[trigger] plan[i],
    ) by {
        let s = streams[i];
    }
}

/// A stream has 10 bits if `10` stands anywhere in the name of its pixel
/// format, whatever is before and after it.
pub proof fn ten_anywhere_is_deep(s: Stream, a: Seq<char>, b: Seq<char>)
    requires
        opt_text(s.pix_fmt) == Some(a + seq!['1', '0'] + b),
    ensures
        s.is_deep(),
{
    reveal_strlit("10");
    assert("10"@ =~= seq!['1', '0']);
    parts_are_contained(a, "10"@, b);
}

/// A stream of 10 bits has a pixel format in whose name a `1` stands right
/// before a `0`.
pub proof fn deep_formats_hold_ten(s: Stream)
    requires
        s.is_deep(),
    ensures
        s.pix_fmt is Some,
        exists|i: int|
            0 <= i < s.pix_fmt->0@.len() - 1 && #[trigger] s.pix_fmt->0@[i] == '1'
                && s.pix_fmt->0@[i + 1] == '0',
{
    reveal_strlit("10");
    let p = s.pix_fmt->0@;
    contained_texts_are_parts(p, "10"@);
    let (a, b) = choose|a: Seq<char>, b: Seq<char>| p == #[trigger] (a + "10"@ + b);
    let i = a.len() as int;
    assert(p[i] == '1' && p[i + 1] == '0');
}

/// An output of the MP4 family gets copies of AAC, MP3, MP2, AC-3, E-AC-3 and
/// ALAC and of nothing else; any other output gets copies only. A stream
/// whose codec has no name goes by the name `unknown`.
pub proof fn audio_is_copied_where_the_output_holds_it(
    streams: Seq<ProbedStream>,
    mp4_output: bool,
    plan: Seq<AudioStream>,
    i: int,
)
    requires
        audio_plan(streams, mp4_output, plan),
        0 <= i < streams.len(),
    ensures
        plan.len() == streams.len(),
        plan[i].index == streams[i].index,
        streams[i].codec_name is Some ==> plan[i].codec_name@ == streams[i].codec_name->0@,
        streams[i].codec_name is None ==> plan[i].codec_name@ == "unknown"@,
        plan[i].copy <==> !mp4_output || seq![
            "aac"@,
            "mp3"@,
            "mp2"@,
            "ac3"@,
            "eac3"@,
            "alac"@,
        ].contains(plan[i].codec_name@),
{
    let s = streams[i];
    assert(planned(s, mp4_output, plan[i]));
    let six = seq!["aac"@, "mp3"@, "mp2"@, "ac3"@, "eac3"@, "alac"@];
    assert(six[0] == "aac"@ && six[1] == "mp3"@ && six[2] == "mp2"@ && six[3] == "ac3"@ && six[4]
        == "eac3"@ && six[5] == "alac"@);
}

/// An audio stream without a named codec is encoded anew for an output of the
/// MP4 family.
pub proof fn unnamed_audio_is_encoded_for_mp4(
    streams: Seq<ProbedStream>,
    plan: Seq<AudioStream>,
    i: int,
)
    requires
        audio_plan(streams, true, plan),
        0 <= i < streams.len(),
        streams[i].codec_name is None,
    ensures
        !plan[i].copy,
{
    let s = streams[i];
    assert(planned(s, true, plan[i]));
    reveal_strlit("unknown");
    reveal_strlit("aac");
    reveal_strlit("mp3");
    reveal_strlit("mp2");
    reveal_strlit("ac3");
    reveal_strlit("eac3");
    reveal_strlit("alac");
    assert("unknown"@.len() == 7);
    assert("eac3"@.len() == 4 && "alac"@.len() == 4);
}

/// The extensions of the MP4 family are `mp4`, `m4v` and `mov`, each letter in
/// either case. A file without an extension is of another kind.
pub proof fn mp4_extensions(e: Seq<char>)
    ensures
        is_mp4(Some(e)) <==> e.len() == 3 && (e[0] == 'm' || e[0] == 'M') && {
            ||| (e[1] == 'p' || e[1] == 'P') && e[2] == '4'
            ||| e[1] == '4' && (e[2] == 'v' || e[2] == 'V')
            ||| (e[1] == 'o' || e[1] == 'O') && (e[2] == 'v' || e[2] == 'V')
        },
        !is_mp4(None),
{
    reveal_strlit("mp4");
    reveal_strlit("m4v");
    reveal_strlit("mov");
    if e.len() == 3 {
        let l = lower(e);
        assert(l[0] == lower_char(e[0]) && l[1] == lower_char(e[1]) && l[2] == lower_char(e[2]));
        assert(lower_char(e[0]) == 'm' <==> (e[0] == 'm' || e[0] == 'M'));
        assert(lower_char(e[1]) == 'p' <==> (e[1] == 'p' || e[1] == 'P'));
        assert(lower_char(e[1]) == 'o' <==> (e[1] == 'o' || e[1] == 'O'));
        assert(lower_char(e[1]) == '4' <==> e[1] == '4');
        assert(lower_char(e[2]) == '4' <==> e[2] == '4');
        assert(lower_char(e[2]) == 'v' <==> (e[2] == 'v' || e[2] == 'V'));
        assert(l == "mp4"@ <==> l[0] == 'm' && l[1] == 'p' && l[2] == '4') by {
            if l[0] == 'm' && l[1] == 'p' && l[2] == '4' {
                assert(l =~= "mp4"@);
            }
        }
        assert(l == "m4v"@ <==> l[0] == 'm' && l[1] == '4' && l[2] == 'v') by {
            if l[0] == 'm' && l[1] == '4' && l[2] == 'v' {
                assert(l =~= "m4v"@);
            }
        }
        assert(l == "mov"@ <==> l[0] == 'm' && l[1] == 'o' && l[2] == 'v') by {
            if l[0] == 'm' && l[1] == 'o' && l[2] == 'v' {
                assert(l =~= "mov"@);
            }
        }
    } else {
        assert(lower(e).len() == e.len());
        assert("mp4"@.len() == 3 && "m4v"@.len() == 3 && "mov"@.len() == 3);
    }
}

/// One more data stream adds its index at the end, if its codec has the name
/// `gpmd`, and adds nothing otherwise. Without streams there is no index.
pub proof fn telemetry_is_copied_in_order(streams: Seq<ProbedStream>, s: ProbedStream)
    ensures
        copyable(Seq::empty()) == Seq::<u32>::empty(),
        s.codec_name is Some && s.codec_name->0@ == seq!['g', 'p', 'm', 'd'] ==> copyable(
            streams.push(s),
        ) == copyable(streams).push(s.index),
        s.codec_name is None || s.codec_name->0@ != seq!['g', 'p', 'm', 'd'] ==> copyable(
            streams.push(s),
        ) == copyable(streams),
{
    reveal(Seq::filter);
    reveal_strlit("gpmd");
    assert("gpmd"@ =~= seq!['g', 'p', 'm', 'd']);
    assert(copyable(Seq::empty()) =~= Seq::<u32>::empty());
    assert(streams.push(s).drop_last() =~= streams);
    if is_copyable(s) {
        assert(copyable(streams.push(s)) =~= copyable(streams).push(s.index));
    }
}

/// The first rotation in the side data counts, and those after it do not.
/// Without one the picture is upright.
pub proof fn first_rotation_counts(s: Stream, i: int, r: Binary64)
    ensures
        (forall|j: int| 0 <= j < s.side_data_list@.len() ==> (#[trigger]
        s.side_data_list@[j]).rotation is None) ==> s.rotation() == 0,
        0 <= i < s.side_data_list@.len() && s.side_data_list@[i].rotation == Some(r) && (forall|
            j: int,
        |
            0 <= j < i ==> (#[trigger] s.side_data_list@[j]).rotation is None) ==> {
            &&& 0 <= s.rotation() < 360
            &&& (r.to_integer(i32::MIN as int, i32::MAX as int) - s.rotation()) % 360 == 0
        },
{
    rotation_is_found(s.side_data_list@, i);
}

proof fn rotation_is_found(list: Seq<SideData>, i: int)
    ensures
        (forall|j: int| 0 <= j < list.len() ==> (#[trigger] list[j]).rotation is None)
            ==> first_rotation(list) is None,
        0 <= i < list.len() && list[i].rotation is Some && (forall|j: int|
            0 <= j < i ==> (#[trigger] list[j]).rotation is None) ==> first_rotation(list)
            == list[i].rotation,
    decreases list.len(),
{
    if list.len() > 0 {
        let rest = list.drop_first();
        rotation_is_found(rest, i - 1);
        assert forall|j: int| 0 <= j < rest.len() implies #[trigger] rest[j] == list[j + 1] by {}
        if forall|j: int| 0 <= j < list.len() ==> (#[trigger] list[j]).rotation is None {
            assert(list[0].rotation is None);
        }
        if 0 <= i < list.len() && list[i].rotation is Some && (forall|j: int|
            0 <= j < i ==> (#[trigger] list[j]).rotation is None) {
            if i > 0 {
                assert(list[0].rotation is None);
                assert(rest[i - 1] == list[i]);
            }
        }
    }
}

/// A stream keeps its own duration, and gets that of the container where it
/// has none. Nothing else of it changes but width and height.
pub proof fn container_lends_its_duration(s: Stream, format: Option<Format>)
    ensures
        s.duration is Some ==> displayed(s, format).duration == s.duration,
        s.duration is None && format is Some ==> displayed(s, format).duration
            == format->0.duration,
        s.duration is None && format is None ==> displayed(s, format).duration is None,
        displayed(s, format).pix_fmt == s.pix_fmt,
        displayed(s, format).color_space == s.color_space,
        displayed(s, format).color_primaries == s.color_primaries,
        displayed(s, format).color_transfer == s.color_transfer,
        displayed(s, format).color_range == s.color_range,
{
}

/// A picture lies on its side after a turn by 90 or 270 degrees to either
/// side, and after no other.
pub proof fn quarter_turns_lie_sideways(r: Binary64)
    ensures
        sideways(degrees(Some(r))) <==> r.to_integer(i32::MIN as int, i32::MAX as int) % 180 == 90,
        !sideways(degrees(None)),
{
}

/// ffprobe is asked about the file itself: about its first video stream, with
/// all that is used of it, or about the streams that are selected, with index
/// and codec.
pub proof fn ffprobe_is_asked_for_what_is_used(file: Seq<char>, selector: Seq<char>)
    ensures
        ({
            let v = video_query(file);
            let s = stream_query(file, selector);
            &&& v.len() == 14
            &&& v[0] == "-i"@ && v[1] == file
            &&& v[2] == "-v"@ && v[3] == "error"@
            &&& v[4] == "-select_streams"@ && v[5] == "v:0"@
            &&& v[6] == "-show_entries"@
            &&& v[7]
                == "stream=codec_name,width,height,duration,pix_fmt,color_space,color_primaries,color_transfer,color_range"@
            &&& v[8] == "-show_entries"@ && v[9] == "stream_side_data=rotation"@
            &&& v[10] == "-show_entries"@ && v[11] == "format=duration"@
            &&& v[12] == "-print_format"@ && v[13] == "json"@
            &&& s.len() == 10
            &&& s[0] == "-i"@ && s[1] == file
            &&& s[2] == "-v"@ && s[3] == "error"@
            &&& s[4] == "-select_streams"@ && s[5] == selector
            &&& s[6] == "-show_entries"@ && s[7] == "stream=index,codec_name"@
            &&& s[8] == "-print_format"@ && s[9] == "json"@
        }),
{
}

/// A duration counts as it reads; without a text, or with one that is no
/// number, it is 0.
pub proof fn missing_durations_are_zero(s: Stream, d: Binary64)
    ensures
        s.duration is Some ==> s.seconds(Some(d)) == d,
        s.seconds(None).bits == 0,
        s.duration is None ==> s.seconds(Some(d)).bits == 0,
{
}

/// A failure of ffprobe is told with all that ffprobe said. A video that lies
/// on its side is told with its turn and with width and height as displayed.
pub proof fn probing_is_told(stderr: Seq<char>, rotation: nat, width: u32, height: u32)
    ensures
        probe_failure_text(stderr) == "ffprobe failed:\n"@ + stderr,
        rotation_text(rotation as int, width, height) == "Input has "@ + numeral(rotation)
            + "° rotation metadata; using display dimensions "@ + numeral(width as nat) + "x"@
            + numeral(height as nat),
{
}

} // verus!
