//! The command that encodes a video.

use vstd::prelude::*;
use vstd::string::*;

use crate::args::{path, texts, ArgList, ArgView};
use crate::crop::CropRect;
use crate::decimal::{decimal, numeral, numeral_writes_its_number};
use crate::encoder::{quality_args, quality_flags, Quality};
use crate::error::Error;
use crate::probe::{AudioStream, Stream};
use crate::text::{
    cat, cat3, contained_texts_are_parts, contains, ends_with, has, is_space,
    only_white_space_is_trimmed, opt_str, opt_text, parts_are_contained, same, strings, trim,
    trimmed,
};
use crate::vaapi::{upload_format, vaapi_upload_format};

verus! {

/// The tables that the picture is remapped with.
pub struct RemapSpec<P> {
    pub x_path: P,
    pub y_path: P,
    pub out_width: u32,
    pub out_height: u32,
    pub supersample: u32,
}

/// All that the encoding of a video depends on. A path is of the caller's own
/// kind `P`.
pub struct EncodeOptions<'a, P> {
    pub input: P,
    pub output: P,
    pub encoder: &'a str,
    pub quality: &'a Quality,
    pub preset: Option<&'a str>,
    pub stream: &'a Stream,
    pub crop: Option<&'a CropRect>,
    pub remap: Option<RemapSpec<P>>,
    pub audio_streams: &'a [AudioStream],
    pub data_streams: &'a [u32],
    pub vaapi_device: Option<P>,
    pub hwaccel_device: Option<P>,
}

// ---------------------------------------------------------------------------
// The filter
// ---------------------------------------------------------------------------

/// The format of the frames that the encoder gets, and for VAAPI the upload to
/// the device.
pub open spec fn final_format(encoder: Seq<char>, is_10bit: bool) -> Seq<char> {
    if contains(encoder, "vaapi"@) {
        upload_format(is_10bit) + ",hwupload"@
    } else if is_10bit {
        "yuv420p10le"@
    } else {
        "yuv420p"@
    }
}

/// The format in which frames are remapped: every pixel has its own color.
pub open spec fn full_format(is_10bit: bool) -> Seq<char> {
    if is_10bit {
        "yuv444p10le"@
    } else {
        "yuv444p"@
    }
}

/// The part of the filter that cuts off black bars.
pub open spec fn crop_part(crop: Option<&CropRect>) -> Seq<char> {
    match crop {
        Some(c) => c.filter() + ","@,
        None => ""@,
    }
}

/// The part of the filter before the remapping: frames are scaled up where the
/// tables are finer than the picture.
pub open spec fn before_remap(crop: Seq<char>, supersample: u32) -> Seq<char> {
    if supersample > 1 {
        crop + "scale=iw*"@ + numeral(supersample as nat) + ":ih*"@ + numeral(supersample as nat)
            + ":flags=bicubic"@
    } else {
        crop + "null"@
    }
}

/// The part of the filter after the remapping: frames are scaled back.
pub open spec fn after_remap(out_width: u32, out_height: u32, supersample: u32) -> Seq<char> {
    if supersample > 1 {
        ",scale="@ + numeral(out_width as nat) + ":"@ + numeral(out_height as nat)
            + ":flags=bicubic"@
    } else {
        ""@
    }
}

/// The filter graph of an encoding.
pub open spec fn filter_graph<P>(o: EncodeOptions<P>) -> Seq<char> {
    let is_10bit = o.stream.is_deep();
    let crop = crop_part(o.crop);
    match o.remap {
        Some(r) => "[0:v]"@ + before_remap(crop, r.supersample)
            + "[pre];[pre][1:v][2:v]remap,format="@ + full_format(is_10bit) + after_remap(
            r.out_width,
            r.out_height,
            r.supersample,
        ) + ",format="@ + final_format(o.encoder@, is_10bit) + "[v]"@,
        None => "[0:v]"@ + crop + "format="@ + final_format(o.encoder@, is_10bit) + "[v]"@,
    }
}

/// The filter graph of an encoding.
pub fn build_filter<P>(o: &EncodeOptions<P>) -> (r: String)
    ensures
        r@ == filter_graph(*o),
{
    let is_10bit: bool = o.stream.is_10bit();
    let full: &str = if is_10bit {
        "yuv444p10le"
    } else {
        "yuv444p"
    };
    let sub: String = if has(o.encoder, "vaapi") {
        cat(vaapi_upload_format(is_10bit), ",hwupload")
    } else if is_10bit {
        "yuv420p10le".to_owned()
    } else {
        "yuv420p".to_owned()
    };
    let crop: String = match o.crop {
        Some(c) => cat(c.as_filter().as_str(), ","),
        None => "".to_owned(),
    };
    match &o.remap {
        Some(remap) => {
            let mut pre: String = crop;
            let mut post: String = "".to_owned();
            if remap.supersample > 1 {
                let ss: String = decimal(remap.supersample as u64);
                pre.append("scale=iw*");
                pre.append(ss.as_str());
                pre.append(":ih*");
                pre.append(ss.as_str());
                pre.append(":flags=bicubic");
                post = cat(",scale=", decimal(remap.out_width as u64).as_str());
                post.append(":");
                post.append(decimal(remap.out_height as u64).as_str());
                post.append(":flags=bicubic");
            } else {
                pre.append("null");
            }
            let mut r: String = cat("[0:v]", pre.as_str());
            r.append("[pre];[pre][1:v][2:v]remap,format=");
            r.append(full);
            r.append(post.as_str());
            r.append(",format=");
            r.append(sub.as_str());
            r.append("[v]");
            r
        },
        None => {
            let mut r: String = cat("[0:v]", crop.as_str());
            r.append("format=");
            r.append(sub.as_str());
            r.append("[v]");
            r
        },
    }
}

// ---------------------------------------------------------------------------
// The command
// ---------------------------------------------------------------------------

/// Flags that name one more stream of the input for the output.
pub open spec fn map_flags(indices: Seq<u32>) -> Seq<Seq<char>>
    decreases indices.len(),
{
    if indices.len() == 0 {
        Seq::empty()
    } else {
        map_flags(indices.drop_last()) + seq!["-map"@, "0:"@ + numeral(indices.last() as nat)]
    }
}

/// The indices of the audio streams.
pub open spec fn audio_indices(audio: Seq<AudioStream>) -> Seq<u32> {
    Seq::new(audio.len(), |i: int| audio[i].index)
}

/// Flags that have audio stream `n` of the output copied, or encoded anew.
pub open spec fn audio_flags(n: nat, copy: bool) -> Seq<Seq<char>> {
    if copy {
        seq!["-c:a:"@ + numeral(n), "copy"@]
    } else {
        seq!["-c:a:"@ + numeral(n), "aac"@, "-b:a:"@ + numeral(n), "192k"@]
    }
}

/// Flags for all the audio streams of the output.
pub open spec fn all_audio_flags(audio: Seq<AudioStream>) -> Seq<Seq<char>>
    decreases audio.len(),
{
    if audio.len() == 0 {
        Seq::empty()
    } else {
        all_audio_flags(audio.drop_last()) + audio_flags(
            (audio.len() - 1) as nat,
            audio.last().copy,
        )
    }
}

/// A flag that hands on a property of the colors, where it is known.
pub open spec fn color_flag(flag: Seq<char>, value: Option<Seq<char>>) -> Seq<Seq<char>> {
    match value {
        Some(v) => if v != "unknown"@ && v != "unspecified"@ {
            seq![flag, v]
        } else {
            Seq::empty()
        },
        None => Seq::empty(),
    }
}

/// Flags that hand on the properties of the colors.
pub open spec fn color_flags(s: Stream) -> Seq<Seq<char>> {
    color_flag("-colorspace"@, opt_text(s.color_space)) + color_flag(
        "-color_primaries"@,
        opt_text(s.color_primaries),
    ) + color_flag("-color_trc"@, opt_text(s.color_transfer)) + color_flag(
        "-color_range"@,
        opt_text(s.color_range),
    )
}

/// The flag that sets a preset; VAAPI encoders have none.
pub open spec fn preset_flags(encoder: Seq<char>, preset: Option<Seq<char>>) -> Seq<Seq<char>> {
    match preset {
        Some(p) => if contains(encoder, "vaapi"@) {
            Seq::empty()
        } else {
            seq!["-preset"@, p]
        },
        None => Seq::empty(),
    }
}

/// The warning that a preset is left out.
pub open spec fn preset_warning(encoder: Seq<char>, preset: Option<Seq<char>>) -> Option<
    Seq<char>,
> {
    match preset {
        Some(p) => if contains(encoder, "vaapi"@) {
            Some(
                "Warning: VAAPI encoders do not support presets, ignoring --preset "@ + p,
            )
        } else {
            None
        },
        None => None,
    }
}

/// A flag of the encoder `libx265` that keeps it quiet.
pub open spec fn quiet_flags(encoder: Seq<char>) -> Seq<Seq<char>> {
    if encoder == "libx265"@ {
        seq!["-x265-params"@, "log-level=error"@]
    } else {
        Seq::empty()
    }
}

/// The flag of a device, where there is one.
pub open spec fn device_flags<P>(flags: Seq<Seq<char>>, device: Option<P>) -> Seq<ArgView<P>> {
    match device {
        Some(d) => texts(flags) + path(d),
        None => Seq::empty(),
    }
}

/// The inputs of the command: the video, and the two tables.
pub open spec fn input_flags<P>(input: P, remap: Option<RemapSpec<P>>) -> Seq<ArgView<P>> {
    texts(seq!["-i"@]) + path(input) + match remap {
        Some(r) => texts(seq!["-i"@]) + path(r.x_path) + texts(seq!["-i"@]) + path(r.y_path),
        None => Seq::empty(),
    }
}

/// What stands before the filter.
pub open spec fn opening<P>(o: EncodeOptions<P>) -> Seq<ArgView<P>> {
    texts(
        seq![
            "-hide_banner"@,
            "-progress"@,
            "pipe:1"@,
            "-loglevel"@,
            "error"@,
            "-ignore_unknown"@,
            "-y"@,
        ],
    ) + device_flags(seq!["-vaapi_device"@], o.vaapi_device) + device_flags(
        seq!["-hwaccel"@, "vaapi"@, "-hwaccel_device"@],
        o.hwaccel_device,
    ) + input_flags(o.input, o.remap)
}

/// The arguments of ffmpeg, and a warning.
#[derive(Debug)]
pub struct EncodeCommand<P> {
    pub args: ArgList<P>,
    pub warning: Option<String>,
}

/// One list of texts after another is one list of texts.
proof fn texts_join<P>(start: Seq<ArgView<P>>, a: Seq<Seq<char>>, b: Seq<Seq<char>>)
    ensures
        start + texts::<P>(a) + texts::<P>(b) == start + texts::<P>(a + b),
{
    assert(start + texts::<P>(a) + texts::<P>(b) =~= start + texts::<P>(a + b));
}

fn add_device<P: Copy>(r: &mut ArgList<P>, flags: &Vec<String>, device: Option<P>)
    ensures
        final(r)@ == old(r)@ + device_flags(strings(flags@), device),
{
    if let Some(d) = device {
        r.all(flags);
        r.path(d);
        assert(r@ =~= old(r)@ + device_flags(strings(flags@), device));
    } else {
        assert(r@ =~= old(r)@ + device_flags(strings(flags@), device));
    }
}

fn add_opening<P: Copy>(r: &mut ArgList<P>, o: &EncodeOptions<P>)
    ensures
        final(r)@ == old(r)@ + opening(*o),
{
    let ghost start = r@;
    let ghost first: Seq<Seq<char>> = seq![
        "-hide_banner"@,
        "-progress"@,
        "pipe:1"@,
        "-loglevel"@,
        "error"@,
        "-ignore_unknown"@,
        "-y"@,
    ];
    r.pair("-hide_banner", "-progress");
    r.pair("pipe:1", "-loglevel");
    r.pair("error", "-ignore_unknown");
    r.text("-y");
    assert(r@ =~= start + texts(first));
    let one: Vec<String> = crate::text::owned_list(vec!["-vaapi_device"]);
    assert(strings(one@) =~= seq!["-vaapi_device"@]);
    add_device(r, &one, o.vaapi_device);
    let three: Vec<String> = crate::text::owned_list(
        vec!["-hwaccel", "vaapi", "-hwaccel_device"],
    );
    assert(strings(three@) =~= seq!["-hwaccel"@, "vaapi"@, "-hwaccel_device"@]);
    add_device(r, &three, o.hwaccel_device);
    let ghost devices = r@;
    r.text("-i");
    r.path(o.input);
    match &o.remap {
        Some(remap) => {
            r.text("-i");
            r.path(remap.x_path);
            r.text("-i");
            r.path(remap.y_path);
        },
        None => {},
    }
    assert(r@ =~= devices + input_flags(o.input, o.remap));
    assert(r@ =~= start + opening(*o));
}

fn add_maps<P>(r: &mut ArgList<P>, indices: &Vec<u32>)
    ensures
        final(r)@ == old(r)@ + texts(map_flags(indices@)),
{
    let ghost start = r@;
    let mut i: usize = 0;
    assert(indices@.take(0) =~= Seq::<u32>::empty());
    assert(r@ =~= start + texts(map_flags(indices@.take(0))));
    while i < indices.len()
        invariant
            i <= indices@.len(),
            r@ == start + texts(map_flags(indices@.take(i as int))),
        decreases indices@.len() - i,
    {
        let ghost head = map_flags(indices@.take(i as int));
        let stream: String = cat("0:", decimal(indices[i] as u64).as_str());
        r.pair("-map", stream.as_str());
        proof {
            assert(indices@.take(i + 1).drop_last() =~= indices@.take(i as int));
            texts_join::<P>(start, head, seq!["-map"@, stream@]);
        }
        i += 1;
    }
    assert(indices@.take(i as int) =~= indices@);
}

fn add_audio<P>(r: &mut ArgList<P>, audio: &[AudioStream])
    ensures
        final(r)@ == old(r)@ + texts(all_audio_flags(audio@)),
{
    let ghost start = r@;
    let mut n: usize = 0;
    assert(audio@.take(0) =~= Seq::<AudioStream>::empty());
    assert(r@ =~= start + texts(all_audio_flags(audio@.take(0))));
    while n < audio.len()
        invariant
            n <= audio@.len(),
            r@ == start + texts(all_audio_flags(audio@.take(n as int))),
        decreases audio@.len() - n,
    {
        let ghost head = all_audio_flags(audio@.take(n as int));
        let ghost before = r@;
        let number: String = decimal(n as u64);
        r.text(cat("-c:a:", number.as_str()).as_str());
        if audio[n].copy {
            r.text("copy");
        } else {
            r.text("aac");
            r.pair(cat("-b:a:", number.as_str()).as_str(), "192k");
        }
        proof {
            let flags = audio_flags(n as nat, audio@[n as int].copy);
            assert(r@ =~= before + texts(flags));
            assert(audio@.take(n + 1).drop_last() =~= audio@.take(n as int));
            texts_join::<P>(start, head, flags);
        }
        n += 1;
    }
    assert(audio@.take(n as int) =~= audio@);
}

fn add_color<P>(r: &mut ArgList<P>, flag: &str, value: &Option<String>)
    ensures
        final(r)@ == old(r)@ + texts(color_flag(flag@, opt_text(*value))),
{
    let ghost start = r@;
    if let Some(v) = value {
        if !same(v.as_str(), "unknown") && !same(v.as_str(), "unspecified") {
            r.pair(flag, v.as_str());
        }
    }
    assert(r@ =~= start + texts(color_flag(flag@, opt_text(*value))));
}

fn indices_of(audio: &[AudioStream]) -> (r: Vec<u32>)
    ensures
        r@ == audio_indices(audio@),
{
    let mut r: Vec<u32> = Vec::new();
    let mut i: usize = 0;
    while i < audio.len()
        invariant
            i <= audio@.len(),
            r@.len() == i,
            forall|j: int| 0 <= j < i ==> r@[j] == audio@[j].index,
        decreases audio@.len() - i,
    {
        r.push(audio[i].index);
        i += 1;
    }
    assert(r@ =~= audio_indices(audio@));
    r
}

fn copy_of(list: &[u32]) -> (r: Vec<u32>)
    ensures
        r@ == list@,
{
    let mut r: Vec<u32> = Vec::new();
    let mut i: usize = 0;
    while i < list.len()
        invariant
            i <= list@.len(),
            r@ == list@.take(i as int),
        decreases list@.len() - i,
    {
        r.push(list[i]);
        assert(r@ =~= list@.take(i + 1));
        i += 1;
    }
    assert(list@.take(i as int) =~= list@);
    r
}

fn add_colors<P>(r: &mut ArgList<P>, s: &Stream)
    ensures
        final(r)@ == old(r)@ + texts(color_flags(*s)),
{
    let ghost start = r@;
    let ghost one = color_flag("-colorspace"@, opt_text(s.color_space));
    let ghost two = color_flag("-color_primaries"@, opt_text(s.color_primaries));
    let ghost three = color_flag("-color_trc"@, opt_text(s.color_transfer));
    let ghost four = color_flag("-color_range"@, opt_text(s.color_range));
    add_color(r, "-colorspace", &s.color_space);
    add_color(r, "-color_primaries", &s.color_primaries);
    add_color(r, "-color_trc", &s.color_transfer);
    add_color(r, "-color_range", &s.color_range);
    proof {
        texts_join::<P>(start, one, two);
        texts_join::<P>(start, one + two, three);
        texts_join::<P>(start, one + two + three, four);
    }
}

/// The streams that the output takes from the input.
pub open spec fn stream_flags<P>(o: EncodeOptions<P>) -> Seq<Seq<char>> {
    seq!["-filter_complex"@, filter_graph(o), "-map"@, "[v]"@] + map_flags(
        audio_indices(o.audio_streams@),
    ) + map_flags(o.data_streams@)
}

fn add_streams<P>(r: &mut ArgList<P>, o: &EncodeOptions<P>)
    ensures
        final(r)@ == old(r)@ + texts(stream_flags(*o)),
{
    let ghost start = r@;
    let filter: String = build_filter(o);
    r.pair("-filter_complex", filter.as_str());
    r.pair("-map", "[v]");
    let ghost first: Seq<Seq<char>> = seq![
        "-filter_complex"@,
        filter_graph(*o),
        "-map"@,
        "[v]"@,
    ];
    assert(r@ =~= start + texts(first));
    let audio: Vec<u32> = indices_of(o.audio_streams);
    add_maps(r, &audio);
    let data: Vec<u32> = copy_of(o.data_streams);
    add_maps(r, &data);
    proof {
        texts_join::<P>(start, first, map_flags(audio@));
        texts_join::<P>(start, first + map_flags(audio@), map_flags(data@));
    }
}

/// How the streams of the output are encoded, given the flags of the quality.
pub open spec fn codec_flags<P>(o: EncodeOptions<P>, quality: Seq<Seq<char>>) -> Seq<Seq<char>> {
    seq!["-map_metadata"@, "0"@, "-c:v"@, o.encoder@] + quality + preset_flags(
        o.encoder@,
        opt_str(o.preset),
    ) + color_flags(*o.stream) + all_audio_flags(o.audio_streams@) + seq!["-c:d"@, "copy"@]
        + quiet_flags(o.encoder@)
}

fn add_preset<P>(r: &mut ArgList<P>, encoder: &str, preset: Option<&str>) -> (w: Option<String>)
    ensures
        final(r)@ == old(r)@ + texts(preset_flags(encoder@, opt_str(preset))),
        opt_text(w) == preset_warning(encoder@, opt_str(preset)),
{
    let ghost start = r@;
    let mut w: Option<String> = None;
    if let Some(p) = preset {
        if has(encoder, "vaapi") {
            w =
            Some(cat("Warning: VAAPI encoders do not support presets, ignoring --preset ", p));
        } else {
            r.pair("-preset", p);
        }
    }
    assert(r@ =~= start + texts(preset_flags(encoder@, opt_str(preset))));
    w
}

fn add_codecs<P>(r: &mut ArgList<P>, o: &EncodeOptions<P>, quality: &Vec<String>) -> (w: Option<
    String,
>)
    ensures
        final(r)@ == old(r)@ + texts(codec_flags(*o, strings(quality@))),
        opt_text(w) == preset_warning(o.encoder@, opt_str(o.preset)),
{
    let ghost start = r@;
    let ghost one: Seq<Seq<char>> = seq!["-map_metadata"@, "0"@, "-c:v"@, o.encoder@];
    r.pair("-map_metadata", "0");
    r.pair("-c:v", o.encoder);
    assert(r@ =~= start + texts(one));
    r.all(quality);
    let w: Option<String> = add_preset(r, o.encoder, o.preset);
    add_colors(r, o.stream);
    add_audio(r, o.audio_streams);
    r.pair("-c:d", "copy");
    let ghost before = r@;
    if same(o.encoder, "libx265") {
        r.pair("-x265-params", "log-level=error");
    }
    proof {
        assert(r@ =~= before + texts(quiet_flags(o.encoder@)));
        let two = one + strings(quality@);
        let three = two + preset_flags(o.encoder@, opt_str(o.preset));
        let four = three + color_flags(*o.stream);
        let five = four + all_audio_flags(o.audio_streams@);
        let data: Seq<Seq<char>> = seq!["-c:d"@, "copy"@];
        texts_join::<P>(start, one, strings(quality@));
        texts_join::<P>(start, two, preset_flags(o.encoder@, opt_str(o.preset)));
        texts_join::<P>(start, three, color_flags(*o.stream));
        texts_join::<P>(start, four, all_audio_flags(o.audio_streams@));
        texts_join::<P>(start, five, data);
        texts_join::<P>(start, five + data, quiet_flags(o.encoder@));
    }
    w
}

/// The arguments of ffmpeg that encode a video, or why there are none.
pub open spec fn command<P>(o: EncodeOptions<P>) -> Result<Seq<ArgView<P>>, Seq<char>> {
    match quality_flags(o.encoder@, *o.quality) {
        Ok(quality) => Ok(
            opening(o) + texts(stream_flags(o)) + texts(codec_flags(o, quality)) + path(o.output),
        ),
        Err(e) => Err(e),
    }
}

/// The command that encodes a video.
pub fn encode<P: Copy>(o: &EncodeOptions<P>) -> (r: Result<EncodeCommand<P>, Error>)
    ensures
        match r {
            Ok(c) => {
                &&& command(*o) == Ok::<Seq<ArgView<P>>, Seq<char>>(c.args@)
                &&& opt_text(c.warning) == preset_warning(o.encoder@, opt_str(o.preset))
            },
            Err(e) => command(*o) == Err::<Seq<ArgView<P>>, Seq<char>>(e@),
        },
{
    let quality: Vec<String> = match quality_args(o.encoder, o.quality) {
        Ok(q) => q,
        Err(e) => return Err(e),
    };
    let mut r: ArgList<P> = ArgList::new();
    add_opening(&mut r, o);
    assert(r@ =~= opening(*o));
    add_streams(&mut r, o);
    let warning: Option<String> = add_codecs(&mut r, o, &quality);
    r.path(o.output);
    Ok(EncodeCommand { args: r, warning })
}

// ---------------------------------------------------------------------------
// Laws
// ---------------------------------------------------------------------------

/// Where the flags that name a stream stand.
proof fn map_flags_at(indices: Seq<u32>, i: int)
    requires
        0 <= i < indices.len(),
    ensures
        map_flags(indices).len() == 2 * indices.len(),
        map_flags(indices)[2 * i] == "-map"@,
        map_flags(indices)[2 * i + 1] == "0:"@ + numeral(indices[i] as nat),
    decreases indices.len(),
{
    let head = indices.drop_last();
    map_flags_len(head);
    if i < head.len() {
        map_flags_at(head, i);
    }
}

proof fn map_flags_len(indices: Seq<u32>)
    ensures
        map_flags(indices).len() == 2 * indices.len(),
    decreases indices.len(),
{
    if indices.len() > 0 {
        map_flags_len(indices.drop_last());
    }
}

/// The output path is the last argument of every command.
pub proof fn output_comes_last<P>(o: EncodeOptions<P>)
    requires
        command(o) is Ok,
    ensures
        command(o)->Ok_0.last() == ArgView::Path(o.output),
{
}

/// Every audio stream and every data stream that is asked for is mapped into
/// the output: its index stands right behind a `-map` flag.
pub proof fn every_stream_is_mapped<P>(o: EncodeOptions<P>, index: u32)
    requires
        command(o) is Ok,
        audio_indices(o.audio_streams@).contains(index) || o.data_streams@.contains(index),
    ensures
        exists|j: int|
            0 < j < command(o)->Ok_0.len() && (#[trigger] command(o)->Ok_0[j]) == ArgView::<
                P,
            >::Text("0:"@ + numeral(index as nat)) && command(o)->Ok_0[j - 1] == ArgView::<
                P,
            >::Text("-map"@),
{
    let audio = audio_indices(o.audio_streams@);
    let data = o.data_streams@;
    let first: Seq<Seq<char>> = seq!["-filter_complex"@, filter_graph(o), "-map"@, "[v]"@];
    let flags = stream_flags(o);
    map_flags_len(audio);
    map_flags_len(data);
    let at: int = if audio.contains(index) {
        let i = choose|i: int| 0 <= i < audio.len() && audio[i] == index;
        map_flags_at(audio, i);
        first.len() + 2 * i + 1
    } else {
        let i = choose|i: int| 0 <= i < data.len() && data[i] == index;
        map_flags_at(data, i);
        first.len() + map_flags(audio).len() + 2 * i + 1
    };
    assert(flags[at] == "0:"@ + numeral(index as nat));
    assert(flags[at - 1] == "-map"@);
    let j = opening(o).len() + at;
    assert(texts::<P>(flags)[at] == ArgView::<P>::Text(flags[at]));
    assert(command(o)->Ok_0[j] == texts::<P>(flags)[at]);
    assert(command(o)->Ok_0[j - 1] == texts::<P>(flags)[at - 1]);
}

/// Frames for a VAAPI encoder end on the device: uploading them is the last
/// thing that the filter does.
pub proof fn vaapi_frames_are_uploaded<P>(o: EncodeOptions<P>)
    requires
        contains(o.encoder@, "vaapi"@),
    ensures
        ends_with(filter_graph(o), ",hwupload"@ + "[v]"@),
{
    let f = filter_graph(o);
    let tail = ",hwupload"@ + "[v]"@;
    let up = upload_format(o.stream.is_deep());
    match o.remap {
        Some(r) => {
            let head = "[0:v]"@ + before_remap(crop_part(o.crop), r.supersample)
                + "[pre];[pre][1:v][2:v]remap,format="@ + full_format(o.stream.is_deep())
                + after_remap(r.out_width, r.out_height, r.supersample) + ",format="@;
            assert(f =~= head + up + tail);
        },
        None => {
            let head = "[0:v]"@ + crop_part(o.crop) + "format="@;
            assert(f =~= head + up + tail);
        },
    }
    assert(f.skip(f.len() - tail.len()) =~= tail);
}

// ---------------------------------------------------------------------------
// The end of an encoding
// ---------------------------------------------------------------------------

/// How an encoding ended.
#[derive(Debug)]
pub enum EncodeEnd {
    /// It failed; what stands at the output path is to be removed.
    Failed(Error),
    /// It succeeded, and this is to be said of it.
    Finished(Option<String>),
}

/// What is said of an encoding that failed.
pub open spec fn failure_text(status: Seq<char>, stderr: Seq<char>) -> Seq<char> {
    "ffmpeg exited with status "@ + status + ":\n"@ + stderr
}

/// What is said of the error output of an encoding that succeeded, if it holds
/// more than white space.
pub open spec fn success_note(stderr: Seq<char>) -> Option<Seq<char>> {
    if trim(stderr).len() == 0 {
        None
    } else {
        Some("\nffmpeg messages:\n"@ + trim(stderr))
    }
}

/// How an encoding ended, from the exit status of ffmpeg and its error output.
pub fn encode_end(success: bool, status: &str, stderr: &str) -> (r: EncodeEnd)
    ensures
        match r {
            EncodeEnd::Failed(e) => !success && e@ == failure_text(status@, stderr@),
            EncodeEnd::Finished(note) => success && opt_text(note) == success_note(stderr@),
        },
{
    if !success {
        let mut m: String = cat3("ffmpeg exited with status ", status, ":\n");
        m.append(stderr);
        return EncodeEnd::Failed(Error::new(m));
    }
    let said: &str = trimmed(stderr);
    if said.is_empty() {
        EncodeEnd::Finished(None)
    } else {
        EncodeEnd::Finished(Some(cat("\nffmpeg messages:\n", said)))
    }
}

// ---------------------------------------------------------------------------
// Laws of the filter
// ---------------------------------------------------------------------------

/// No `c` stands right before an `r`.
spec fn apart(s: Seq<char>) -> bool {
    forall|i: int| 0 <= i < s.len() - 1 && #[trigger] s[i] == 'c' ==> s[i + 1] != 'r'
}

proof fn apart_joins(a: Seq<char>, b: Seq<char>)
    requires
        apart(a),
        apart(b),
        b.len() > 0 ==> b[0] != 'r',
    ensures
        apart(a + b),
        (a + b).len() > 0 && (a + b)[0] == 'r' ==> a.len() > 0 && a[0] == 'r',
{
    let s = a + b;
    assert forall|i: int| 0 <= i < s.len() - 1 && #[trigger] s[i] == 'c' implies s[i + 1]
        != 'r' by {
        if i < a.len() - 1 {
            assert(a[i] == 'c' && s[i + 1] == a[i + 1]);
        } else if i >= a.len() {
            assert(b[i - a.len()] == 'c' && s[i + 1] == b[i + 1 - a.len()]);
        } else {
            assert(s[i + 1] == b[0]);
        }
    }
}

proof fn digits_are_apart(n: nat)
    ensures
        apart(numeral(n)),
        numeral(n)[0] != 'r',
{
    numeral_writes_its_number(n);
    assert forall|i: int| 0 <= i < numeral(n).len() implies #[trigger] numeral(n)[i] != 'c' by {
        assert('0' <= numeral(n)[i] <= '9');
    }
    assert('0' <= numeral(n)[0] <= '9');
}

proof fn formats_are_apart(encoder: Seq<char>, is_10bit: bool)
    ensures
        apart(final_format(encoder, is_10bit)),
        final_format(encoder, is_10bit).len() > 0 ==> final_format(encoder, is_10bit)[0] != 'r',
        apart(full_format(is_10bit)),
        full_format(is_10bit).len() > 0 ==> full_format(is_10bit)[0] != 'r',
{
    reveal_strlit("p010");
    reveal_strlit("nv12");
    reveal_strlit(",hwupload");
    reveal_strlit("yuv420p10le");
    reveal_strlit("yuv420p");
    reveal_strlit("yuv444p10le");
    reveal_strlit("yuv444p");
    assert(apart("p010"@) && apart("nv12"@) && apart(",hwupload"@));
    apart_joins(upload_format(is_10bit), ",hwupload"@);
}

/// The filter graph begins with the picture of the video, and with a rectangle
/// it cuts that out of the picture before anything else: the text of the crop
/// filter, with width, height and corner in this order, and a comma. The rest
/// of the graph is what it is without a rectangle.
pub proof fn rectangle_is_cut_out_first<P>(o: EncodeOptions<P>, c: CropRect)
    requires
        o.crop == Some(&c),
    ensures
        ({
            let cut = "[0:v]"@ + "crop="@ + numeral(c.w as nat) + ":"@ + numeral(c.h as nat) + ":"@
                + numeral(c.x as nat) + ":"@ + numeral(c.y as nat) + ","@;
            let bare = EncodeOptions { crop: None, ..o };
            &&& cut.len() <= filter_graph(o).len()
            &&& filter_graph(o).take(cut.len() as int) == cut
            &&& filter_graph(bare).take(5) == "[0:v]"@
            &&& filter_graph(o) == cut + filter_graph(bare).skip(5)
        }),
{
    reveal_strlit("[0:v]");
    reveal_strlit("");
    let bare = EncodeOptions { crop: None, ..o };
    let part = c.filter() + ","@;
    let cut = "[0:v]"@ + "crop="@ + numeral(c.w as nat) + ":"@ + numeral(c.h as nat) + ":"@
        + numeral(c.x as nat) + ":"@ + numeral(c.y as nat) + ","@;
    assert(cut =~= "[0:v]"@ + part);
    assert(filter_graph(bare).take(5) =~= "[0:v]"@);
    match o.remap {
        Some(r) => {
            assert(before_remap(part, r.supersample) =~= part + before_remap(""@, r.supersample));
        },
        None => {},
    }
    assert(filter_graph(o) =~= cut + filter_graph(bare).skip(5));
    assert(filter_graph(o).take(cut.len() as int) =~= cut);
}

/// Without a rectangle the filter graph holds no crop filter.
pub proof fn nothing_is_cut_off_without_a_rectangle<P>(o: EncodeOptions<P>)
    requires
        o.crop is None,
    ensures
        !contains(filter_graph(o), "crop="@),
{
    reveal_strlit("");
    reveal_strlit("[0:v]");
    reveal_strlit("null");
    reveal_strlit("scale=iw*");
    reveal_strlit(":ih*");
    reveal_strlit(":flags=bicubic");
    reveal_strlit("[pre];[pre][1:v][2:v]remap,format=");
    reveal_strlit(",scale=");
    reveal_strlit(":");
    reveal_strlit(",format=");
    reveal_strlit("format=");
    reveal_strlit("[v]");
    reveal_strlit("crop=");
    let deep = o.stream.is_deep();
    let f = final_format(o.encoder@, deep);
    formats_are_apart(o.encoder@, deep);
    assert(apart(""@) && apart("[0:v]"@) && apart("null"@) && apart("scale=iw*"@) && apart(
        ":ih*"@,
    ));
    assert(apart(":flags=bicubic"@) && apart("[pre];[pre][1:v][2:v]remap,format="@));
    assert(apart(",scale="@) && apart(":"@) && apart(",format="@) && apart("format="@) && apart(
        "[v]"@,
    ));
    match o.remap {
        Some(r) => {
            let n = numeral(r.supersample as nat);
            digits_are_apart(r.supersample as nat);
            digits_are_apart(r.out_width as nat);
            digits_are_apart(r.out_height as nat);
            let before = before_remap(""@, r.supersample);
            if r.supersample > 1 {
                apart_joins(""@, "scale=iw*"@);
                apart_joins(""@ + "scale=iw*"@, n);
                apart_joins(""@ + "scale=iw*"@ + n, ":ih*"@);
                apart_joins(""@ + "scale=iw*"@ + n + ":ih*"@, n);
                apart_joins(""@ + "scale=iw*"@ + n + ":ih*"@ + n, ":flags=bicubic"@);
            } else {
                apart_joins(""@, "null"@);
            }
            assert(apart(before) && before[0] != 'r');
            let w = numeral(r.out_width as nat);
            let h = numeral(r.out_height as nat);
            let after = after_remap(r.out_width, r.out_height, r.supersample);
            if r.supersample > 1 {
                apart_joins(",scale="@, w);
                apart_joins(",scale="@ + w, ":"@);
                apart_joins(",scale="@ + w + ":"@, h);
                apart_joins(",scale="@ + w + ":"@ + h, ":flags=bicubic"@);
            }
            assert(apart(after) && (after.len() > 0 ==> after[0] != 'r'));
            let a = "[0:v]"@ + before;
            apart_joins("[0:v]"@, before);
            let b = a + "[pre];[pre][1:v][2:v]remap,format="@;
            apart_joins(a, "[pre];[pre][1:v][2:v]remap,format="@);
            apart_joins(b, full_format(deep));
            apart_joins(b + full_format(deep), after);
            apart_joins(b + full_format(deep) + after, ",format="@);
            apart_joins(b + full_format(deep) + after + ",format="@, f);
            apart_joins(b + full_format(deep) + after + ",format="@ + f, "[v]"@);
        },
        None => {
            apart_joins("[0:v]"@, ""@);
            apart_joins("[0:v]"@ + ""@, "format="@);
            apart_joins("[0:v]"@ + ""@ + "format="@, f);
            apart_joins("[0:v]"@ + ""@ + "format="@ + f, "[v]"@);
        },
    }
    let graph = filter_graph(o);
    assert(apart(graph));
    if contains(graph, "crop="@) {
        contained_texts_are_parts(graph, "crop="@);
        let (a, b) = choose|a: Seq<char>, b: Seq<char>| graph == #[trigger] (a + "crop="@ + b);
        let i = a.len() as int;
        assert(graph[i] == 'c' && graph[i + 1] == 'r');
    }
}

/// The last thing that the filter sets is the pixel format, which follows the
/// bits of the input: for a VAAPI encoder `p010` or `nv12`, and then the upload
/// to the device; for any other one `yuv420p10le` or `yuv420p`. Without tables
/// and without a rectangle this is all that the filter does.
pub proof fn frames_end_in_the_format_of_the_encoder<P>(o: EncodeOptions<P>) -> (head: Seq<char>)
    ensures
        contains(o.encoder@, "vaapi"@) && o.stream.is_deep() ==> filter_graph(o) == head
            + "format=p010,hwupload[v]"@,
        contains(o.encoder@, "vaapi"@) && !o.stream.is_deep() ==> filter_graph(o) == head
            + "format=nv12,hwupload[v]"@,
        !contains(o.encoder@, "vaapi"@) && o.stream.is_deep() ==> filter_graph(o) == head
            + "format=yuv420p10le[v]"@,
        !contains(o.encoder@, "vaapi"@) && !o.stream.is_deep() ==> filter_graph(o) == head
            + "format=yuv420p[v]"@,
        o.remap is None && o.crop is None ==> head == "[0:v]"@,
        o.remap is Some ==> head.len() > 0 && head.last() == ',',
{
    reveal_strlit("format=p010,hwupload[v]");
    reveal_strlit("format=nv12,hwupload[v]");
    reveal_strlit("format=yuv420p10le[v]");
    reveal_strlit("format=yuv420p[v]");
    reveal_strlit("p010");
    reveal_strlit("nv12");
    reveal_strlit(",hwupload");
    reveal_strlit("yuv420p10le");
    reveal_strlit("yuv420p");
    reveal_strlit("format=");
    reveal_strlit(",format=");
    reveal_strlit("[v]");
    reveal_strlit(",");
    reveal_strlit("");
    let deep = o.stream.is_deep();
    let f = final_format(o.encoder@, deep);
    let tail = "format="@ + f + "[v]"@;
    assert(contains(o.encoder@, "vaapi"@) && deep ==> tail =~= "format=p010,hwupload[v]"@);
    assert(contains(o.encoder@, "vaapi"@) && !deep ==> tail =~= "format=nv12,hwupload[v]"@);
    assert(!contains(o.encoder@, "vaapi"@) && deep ==> tail =~= "format=yuv420p10le[v]"@);
    assert(!contains(o.encoder@, "vaapi"@) && !deep ==> tail =~= "format=yuv420p[v]"@);
    match o.remap {
        Some(r) => {
            let rest = "[0:v]"@ + before_remap(crop_part(o.crop), r.supersample)
                + "[pre];[pre][1:v][2:v]remap,format="@ + full_format(deep) + after_remap(
                r.out_width,
                r.out_height,
                r.supersample,
            );
            let head = rest + ","@;
            assert(","@ + "format="@ =~= ",format="@);
            assert(filter_graph(o) =~= head + tail);
            head
        },
        None => {
            let head = "[0:v]"@ + crop_part(o.crop);
            assert(filter_graph(o) =~= head + tail);
            assert(o.crop is None ==> head =~= "[0:v]"@);
            head
        },
    }
}

/// With tables of the size of the picture, frames pass into the remapping as
/// they are. With finer tables they are scaled up as many times, and scaled to
/// the size of the output afterwards. In both cases they are remapped by the
/// second and the third input, in a format in which every pixel has its own
/// color and which keeps the bits of the input.
pub proof fn tables_are_applied_at_their_own_scale<P>(
    o: EncodeOptions<P>,
    r: RemapSpec<P>,
) -> (tail: Seq<char>)
    requires
        o.remap == Some(r),
        o.crop is None,
    ensures
        ({
            let full = if o.stream.is_deep() {
                "yuv444p10le"@
            } else {
                "yuv444p"@
            };
            let n = numeral(r.supersample as nat);
            let remapped = "[pre];[pre][1:v][2:v]remap,format="@ + full;
            &&& r.supersample <= 1 ==> filter_graph(o) == "[0:v]"@ + "null"@ + remapped
                + ",format="@ + tail
            &&& r.supersample > 1 ==> filter_graph(o) == "[0:v]"@ + "scale=iw*"@ + n + ":ih*"@ + n
                + ":flags=bicubic"@ + remapped + ",scale="@ + numeral(r.out_width as nat) + ":"@
                + numeral(r.out_height as nat) + ":flags=bicubic"@ + ",format="@ + tail
        }),
        contains(o.encoder@, "vaapi"@) ==> tail == if o.stream.is_deep() {
            "p010"@
        } else {
            "nv12"@
        } + ",hwupload"@ + "[v]"@,
        !contains(o.encoder@, "vaapi"@) ==> tail == if o.stream.is_deep() {
            "yuv420p10le"@
        } else {
            "yuv420p"@
        } + "[v]"@,
{
    reveal_strlit("");
    let deep = o.stream.is_deep();
    let tail = final_format(o.encoder@, deep) + "[v]"@;
    let n = numeral(r.supersample as nat);
    let remapped = "[pre];[pre][1:v][2:v]remap,format="@ + full_format(deep);
    if r.supersample > 1 {
        let wide = "[0:v]"@ + "scale=iw*"@ + n + ":ih*"@ + n + ":flags=bicubic"@;
        assert("[0:v]"@ + before_remap(""@, r.supersample) =~= wide);
        let back = ",scale="@ + numeral(r.out_width as nat) + ":"@ + numeral(r.out_height as nat)
            + ":flags=bicubic"@;
        assert(filter_graph(o) =~= wide + remapped + back + ",format="@ + tail);
    } else {
        assert("[0:v]"@ + before_remap(""@, r.supersample) =~= "[0:v]"@ + "null"@);
        assert(filter_graph(o) =~= "[0:v]"@ + "null"@ + remapped + ",format="@ + tail);
    }
    tail
}

// ---------------------------------------------------------------------------
// Laws of the command
// ---------------------------------------------------------------------------

/// How many arguments stand before the inputs: seven that every command has,
/// two for a device that encodes and four for one that decodes.
pub open spec fn inputs_at<P>(o: EncodeOptions<P>) -> int {
    7 + (if o.vaapi_device is Some {
        2int
    } else {
        0
    }) + (if o.hwaccel_device is Some {
        4int
    } else {
        0
    })
}

/// How many arguments stand before the filter: after the video, and the two
/// tables where there are any.
pub open spec fn filter_at<P>(o: EncodeOptions<P>) -> int {
    inputs_at(o) + if o.remap is Some {
        6int
    } else {
        2
    }
}

/// How many arguments stand before the codecs: after the filter, its picture,
/// and two for each stream that is taken from the input.
pub open spec fn codecs_at<P>(o: EncodeOptions<P>) -> int {
    filter_at(o) + 4 + 2 * o.audio_streams@.len() + 2 * o.data_streams@.len()
}

/// Progress goes to the standard output, nothing but errors is logged, unknown
/// streams are passed over and no question is asked. A device that encodes is
/// set up, and one that decodes is used, before the inputs.
pub proof fn devices_stand_before_the_inputs<P>(o: EncodeOptions<P>)
    requires
        command(o) is Ok,
    ensures
        ({
            let c = command(o)->Ok_0;
            &&& c.len() > inputs_at(o)
            &&& c[0] == ArgView::<P>::Text("-hide_banner"@)
            &&& c[1] == ArgView::<P>::Text("-progress"@)
            &&& c[2] == ArgView::<P>::Text("pipe:1"@)
            &&& c[3] == ArgView::<P>::Text("-loglevel"@)
            &&& c[4] == ArgView::<P>::Text("error"@)
            &&& c[5] == ArgView::<P>::Text("-ignore_unknown"@)
            &&& c[6] == ArgView::<P>::Text("-y"@)
            &&& o.vaapi_device matches Some(d) ==> c[7] == ArgView::<P>::Text("-vaapi_device"@)
                && c[8] == ArgView::Path(d)
            &&& o.hwaccel_device matches Some(d) ==> {
                &&& c[inputs_at(o) - 4] == ArgView::<P>::Text("-hwaccel"@)
                &&& c[inputs_at(o) - 3] == ArgView::<P>::Text("vaapi"@)
                &&& c[inputs_at(o) - 2] == ArgView::<P>::Text("-hwaccel_device"@)
                &&& c[inputs_at(o) - 1] == ArgView::Path(d)
            }
        }),
{
    opening_parts(o);
    let c = command(o)->Ok_0;
    let p = opening(o);
    assert forall|i: int| 0 <= i < p.len() implies #[trigger] c[i] == p[i] by {}
}

/// The video is the first input, the table of columns the second and the table
/// of rows the third. The filter follows, and its picture goes to the output.
pub proof fn tables_follow_the_video<P>(o: EncodeOptions<P>)
    requires
        command(o) is Ok,
    ensures
        ({
            let c = command(o)->Ok_0;
            let i = inputs_at(o);
            let f = filter_at(o);
            &&& c.len() > f + 4
            &&& c[i] == ArgView::<P>::Text("-i"@)
            &&& c[i + 1] == ArgView::Path(o.input)
            &&& o.remap matches Some(r) ==> {
                &&& c[i + 2] == ArgView::<P>::Text("-i"@)
                &&& c[i + 3] == ArgView::Path(r.x_path)
                &&& c[i + 4] == ArgView::<P>::Text("-i"@)
                &&& c[i + 5] == ArgView::Path(r.y_path)
            }
            &&& c[f] == ArgView::<P>::Text("-filter_complex"@)
            &&& c[f + 1] == ArgView::<P>::Text(filter_graph(o))
            &&& c[f + 2] == ArgView::<P>::Text("-map"@)
            &&& c[f + 3] == ArgView::<P>::Text("[v]"@)
        }),
{
    opening_parts(o);
    let c = command(o)->Ok_0;
    let p = opening(o);
    assert forall|i: int| 0 <= i < p.len() implies #[trigger] c[i] == p[i] by {}
    let s = stream_flags(o);
    assert forall|i: int| 0 <= i < s.len() implies #[trigger] c[p.len() + i] == ArgView::<P>::Text(
        s[i],
    ) by {
        assert(texts::<P>(s)[i] == ArgView::<P>::Text(s[i]));
    }
    assert(s[0] == "-filter_complex"@ && s[1] == filter_graph(o) && s[2] == "-map"@ && s[3]
        == "[v]"@);
    assert(c[p.len() + 0int] == ArgView::<P>::Text(s[0]));
    assert(c[p.len() + 1int] == ArgView::<P>::Text(s[1]));
    assert(c[p.len() + 2int] == ArgView::<P>::Text(s[2]));
    assert(c[p.len() + 3int] == ArgView::<P>::Text(s[3]));
}

proof fn opening_parts<P>(o: EncodeOptions<P>)
    ensures
        opening(o).len() == filter_at(o),
        ({
            let c = opening(o);
            let i = inputs_at(o);
            &&& c[0] == ArgView::<P>::Text("-hide_banner"@)
            &&& c[1] == ArgView::<P>::Text("-progress"@)
            &&& c[2] == ArgView::<P>::Text("pipe:1"@)
            &&& c[3] == ArgView::<P>::Text("-loglevel"@)
            &&& c[4] == ArgView::<P>::Text("error"@)
            &&& c[5] == ArgView::<P>::Text("-ignore_unknown"@)
            &&& c[6] == ArgView::<P>::Text("-y"@)
            &&& o.vaapi_device matches Some(d) ==> c[7] == ArgView::<P>::Text("-vaapi_device"@)
                && c[8] == ArgView::Path(d)
            &&& o.hwaccel_device matches Some(d) ==> {
                &&& c[i - 4] == ArgView::<P>::Text("-hwaccel"@)
                &&& c[i - 3] == ArgView::<P>::Text("vaapi"@)
                &&& c[i - 2] == ArgView::<P>::Text("-hwaccel_device"@)
                &&& c[i - 1] == ArgView::Path(d)
            }
            &&& c[i] == ArgView::<P>::Text("-i"@)
            &&& c[i + 1] == ArgView::Path(o.input)
            &&& o.remap matches Some(r) ==> {
                &&& c[i + 2] == ArgView::<P>::Text("-i"@)
                &&& c[i + 3] == ArgView::Path(r.x_path)
                &&& c[i + 4] == ArgView::<P>::Text("-i"@)
                &&& c[i + 5] == ArgView::Path(r.y_path)
            }
        }),
{
    let first = texts::<P>(
        seq![
            "-hide_banner"@,
            "-progress"@,
            "pipe:1"@,
            "-loglevel"@,
            "error"@,
            "-ignore_unknown"@,
            "-y"@,
        ],
    );
    let one = device_flags(seq!["-vaapi_device"@], o.vaapi_device);
    let two = device_flags(seq!["-hwaccel"@, "vaapi"@, "-hwaccel_device"@], o.hwaccel_device);
    let three = input_flags(o.input, o.remap);
    let c = opening(o);
    assert forall|i: int| 0 <= i < 7 implies #[trigger] c[i] == first[i] by {}
    assert forall|i: int| 0 <= i < one.len() implies c[7 + i] == #[trigger] one[i] by {}
    assert forall|i: int| 0 <= i < two.len() implies c[7 + one.len() + i] == #[trigger] two[i] by {}
    assert forall|i: int| 0 <= i < three.len() implies c[7 + one.len() + two.len() + i]
        == #[trigger] three[i] by {}
    assert(first[0] == c[0] && first[1] == c[1] && first[2] == c[2] && first[3] == c[3]);
    assert(three[0] == ArgView::<P>::Text("-i"@));
    assert(three[1] == ArgView::Path(o.input));
    if let Some(d) = o.vaapi_device {
        assert(one[0] == ArgView::<P>::Text("-vaapi_device"@));
        assert(one[1] == ArgView::Path(d));
    }
    if let Some(d) = o.hwaccel_device {
        assert(two[0] == ArgView::<P>::Text("-hwaccel"@));
        assert(two[1] == ArgView::<P>::Text("vaapi"@));
        assert(two[2] == ArgView::<P>::Text("-hwaccel_device"@));
        assert(two[3] == ArgView::Path(d));
    }
    if let Some(r) = o.remap {
        assert(three[2] == ArgView::<P>::Text("-i"@));
        assert(three[3] == ArgView::Path(r.x_path));
        assert(three[4] == ArgView::<P>::Text("-i"@));
        assert(three[5] == ArgView::Path(r.y_path));
    }
}

/// The audio streams are taken in their order, and the data streams after them
/// in theirs: each by `-map` and its index in the first input.
pub proof fn streams_are_mapped_in_order<P>(o: EncodeOptions<P>, i: int)
    requires
        command(o) is Ok,
    ensures
        ({
            let c = command(o)->Ok_0;
            let a = filter_at(o) + 4;
            let d = a + 2 * o.audio_streams@.len();
            &&& c.len() > codecs_at(o)
            &&& 0 <= i < o.audio_streams@.len() ==> {
                &&& c[a + 2 * i] == ArgView::<P>::Text("-map"@)
                &&& c[a + 2 * i + 1] == ArgView::<P>::Text(
                    "0:"@ + numeral(o.audio_streams@[i].index as nat),
                )
            }
            &&& 0 <= i < o.data_streams@.len() ==> {
                &&& c[d + 2 * i] == ArgView::<P>::Text("-map"@)
                &&& c[d + 2 * i + 1] == ArgView::<P>::Text(
                    "0:"@ + numeral(o.data_streams@[i] as nat),
                )
            }
        }),
{
    opening_parts(o);
    let c = command(o)->Ok_0;
    let p = opening(o);
    let s = stream_flags(o);
    let audio = audio_indices(o.audio_streams@);
    let data = o.data_streams@;
    map_flags_len(audio);
    map_flags_len(data);
    assert forall|k: int| 0 <= k < s.len() implies #[trigger] c[p.len() + k] == ArgView::<P>::Text(
        s[k],
    ) by {
        assert(texts::<P>(s)[k] == ArgView::<P>::Text(s[k]));
    }
    if 0 <= i < audio.len() {
        map_flags_at(audio, i);
        assert(s[4 + 2 * i] == map_flags(audio)[2 * i]);
        assert(s[4 + 2 * i + 1] == map_flags(audio)[2 * i + 1]);
        assert(c[p.len() + (4 + 2 * i)] == ArgView::<P>::Text(s[4 + 2 * i]));
        assert(c[p.len() + (4 + 2 * i + 1)] == ArgView::<P>::Text(s[4 + 2 * i + 1]));
    }
    if 0 <= i < data.len() {
        map_flags_at(data, i);
        let n: int = 4 + 2 * (audio.len() as int);
        assert(s[n + 2 * i] == map_flags(data)[2 * i]);
        assert(s[n + 2 * i + 1] == map_flags(data)[2 * i + 1]);
        assert(c[p.len() + (n + 2 * i)] == ArgView::<P>::Text(s[n + 2 * i]));
        assert(c[p.len() + (n + 2 * i + 1)] == ArgView::<P>::Text(s[n + 2 * i + 1]));
    }
}

/// Metadata is kept, and the encoder is the one that was chosen, with the flags
/// of its quality right behind it. A preset follows them, unless the encoder is
/// one of VAAPI; then come the colors, the audio streams, and the copies of the
/// data streams. `libx265` is kept quiet, and the output is the last argument.
pub proof fn codecs_follow_the_streams<P>(o: EncodeOptions<P>, quality: Seq<Seq<char>>)
    requires
        quality_flags(o.encoder@, *o.quality) == Ok::<Seq<Seq<char>>, Seq<char>>(quality),
    ensures
        command(o) is Ok,
        ({
            let c = command(o)->Ok_0;
            let preset = match o.preset {
                Some(p) => if contains(o.encoder@, "vaapi"@) {
                    Seq::<Seq<char>>::empty()
                } else {
                    seq!["-preset"@, p@]
                },
                None => Seq::empty(),
            };
            let quiet = if o.encoder@ == "libx265"@ {
                seq!["-x265-params"@, "log-level=error"@]
            } else {
                Seq::<Seq<char>>::empty()
            };
            c.skip(codecs_at(o)) == texts::<P>(
                seq!["-map_metadata"@, "0"@, "-c:v"@, o.encoder@] + quality + preset + color_flags(
                    *o.stream,
                ) + all_audio_flags(o.audio_streams@) + seq!["-c:d"@, "copy"@] + quiet,
            ).push(ArgView::Path(o.output))
        }),
{
    opening_parts(o);
    let c = command(o)->Ok_0;
    map_flags_len(audio_indices(o.audio_streams@));
    map_flags_len(o.data_streams@);
    let f = codec_flags(o, quality);
    assert((opening(o) + texts::<P>(stream_flags(o))).len() == codecs_at(o));
    assert(c.skip(codecs_at(o)) =~= texts::<P>(f).push(ArgView::Path(o.output)));
}

/// One more audio stream adds its flags at the end, under the number that it
/// has in the output: it is copied, or encoded to AAC at 192 kbit/s.
pub proof fn audio_streams_have_numbers(audio: Seq<AudioStream>, a: AudioStream)
    ensures
        all_audio_flags(Seq::empty()) == Seq::<Seq<char>>::empty(),
        a.copy ==> all_audio_flags(audio.push(a)) == all_audio_flags(audio) + seq![
            "-c:a:"@ + numeral(audio.len()),
            "copy"@,
        ],
        !a.copy ==> all_audio_flags(audio.push(a)) == all_audio_flags(audio) + seq![
            "-c:a:"@ + numeral(audio.len()),
            "aac"@,
            "-b:a:"@ + numeral(audio.len()),
            "192k"@,
        ],
{
    assert(audio.push(a).drop_last() =~= audio);
}

/// A property of the colors that is known: it has a value, and this is neither
/// `unknown` nor `unspecified`.
pub open spec fn is_known(value: Option<String>) -> bool {
    value is Some && value->0@ != "unknown"@ && value->0@ != "unspecified"@
}

/// Each known property of the colors is handed on by its own flag with the
/// value that it has in the input, and those that are not known are left out.
pub proof fn known_colors_are_handed_on(s: Stream)
    ensures
        ({
            let a: int = if is_known(s.color_space) {
                2
            } else {
                0
            };
            let b: int = a + if is_known(s.color_primaries) {
                2int
            } else {
                0
            };
            let c: int = b + if is_known(s.color_transfer) {
                2int
            } else {
                0
            };
            let d: int = c + if is_known(s.color_range) {
                2int
            } else {
                0
            };
            let flags = color_flags(s);
            &&& flags.len() == d
            &&& is_known(s.color_space) ==> flags[0] == "-colorspace"@ && flags[1]
                == s.color_space->0@
            &&& is_known(s.color_primaries) ==> flags[a] == "-color_primaries"@ && flags[a + 1]
                == s.color_primaries->0@
            &&& is_known(s.color_transfer) ==> flags[b] == "-color_trc"@ && flags[b + 1]
                == s.color_transfer->0@
            &&& is_known(s.color_range) ==> flags[c] == "-color_range"@ && flags[c + 1]
                == s.color_range->0@
        }),
{
    let one = color_flag("-colorspace"@, opt_text(s.color_space));
    let two = color_flag("-color_primaries"@, opt_text(s.color_primaries));
    let three = color_flag("-color_trc"@, opt_text(s.color_transfer));
    let four = color_flag("-color_range"@, opt_text(s.color_range));
    assert(one.len() == if is_known(s.color_space) {
        2int
    } else {
        0
    });
    assert(two.len() == if is_known(s.color_primaries) {
        2int
    } else {
        0
    });
    assert(three.len() == if is_known(s.color_transfer) {
        2int
    } else {
        0
    });
    assert(four.len() == if is_known(s.color_range) {
        2int
    } else {
        0
    });
}

/// A preset that a VAAPI encoder cannot have is named in a warning. Without a
/// preset, and with any other encoder, there is none.
pub proof fn lost_presets_are_told(a: Seq<char>, b: Seq<char>, encoder: Seq<char>, p: Seq<char>)
    ensures
        preset_warning(a + "vaapi"@ + b, Some(p)) == Some(
            "Warning: VAAPI encoders do not support presets, ignoring --preset "@ + p,
        ),
        preset_flags(a + "vaapi"@ + b, Some(p)) == Seq::<Seq<char>>::empty(),
        !contains(encoder, "vaapi"@) ==> preset_warning(encoder, Some(p)) is None,
        !contains(encoder, "vaapi"@) ==> preset_flags(encoder, Some(p)) == seq!["-preset"@, p],
        preset_warning(encoder, None) is None,
        preset_flags(encoder, None) == Seq::<Seq<char>>::empty(),
{
    parts_are_contained(a, "vaapi"@, b);
}

/// A quality that an encoder refuses ends the command with the same words, and
/// nothing else does.
pub proof fn only_a_refused_quality_ends_the_command<P>(o: EncodeOptions<P>, e: Seq<char>)
    ensures
        command(o) == Err::<Seq<ArgView<P>>, Seq<char>>(e) <==> quality_flags(
            o.encoder@,
            *o.quality,
        ) == Err::<Seq<Seq<char>>, Seq<char>>(e),
        *o.quality is Bitrate ==> command(o) is Ok,
{
}

/// A failure is told with the exit status and with all that ffmpeg said. After
/// a success it is told what ffmpeg said, without the white space around it,
/// unless that is all there is.
pub proof fn messages_of_ffmpeg_are_told(status: Seq<char>, stderr: Seq<char>)
    ensures
        failure_text(status, stderr) == "ffmpeg exited with status "@ + status + ":\n"@ + stderr,
        success_note(stderr) is None <==> forall|i: int|
            0 <= i < stderr.len() ==> is_space(#[trigger] stderr[i]),
        success_note(stderr) matches Some(t) ==> t == "\nffmpeg messages:\n"@ + trim(stderr),
{
    let (a, b) = only_white_space_is_trimmed(stderr);
    let t = trim(stderr);
    if t.len() == 0 {
        assert forall|i: int| 0 <= i < stderr.len() implies is_space(#[trigger] stderr[i]) by {
            if i < a.len() {
                assert(stderr[i] == a[i]);
            } else {
                assert(stderr[i] == b[i - a.len()]);
            }
        }
    } else {
        assert(stderr[a.len() as int] == t.first());
    }
}

} // verus!
