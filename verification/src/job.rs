//! What is done with one input file.
//!
//! A [`Job`] decides; its caller does the outside work. The stage of the job
//! says which work is next. The caller does it and hands the outcome to the
//! method for that stage, which says what is to be printed and moves the job
//! on.

use vstd::prelude::*;
use vstd::string::*;

use crate::binary64::Binary64;
use crate::bytes::utf8_lossy;
use crate::crop::{
    check_aspect, detect_crop, detected, input_warning, judge_crop, region_text, region_warning,
    worth_cutting, CropRect, CropRun, CropVerdict,
};
use crate::decimal::{decimal, numeral};
use crate::encode::{EncodeEnd, EncodeOptions, RemapSpec};
use crate::encoder::{
    choice, choose_quality, find_encoder, quality_message, quality_text, usual_crf, wanted_quality,
    EncoderChoice, FfmpegInfo, Quality,
};
use crate::error::Error;
use crate::fixed::fixed;
use crate::probe::{
    audio_plan, audio_streams, audio_warning, audio_warning_text, copyable, copyable_data_streams,
    displayed, is_mp4, probe_failure_text, probe_video, rotation_text, sideways, AudioStream,
    ProbeRun, ProbedStream, ProbedVideo, Stream, VideoSpecs,
};
use crate::remap::{output_width, target_width};
use crate::text::{cat, cat3, contains, has, opt_str, opt_text, parts_are_contained};

verus! {

// ---------------------------------------------------------------------------
// Messages
// ---------------------------------------------------------------------------

/// A line to print.
#[derive(Debug)]
pub enum Message {
    /// On the standard output.
    Stdout(String),
    /// On the standard error output.
    Stderr(String),
}

/// What a message stands for.
pub enum MessageView {
    Stdout(Seq<char>),
    Stderr(Seq<char>),
}

impl View for Message {
    type V = MessageView;

    open spec fn view(&self) -> MessageView {
        match *self {
            Message::Stdout(t) => MessageView::Stdout(t@),
            Message::Stderr(t) => MessageView::Stderr(t@),
        }
    }
}

/// What a list of messages stands for.
pub open spec fn views(list: Seq<Message>) -> Seq<MessageView> {
    Seq::new(list.len(), |i: int| list[i]@)
}

/// A line on the standard output.
pub open spec fn out(t: Seq<char>) -> Seq<MessageView> {
    seq![MessageView::Stdout(t)]
}

/// A line on the standard error output.
pub open spec fn err(t: Seq<char>) -> Seq<MessageView> {
    seq![MessageView::Stderr(t)]
}

/// A line on the standard error output, where there is one.
pub open spec fn maybe_err(t: Option<Seq<char>>) -> Seq<MessageView> {
    match t {
        Some(t) => err(t),
        None => Seq::empty(),
    }
}

fn say(list: &mut Vec<Message>, m: Message)
    ensures
        views(final(list)@) == views(old(list)@) + seq![m@],
{
    list.push(m);
    assert(views(list@) =~= views(old(list)@) + seq![m@]);
}

fn say_maybe_err(list: &mut Vec<Message>, t: Option<String>)
    ensures
        views(final(list)@) == views(old(list)@) + maybe_err(opt_text(t)),
{
    match t {
        Some(t) => say(list, Message::Stderr(t)),
        None => {
            assert(views(list@) + maybe_err(None) =~= views(list@));
        },
    }
}

fn silence() -> (r: Vec<Message>)
    ensures
        views(r@) == Seq::<MessageView>::empty(),
{
    let r: Vec<Message> = Vec::new();
    assert(views(r@) =~= Seq::<MessageView>::empty());
    r
}

/// What comes of one piece of work: what is printed, and why the job ends here,
/// if it failed.
#[derive(Debug)]
pub struct Turn {
    pub said: Vec<Message>,
    pub error: Option<Error>,
}

impl Turn {
    /// The job goes on, after saying this.
    pub open spec fn goes_on(self, said: Seq<MessageView>) -> bool {
        self.error is None && views(self.said@) == said
    }

    /// The job ends with an error, after saying this.
    pub open spec fn fails(self, said: Seq<MessageView>, text: Seq<char>) -> bool {
        self.error is Some && self.error->0@ == text && views(self.said@) == said
    }
}

// ---------------------------------------------------------------------------
// Jobs
// ---------------------------------------------------------------------------

/// What the user asks for.
pub struct Settings<'a, P> {
    pub encoder: Option<&'a str>,
    pub bitrate: Option<u64>,
    pub crf: Option<u8>,
    pub preset: Option<&'a str>,
    pub squeeze: bool,
    pub auto_crop: bool,
    pub no_stretch: bool,
    pub high_quality: bool,
    pub overwrite: bool,
    pub hw_decode: bool,
    pub vaapi_device: Option<P>,
}

/// The files of a job, and how they are shown to the user.
pub struct Files<'a, P> {
    pub input: P,
    pub input_shown: &'a str,
    pub output: P,
    pub output_shown: &'a str,
    pub output_extension: Option<&'a str>,
}

/// The work that is next.
#[derive(Clone, Copy, Debug, PartialEq, Eq, Structural)]
pub enum Stage {
    /// Ask ffprobe for the video stream.
    ProbeVideo,
    /// Ask ffprobe for the data streams.
    ProbeData,
    /// Find a device that encodes.
    FindEncodeDevice,
    /// Find a device that decodes.
    FindDecodeDevice,
    /// Look at what stands at the output path.
    CheckOutput,
    /// Ask ffprobe for the audio streams.
    ProbeAudio,
    /// Look for black bars.
    DetectCrop,
    /// Write the remap table.
    WriteMaps,
    /// Encode.
    Encode,
    /// Nothing: the output is there.
    Done,
    /// Nothing: the job failed.
    Failed,
}

impl Stage {
    /// The place of a stage in the order of stages.
    pub open spec fn rank(self) -> int {
        match self {
            Stage::ProbeVideo => 0,
            Stage::ProbeData => 1,
            Stage::FindEncodeDevice => 2,
            Stage::FindDecodeDevice => 3,
            Stage::CheckOutput => 4,
            Stage::ProbeAudio => 5,
            Stage::DetectCrop => 6,
            Stage::WriteMaps => 7,
            Stage::Encode => 8,
            Stage::Done => 9,
            Stage::Failed => 10,
        }
    }
}

/// What stands at the output path.
#[derive(Clone, Copy, Debug)]
pub struct OutputCheck {
    /// The path leads to the input file.
    pub same_file: bool,
    /// Something stands there.
    pub exists: bool,
}

/// The output may be written.
pub open spec fn may_write(check: OutputCheck, overwrite: bool) -> bool {
    !check.same_file && (check.exists ==> overwrite)
}

/// Why the output may not be written, if it may not.
pub open spec fn output_refusal(
    check: OutputCheck,
    overwrite: bool,
    shown: Seq<char>,
) -> Option<Seq<char>> {
    if check.same_file {
        Some("Output file would overwrite the input file"@)
    } else if check.exists && !overwrite {
        Some("Output file "@ + shown + " already exists (use --overwrite to replace it)"@)
    } else {
        None
    }
}

/// A device, and how it is shown to the user.
#[derive(Debug)]
pub struct Device<P> {
    pub path: P,
    pub shown: String,
}

/// What is known of a job.
pub struct Job<'a, P> {
    pub settings: &'a Settings<'a, P>,
    pub info: &'a FfmpegInfo,
    pub files: &'a Files<'a, P>,
    pub stage: Stage,
    pub video: VideoSpecs,
    pub duration: Binary64,
    pub data_streams: Vec<u32>,
    pub encoder: String,
    pub vaapi_device: Option<P>,
    pub hwaccel_device: Option<P>,
    pub check: Option<OutputCheck>,
    pub audio_streams: Vec<AudioStream>,
    pub crop: Option<CropRect>,
    pub quality: Quality,
    pub remap: Option<RemapSpec<P>>,
}

/// How much finer the tables are than the picture.
pub open spec fn fineness(high_quality: bool) -> u32 {
    if high_quality {
        2
    } else {
        1
    }
}

impl<'a, P> Job<'a, P> {
    /// The video stream.
    pub open spec fn stream(&self) -> Stream {
        self.video.streams@[0]
    }

    /// The encoder works on a VAAPI device.
    pub open spec fn needs_device(&self) -> bool {
        contains(self.encoder@, "vaapi"@)
    }

    /// The width of the picture that is stretched or squeezed.
    pub open spec fn picture_width(&self) -> u32 {
        match self.crop {
            Some(c) => c.w,
            None => self.stream().width,
        }
    }

    /// The height of the picture that is stretched or squeezed.
    pub open spec fn picture_height(&self) -> u32 {
        match self.crop {
            Some(c) => c.h,
            None => self.stream().height,
        }
    }

    /// What holds of a job at every stage:
    ///
    /// - there is a video stream, once it was asked for;
    /// - the encoder is one that ffmpeg has, and it has a device if and only if
    ///   it works on one;
    /// - the input is decoded on a device only if that was asked for;
    /// - the work for an option is done only if the option was asked for;
    /// - past the check of the output it may be written;
    /// - the picture is cropped only if that was asked for;
    /// - what is encoded is either cropped and not remapped, if that was asked
    ///   for, or remapped to the width for its height.
    pub open spec fn valid(&self) -> bool {
        let rank = self.stage.rank();
        let s = *self.settings;
        self.stage == Stage::Failed || {
            &&& rank >= 1 ==> self.video.streams@.len() > 0
            &&& rank >= 2 ==> self.info.names().contains(self.encoder@)
            &&& rank == 2 ==> self.needs_device()
            &&& rank == 3 ==> s.hw_decode
            &&& rank == 6 ==> s.auto_crop
            &&& rank < 3 ==> self.vaapi_device is None
            &&& rank >= 3 ==> (self.vaapi_device is Some <==> self.needs_device())
            &&& self.hwaccel_device is Some ==> s.hw_decode
            &&& rank >= 5 ==> self.check is Some && may_write(self.check->0, s.overwrite)
            &&& rank < 7 ==> self.crop is None
            &&& self.crop is Some ==> s.auto_crop
            &&& rank >= 7 ==> self.quality == wanted_quality(s.bitrate, s.crf, self.encoder@)
            &&& rank < 8 ==> self.remap is None
            &&& rank == 7 ==> !s.no_stretch
            &&& rank >= 8 && s.no_stretch ==> self.crop is Some && self.remap is None
            &&& rank >= 8 && !s.no_stretch ==> {
                &&& self.remap is Some
                &&& self.remap->0.out_width == target_width(self.picture_height(), s.squeeze)
                &&& self.remap->0.out_height == self.picture_height()
                &&& self.remap->0.supersample == fineness(s.high_quality)
            }
        }
    }
}

// ---------------------------------------------------------------------------
// What is said before encoding
// ---------------------------------------------------------------------------

/// The input, as it is named before encoding.
pub open spec fn input_text(
    verb: Seq<char>,
    shown: Seq<char>,
    codec: Seq<char>,
    duration: Binary64,
) -> Seq<char> {
    verb + shown + " (codec: "@ + codec + ", duration: "@ + numeral(duration.whole() as nat)
        + "s) "@
}

/// A size.
pub open spec fn size_text(width: u32, height: u32) -> Seq<char> {
    numeral(width as nat) + "x"@ + numeral(height as nat)
}

fn input_words(verb: &str, shown: &str, codec: &str, duration: Binary64) -> (r: String)
    ensures
        r@ == input_text(verb@, shown@, codec@, duration),
{
    let mut r: String = cat(verb, shown);
    r.append(" (codec: ");
    r.append(codec);
    r.append(", duration: ");
    r.append(decimal(duration.to_whole()).as_str());
    r.append("s) ");
    r
}

fn size_words(width: u32, height: u32) -> (r: String)
    ensures
        r@ == size_text(width, height),
{
    cat3(decimal(width as u64).as_str(), "x", decimal(height as u64).as_str())
}

impl<'a, P> Job<'a, P> {
    /// What is said of a video that is only cropped.
    pub open spec fn cropping_text(&self, c: CropRect) -> Seq<char> {
        input_text(
            "Cropping "@,
            self.files.input_shown@,
            self.stream().codec_name@,
            self.duration,
        ) + "from "@ + size_text(self.stream().width, self.stream().height) + " to "@ + size_text(
            c.w,
            c.h,
        ) + " | crop-only"@
    }

    /// What is said of a video that is stretched or squeezed.
    pub open spec fn scaling_text(&self) -> Seq<char> {
        let head = input_text(
            "Scaling "@,
            self.files.input_shown@,
            self.stream().codec_name@,
            self.duration,
        );
        let to = size_text(
            target_width(self.picture_height(), self.settings.squeeze) as u32,
            self.picture_height(),
        );
        match self.crop {
            Some(c) => head + "crop "@ + size_text(c.w, c.h) + " -> "@ + to + " | auto-crop"@,
            None => head + "from "@ + size_text(self.stream().width, self.stream().height)
                + " to "@ + to + " | squeeze: "@ + if self.settings.squeeze {
                "true"@
            } else {
                "false"@
            },
        }
    }
}

// ---------------------------------------------------------------------------
// The stages
// ---------------------------------------------------------------------------

/// What is said of the audio streams: a warning for each that is not copied.
pub open spec fn audio_warnings(audio: Seq<AudioStream>) -> Seq<MessageView>
    decreases audio.len(),
{
    if audio.len() == 0 {
        Seq::empty()
    } else {
        audio_warnings(audio.drop_last()) + if audio.last().copy {
            Seq::empty()
        } else {
            err(audio_warning_text(audio.last().codec_name@, audio.last().index))
        }
    }
}

fn warn_of_audio(audio: &Vec<AudioStream>) -> (r: Vec<Message>)
    ensures
        views(r@) == audio_warnings(audio@),
{
    let mut r: Vec<Message> = silence();
    let mut i: usize = 0;
    assert(audio@.take(0) =~= Seq::<AudioStream>::empty());
    while i < audio.len()
        invariant
            i <= audio@.len(),
            views(r@) == audio_warnings(audio@.take(i as int)),
        decreases audio@.len() - i,
    {
        assert(audio@.take(i + 1).drop_last() =~= audio@.take(i as int));
        say_maybe_err(&mut r, audio_warning(&audio[i]));
        i += 1;
    }
    assert(audio@.take(i as int) =~= audio@);
    r
}

impl<'a, P: Copy> Job<'a, P> {
    /// A job of which nothing is done yet.
    pub fn new(
        settings: &'a Settings<'a, P>,
        info: &'a FfmpegInfo,
        files: &'a Files<'a, P>,
    ) -> (r: Job<'a, P>)
        ensures
            r.settings == settings,
            r.info == info,
            r.files == files,
            r.stage == Stage::ProbeVideo,
            r.valid(),
    {
        Job {
            settings,
            info,
            files,
            stage: Stage::ProbeVideo,
            video: VideoSpecs { streams: Vec::new(), format: None },
            duration: Binary64 { bits: 0 },
            data_streams: Vec::new(),
            encoder: "".to_owned(),
            vaapi_device: None,
            hwaccel_device: None,
            check: None,
            audio_streams: Vec::new(),
            crop: None,
            quality: Quality::Crf(0),
            remap: None,
        }
    }

    fn fail(&mut self, said: Vec<Message>, error: Error) -> (r: Turn)
        ensures
            *final(self) == (Job { stage: Stage::Failed, ..*old(self) }),
            r.fails(views(said@), error@),
    {
        self.stage = Stage::Failed;
        Turn { said, error: Some(error) }
    }

    /// ffprobe was asked for the video stream.
    pub fn video_probed(&mut self, run: ProbeRun<VideoSpecs>) -> (r: Turn)
        requires
            old(self).stage == Stage::ProbeVideo,
            old(self).valid(),
        ensures
            final(self).valid(),
            final(self).stage.rank() > old(self).stage.rank(),
            *final(self) == (Job {
                stage: final(self).stage,
                video: final(self).video,
                ..*old(self)
            }),
            match run {
                ProbeRun::Failed(stderr) => {
                    &&& final(self).stage == Stage::Failed
                    &&& r.fails(Seq::empty(), probe_failure_text(utf8_lossy(stderr@)))
                },
                ProbeRun::Done(specs) => if specs.streams@.len() == 0 {
                    &&& final(self).stage == Stage::Failed
                    &&& r.fails(Seq::empty(), "No video streams found in input file"@)
                } else {
                    let stream = displayed(specs.streams@[0], specs.format);
                    let rotation = specs.streams@[0].rotation();
                    &&& final(self).stage == Stage::ProbeData
                    &&& final(self).video.format == specs.format
                    &&& final(self).video.streams@ == specs.streams@.update(0, stream)
                    &&& r.goes_on(
                        if sideways(rotation) {
                            out(rotation_text(rotation, stream.width, stream.height))
                        } else {
                            Seq::empty()
                        },
                    )
                },
            },
    {
        let mut said: Vec<Message> = silence();
        match probe_video(run) {
            Ok(v) => {
                let ProbedVideo { specs, note } = v;
                if let Some(n) = note {
                    say(&mut said, Message::Stdout(n));
                }
                self.video = specs;
                self.stage = Stage::ProbeData;
                Turn { said, error: None }
            },
            Err(e) => self.fail(said, e),
        }
    }

    /// The stage after the choice of an encoder.
    pub open spec fn after_choice(encoder: Seq<char>, hw_decode: bool) -> Stage {
        if contains(encoder, "vaapi"@) {
            Stage::FindEncodeDevice
        } else if hw_decode {
            Stage::FindDecodeDevice
        } else {
            Stage::CheckOutput
        }
    }

    /// ffprobe was asked for the data streams. `read` is the number that the
    /// text of the duration of the video reads as.
    pub fn data_probed(
        &mut self,
        run: ProbeRun<Vec<ProbedStream>>,
        read: Option<Binary64>,
    ) -> (r: Turn)
        requires
            old(self).stage == Stage::ProbeData,
            old(self).valid(),
        ensures
            final(self).valid(),
            final(self).stage.rank() > old(self).stage.rank(),
            *final(self) == (Job {
                stage: final(self).stage,
                duration: final(self).duration,
                data_streams: final(self).data_streams,
                encoder: final(self).encoder,
                ..*old(self)
            }),
            match run {
                ProbeRun::Failed(stderr) => {
                    &&& final(self).stage == Stage::Failed
                    &&& r.fails(Seq::empty(), probe_failure_text(utf8_lossy(stderr@)))
                },
                ProbeRun::Done(streams) => match choice(
                    opt_str(old(self).settings.encoder),
                    old(self).info.names(),
                    old(self).stream().codec_name@,
                ) {
                    Ok(c) => {
                        &&& final(self).stage == Self::after_choice(
                            c.0,
                            old(self).settings.hw_decode,
                        )
                        &&& final(self).duration == old(self).stream().seconds(read)
                        &&& final(self).data_streams@ == copyable(streams@)
                        &&& final(self).encoder@ == c.0
                        &&& r.goes_on(maybe_err(c.1))
                    },
                    Err(e) => {
                        &&& final(self).stage == Stage::Failed
                        &&& r.fails(Seq::empty(), e)
                    },
                },
            },
    {
        let mut said: Vec<Message> = silence();
        let data: Vec<u32> = match copyable_data_streams(run) {
            Ok(d) => d,
            Err(e) => return self.fail(said, e),
        };
        match find_encoder(self.settings.encoder, self.info, &self.video) {
            Ok(c) => {
                let EncoderChoice { encoder, warning } = c;
                say_maybe_err(&mut said, warning);
                assert(views(said@) =~= maybe_err(opt_text(warning)));
                self.duration = self.video.streams[0].duration_secs(read);
                self.data_streams = data;
                self.stage =
                if has(encoder.as_str(), "vaapi") {
                    Stage::FindEncodeDevice
                } else if self.settings.hw_decode {
                    Stage::FindDecodeDevice
                } else {
                    Stage::CheckOutput
                };
                self.encoder = encoder;
                Turn { said, error: None }
            },
            Err(e) => self.fail(said, e),
        }
    }

    /// The search for a device that encodes has ended.
    pub fn encode_device_found(&mut self, device: Result<Device<P>, Error>) -> (r: Turn)
        requires
            old(self).stage == Stage::FindEncodeDevice,
            old(self).valid(),
        ensures
            final(self).valid(),
            final(self).stage.rank() > old(self).stage.rank(),
            *final(self) == (Job {
                stage: final(self).stage,
                vaapi_device: final(self).vaapi_device,
                ..*old(self)
            }),
            match device {
                Ok(d) => {
                    &&& final(self).stage == if old(self).settings.hw_decode {
                        Stage::FindDecodeDevice
                    } else {
                        Stage::CheckOutput
                    }
                    &&& final(self).vaapi_device == Some(d.path)
                    &&& r.goes_on(out("Using VAAPI device: "@ + d.shown@))
                },
                Err(e) => {
                    &&& final(self).stage == Stage::Failed
                    &&& r.fails(Seq::empty(), e@)
                },
            },
    {
        let mut said: Vec<Message> = silence();
        match device {
            Ok(d) => {
                say(&mut said, Message::Stdout(cat("Using VAAPI device: ", d.shown.as_str())));
                self.vaapi_device = Some(d.path);
                self.stage =
                if self.settings.hw_decode {
                    Stage::FindDecodeDevice
                } else {
                    Stage::CheckOutput
                };
                Turn { said, error: None }
            },
            Err(e) => self.fail(said, e),
        }
    }

    /// The search for a device that decodes has ended.
    pub fn decode_device_found(&mut self, device: Option<Device<P>>) -> (r: Turn)
        requires
            old(self).stage == Stage::FindDecodeDevice,
            old(self).valid(),
        ensures
            final(self).valid(),
            final(self).stage.rank() > old(self).stage.rank(),
            *final(self) == (Job {
                stage: Stage::CheckOutput,
                hwaccel_device: match device {
                    Some(d) => Some(d.path),
                    None => None,
                },
                ..*old(self)
            }),
            r.goes_on(
                match device {
                    Some(d) => out("Using VAAPI hardware decoding on "@ + d.shown@),
                    None => err(
                        "Warning: no VAAPI device can hardware-decode this file, using software decoding"@,
                    ),
                },
            ),
    {
        let mut said: Vec<Message> = silence();
        match device {
            Some(d) => {
                say(
                    &mut said,
                    Message::Stdout(cat("Using VAAPI hardware decoding on ", d.shown.as_str())),
                );
                self.hwaccel_device = Some(d.path);
            },
            None => {
                say(
                    &mut said,
                    Message::Stderr(
                        "Warning: no VAAPI device can hardware-decode this file, using software decoding".to_owned(),
                    ),
                );
                self.hwaccel_device = None;
            },
        }
        self.stage = Stage::CheckOutput;
        Turn { said, error: None }
    }

    /// It is known what stands at the output path.
    pub fn output_checked(&mut self, check: OutputCheck) -> (r: Turn)
        requires
            old(self).stage == Stage::CheckOutput,
            old(self).valid(),
        ensures
            final(self).valid(),
            final(self).stage.rank() > old(self).stage.rank(),
            *final(self) == (Job {
                stage: final(self).stage,
                check: Some(check),
                ..*old(self)
            }),
            match output_refusal(
                check,
                old(self).settings.overwrite,
                old(self).files.output_shown@,
            ) {
                Some(text) => {
                    &&& final(self).stage == Stage::Failed
                    &&& r.fails(Seq::empty(), text)
                },
                None => {
                    &&& final(self).stage == Stage::ProbeAudio
                    &&& r.goes_on(Seq::empty())
                },
            },
    {
        let said: Vec<Message> = silence();
        self.check = Some(check);
        if check.same_file {
            return self.fail(said, Error::of("Output file would overwrite the input file"));
        }
        if check.exists && !self.settings.overwrite {
            let m: String = cat3(
                "Output file ",
                self.files.output_shown,
                " already exists (use --overwrite to replace it)",
            );
            return self.fail(said, Error::new(m));
        }
        self.stage = Stage::ProbeAudio;
        Turn { said, error: None }
    }

    /// Whether and how a job goes on once it is known what to crop, after `said`.
    pub open spec fn settled(
        before: Job<'a, P>,
        crop: Option<CropRect>,
        said: Seq<MessageView>,
        after: Job<'a, P>,
        r: Turn,
    ) -> bool {
        let s = *before.settings;
        let quality = wanted_quality(s.bitrate, s.crf, before.encoder@);
        &&& after == Job {
            stage: if !s.no_stretch {
                Stage::WriteMaps
            } else if crop is Some {
                Stage::Encode
            } else {
                Stage::Failed
            },
            crop,
            quality,
            ..before
        }
        &&& if s.no_stretch {
            match crop {
                Some(c) => r.goes_on(
                    said + out(before.cropping_text(c)) + out(
                        quality_text(before.encoder@, quality),
                    ),
                ),
                None => r.fails(said, "--no-stretch used but no black bars were detected"@),
            }
        } else if crop is None {
            r.goes_on(
                said + maybe_err(
                    input_warning(before.stream().width, before.stream().height, s.squeeze),
                ),
            )
        } else {
            r.goes_on(said)
        }
    }

    fn settle(&mut self, crop: Option<CropRect>, said: Vec<Message>) -> (r: Turn)
        requires
            5 <= old(self).stage.rank() <= 6,
            crop is Some ==> old(self).settings.auto_crop,
            old(self).valid(),
        ensures
            final(self).valid(),
            final(self).stage.rank() > old(self).stage.rank(),
            Self::settled(*old(self), crop, views(said@), *final(self), r),
    {
        let mut said: Vec<Message> = said;
        let ghost before = views(said@);
        self.quality =
        choose_quality(self.settings.bitrate, self.settings.crf, self.encoder.as_str());
        self.crop = crop;
        let stream: &Stream = &self.video.streams[0];
        if self.settings.no_stretch {
            match crop {
                Some(c) => {
                    let mut m: String = input_words(
                        "Cropping ",
                        self.files.input_shown,
                        stream.codec_name.as_str(),
                        self.duration,
                    );
                    m.append("from ");
                    m.append(size_words(stream.width, stream.height).as_str());
                    m.append(" to ");
                    m.append(size_words(c.w, c.h).as_str());
                    m.append(" | crop-only");
                    say(&mut said, Message::Stdout(m));
                    say(
                        &mut said,
                        Message::Stdout(quality_message(self.encoder.as_str(), &self.quality)),
                    );
                    self.stage = Stage::Encode;
                    Turn { said, error: None }
                },
                None => self.fail(
                    said,
                    Error::of("--no-stretch used but no black bars were detected"),
                ),
            }
        } else {
            if crop.is_none() {
                let warning: Option<String> = check_aspect(
                    stream.width,
                    stream.height,
                    self.settings.squeeze,
                );
                say_maybe_err(&mut said, warning);
            }
            self.stage = Stage::WriteMaps;
            Turn { said, error: None }
        }
    }

    /// ffprobe was asked for the audio streams.
    pub fn audio_probed(&mut self, run: ProbeRun<Vec<ProbedStream>>) -> (r: Turn)
        requires
            old(self).stage == Stage::ProbeAudio,
            old(self).valid(),
        ensures
            final(self).valid(),
            final(self).stage.rank() > old(self).stage.rank(),
            match run {
                ProbeRun::Failed(stderr) => {
                    &&& *final(self) == (Job { stage: Stage::Failed, ..*old(self) })
                    &&& r.fails(Seq::empty(), probe_failure_text(utf8_lossy(stderr@)))
                },
                ProbeRun::Done(streams) => {
                    let audio = final(self).audio_streams;
                    let said = audio_warnings(audio@);
                    &&& audio_plan(
                        streams@,
                        is_mp4(opt_str(old(self).files.output_extension)),
                        audio@,
                    )
                    &&& if old(self).settings.auto_crop {
                        &&& *final(self) == (Job {
                            stage: Stage::DetectCrop,
                            audio_streams: audio,
                            ..*old(self)
                        })
                        &&& r.goes_on(said + out("Detecting black bars..."@))
                    } else {
                        Self::settled(
                            (Job { audio_streams: audio, ..*old(self) }),
                            None,
                            said,
                            *final(self),
                            r,
                        )
                    }
                },
            },
    {
        match audio_streams(run, self.files.output_extension) {
            Ok(audio) => {
                let mut said: Vec<Message> = warn_of_audio(&audio);
                self.audio_streams = audio;
                if self.settings.auto_crop {
                    say(&mut said, Message::Stdout("Detecting black bars...".to_owned()));
                    self.stage = Stage::DetectCrop;
                    Turn { said, error: None }
                } else {
                    self.settle(None, said)
                }
            },
            Err(e) => self.fail(silence(), e),
        }
    }

    /// What is said of the rectangle between the black bars.
    pub open spec fn crop_said(c: CropRect, width: u32, height: u32) -> Seq<MessageView> {
        if c.w == width && c.h == height {
            out("No black bars detected, proceeding without cropping.\n"@)
        } else {
            out(region_text(c)) + maybe_err(region_warning(c)) + out(""@)
        }
    }

    /// ffmpeg has looked for black bars.
    pub fn crop_detected(&mut self, run: CropRun) -> (r: Turn)
        requires
            old(self).stage == Stage::DetectCrop,
            old(self).valid(),
        ensures
            final(self).valid(),
            final(self).stage.rank() > old(self).stage.rank(),
            ({
                let width = old(self).stream().width;
                let height = old(self).stream().height;
                let found = match run {
                    CropRun::Failed(stderr) => Err(
                        "ffmpeg cropdetect failed:\n"@ + utf8_lossy(stderr@),
                    ),
                    CropRun::Done(stderr) => detected(utf8_lossy(stderr@)),
                };
                match found {
                    Ok(c) => Self::settled(
                        *old(self),
                        worth_cutting(c, width, height),
                        Self::crop_said(c, width, height),
                        *final(self),
                        r,
                    ),
                    Err(e) => {
                        &&& *final(self) == (Job { stage: Stage::Failed, ..*old(self) })
                        &&& r.fails(Seq::empty(), e)
                    },
                }
            }),
    {
        let mut said: Vec<Message> = silence();
        match detect_crop(run) {
            Ok(c) => {
                let width: u32 = self.video.streams[0].width;
                let height: u32 = self.video.streams[0].height;
                let verdict: CropVerdict = judge_crop(c, width, height);
                let CropVerdict { crop, note, warning } = verdict;
                say(&mut said, Message::Stdout(note));
                if crop.is_some() {
                    say_maybe_err(&mut said, warning);
                    say(&mut said, Message::Stdout("".to_owned()));
                }
                assert(views(said@) =~= Self::crop_said(c, width, height));
                self.settle(crop, said)
            },
            Err(e) => self.fail(said, e),
        }
    }

    /// The width, the height and the fineness of the remap table to write.
    pub fn table_size(&self) -> (r: (u32, u32, u32))
        requires
            self.stage == Stage::WriteMaps,
            self.valid(),
        ensures
            r == (
                self.picture_width(),
                self.picture_height(),
                fineness(self.settings.high_quality),
            ),
    {
        let fine: u32 = if self.settings.high_quality {
            2
        } else {
            1
        };
        match self.crop {
            Some(c) => (c.w, c.h, fine),
            None => (self.video.streams[0].width, self.video.streams[0].height, fine),
        }
    }

    /// The remap table is written.
    pub fn maps_written(&mut self, x_path: P, y_path: P) -> (r: Turn)
        requires
            old(self).stage == Stage::WriteMaps,
            old(self).valid(),
        ensures
            final(self).valid(),
            final(self).stage.rank() > old(self).stage.rank(),
            *final(self) == (Job {
                stage: Stage::Encode,
                remap: Some(
                    RemapSpec {
                        x_path,
                        y_path,
                        out_width: target_width(
                            old(self).picture_height(),
                            old(self).settings.squeeze,
                        ) as u32,
                        out_height: old(self).picture_height(),
                        supersample: fineness(old(self).settings.high_quality),
                    },
                ),
                ..*old(self)
            }),
            r.goes_on(
                out(old(self).scaling_text()) + out(
                    quality_text(old(self).encoder@, old(self).quality),
                ),
            ),
    {
        let mut said: Vec<Message> = silence();
        let (_, height, supersample): (u32, u32, u32) = self.table_size();
        let out_width: u32 = output_width(height, self.settings.squeeze);
        let stream: &Stream = &self.video.streams[0];
        let mut m: String = input_words(
            "Scaling ",
            self.files.input_shown,
            stream.codec_name.as_str(),
            self.duration,
        );
        match self.crop {
            Some(c) => {
                m.append("crop ");
                m.append(size_words(c.w, c.h).as_str());
                m.append(" -> ");
                m.append(size_words(out_width, height).as_str());
                m.append(" | auto-crop");
            },
            None => {
                m.append("from ");
                m.append(size_words(stream.width, stream.height).as_str());
                m.append(" to ");
                m.append(size_words(out_width, height).as_str());
                m.append(" | squeeze: ");
                m.append(
                    if self.settings.squeeze {
                        "true"
                    } else {
                        "false"
                    },
                );
            },
        }
        say(&mut said, Message::Stdout(m));
        say(&mut said, Message::Stdout(quality_message(self.encoder.as_str(), &self.quality)));
        self.remap = Some(RemapSpec { x_path, y_path, out_width, out_height: height, supersample });
        self.stage = Stage::Encode;
        assert(views(said@) =~= out(old(self).scaling_text()) + out(
            quality_text(old(self).encoder@, old(self).quality),
        ));
        Turn { said, error: None }
    }

    /// What to encode, and how.
    pub fn options<'b>(&'b self) -> (r: EncodeOptions<'b, P>)
        requires
            self.stage == Stage::Encode,
            self.valid(),
        ensures
            r.input == self.files.input,
            r.output == self.files.output,
            r.encoder@ == self.encoder@,
            *r.quality == self.quality,
            r.preset == self.settings.preset,
            *r.stream == self.stream(),
            r.crop == match self.crop {
                Some(c) => Some(&c),
                None => None,
            },
            r.remap == self.remap,
            r.audio_streams@ == self.audio_streams@,
            r.data_streams@ == self.data_streams@,
            r.vaapi_device == self.vaapi_device,
            r.hwaccel_device == self.hwaccel_device,
    {
        EncodeOptions {
            input: self.files.input,
            output: self.files.output,
            encoder: self.encoder.as_str(),
            quality: &self.quality,
            preset: self.settings.preset,
            stream: &self.video.streams[0],
            crop: match &self.crop {
                Some(c) => Some(c),
                None => None,
            },
            remap: match &self.remap {
                Some(m) => Some(
                    RemapSpec {
                        x_path: m.x_path,
                        y_path: m.y_path,
                        out_width: m.out_width,
                        out_height: m.out_height,
                        supersample: m.supersample,
                    },
                ),
                None => None,
            },
            audio_streams: self.audio_streams.as_slice(),
            data_streams: self.data_streams.as_slice(),
            vaapi_device: self.vaapi_device,
            hwaccel_device: self.hwaccel_device,
        }
    }

    /// ffmpeg has ended.
    pub fn encoded(&mut self, end: EncodeEnd) -> (r: Turn)
        requires
            old(self).stage == Stage::Encode,
            old(self).valid(),
        ensures
            final(self).valid(),
            final(self).stage.rank() > old(self).stage.rank(),
            match end {
                EncodeEnd::Failed(e) => {
                    &&& *final(self) == (Job { stage: Stage::Failed, ..*old(self) })
                    &&& r.fails(Seq::empty(), e@)
                },
                EncodeEnd::Finished(note) => {
                    &&& *final(self) == (Job { stage: Stage::Done, ..*old(self) })
                    &&& r.goes_on(
                        maybe_err(opt_text(note)) + err(""@) + out(
                            "Done! Output file: "@ + old(self).files.output_shown@ + "\n"@,
                        ),
                    )
                },
            },
    {
        let mut said: Vec<Message> = silence();
        match end {
            EncodeEnd::Failed(e) => self.fail(said, e),
            EncodeEnd::Finished(note) => {
                say_maybe_err(&mut said, note);
                say(&mut said, Message::Stderr("".to_owned()));
                say(
                    &mut said,
                    Message::Stdout(cat3("Done! Output file: ", self.files.output_shown, "\n")),
                );
                self.stage = Stage::Done;
                assert(views(said@) =~= maybe_err(opt_text(note)) + err(""@) + out(
                    "Done! Output file: "@ + self.files.output_shown@ + "\n"@,
                ));
                Turn { said, error: None }
            },
        }
    }
}

// ---------------------------------------------------------------------------
// Laws
// ---------------------------------------------------------------------------

/// No job comes to encode over its own input, and none over another file unless
/// that was asked for.
pub proof fn encoding_spares_other_files<P>(job: Job<P>)
    requires
        job.valid(),
        job.stage == Stage::Encode || job.stage == Stage::Done,
    ensures
        job.check is Some,
        !job.check->0.same_file,
        job.check->0.exists ==> job.settings.overwrite,
{
}

/// High quality does not change the size of the output: two jobs on pictures of
/// one height, both stretched or both squeezed, come to one size.
pub proof fn quality_keeps_the_size<P>(a: Job<P>, b: Job<P>)
    requires
        a.valid(),
        b.valid(),
        a.stage == Stage::Encode,
        b.stage == Stage::Encode,
        !a.settings.no_stretch,
        !b.settings.no_stretch,
        a.settings.squeeze == b.settings.squeeze,
        a.picture_height() == b.picture_height(),
    ensures
        a.remap->0.out_width == b.remap->0.out_width,
        a.remap->0.out_height == b.remap->0.out_height,
{
}

/// The output has the greatest even width that its shape allows at the height of
/// the picture: 16:9, or 4:3 where it is squeezed. This is so as long as 32 bits
/// hold the width.
pub proof fn output_has_its_shape<P>(job: Job<P>)
    requires
        job.valid(),
        job.stage == Stage::Encode,
        !job.settings.no_stretch,
        !job.settings.squeeze ==> job.picture_height() as int * 16 / 9 <= u32::MAX,
        job.settings.squeeze ==> job.picture_height() as int * 4 / 3 <= u32::MAX,
    ensures
        job.remap->0.out_height == job.picture_height(),
        job.remap->0.out_width % 2 == 0,
        !job.settings.squeeze ==> 0 <= 16 * job.picture_height() - 9 * job.remap->0.out_width < 18,
        job.settings.squeeze ==> 0 <= 4 * job.picture_height() - 3 * job.remap->0.out_width < 6,
{
}

/// The output is refused if it is the input, or if something stands there that
/// is not to be overwritten, and in no other case. That it is the input is said
/// first.
pub proof fn output_is_refused_only_to_spare_a_file(
    check: OutputCheck,
    overwrite: bool,
    shown: Seq<char>,
)
    ensures
        !may_write(check, overwrite) <==> check.same_file || (check.exists && !overwrite),
        output_refusal(check, overwrite, shown) is None <==> may_write(check, overwrite),
        check.same_file ==> output_refusal(check, overwrite, shown) == Some(
            "Output file would overwrite the input file"@,
        ),
        !check.same_file && check.exists ==> output_refusal(check, false, shown) == Some(
            "Output file "@ + shown + " already exists (use --overwrite to replace it)"@,
        ),
{
}

/// Tables are twice as fine as the picture for high quality, and else as fine
/// as the picture. What they are made for is the rectangle that is cut out,
/// where there is one, and else the whole picture.
pub proof fn tables_suit_the_picture<P>(job: Job<P>, c: CropRect)
    ensures
        fineness(true) == 2,
        fineness(false) == 1,
        job.crop == Some(c) ==> job.picture_width() == c.w && job.picture_height() == c.h,
        job.crop is None ==> job.picture_width() == job.video.streams@[0].width
            && job.picture_height() == job.video.streams@[0].height,
{
}

/// A device to encode with is looked for if and only if `vaapi` stands in the
/// name of the encoder. Without it, a device to decode with is looked for if
/// that was asked for, and else the output is looked at.
pub proof fn devices_are_looked_for_where_needed<P: Copy>(
    a: Seq<char>,
    b: Seq<char>,
    encoder: Seq<char>,
    hw_decode: bool,
)
    ensures
        Job::<P>::after_choice(a + "vaapi"@ + b, hw_decode) == Stage::FindEncodeDevice,
        !contains(encoder, "vaapi"@) ==> Job::<P>::after_choice(encoder, true)
            == Stage::FindDecodeDevice,
        !contains(encoder, "vaapi"@) ==> Job::<P>::after_choice(encoder, false)
            == Stage::CheckOutput,
{
    parts_are_contained(a, "vaapi"@, b);
}

/// What is encoded has the quality that was asked for: the bitrate, where there
/// is one; else the rate factor, where there is one; else what is usual for
/// the encoder.
pub proof fn encoding_has_the_quality_asked_for<P>(job: Job<P>)
    requires
        job.valid(),
        job.stage == Stage::Encode || job.stage == Stage::Done,
    ensures
        job.settings.bitrate matches Some(b) ==> job.quality == Quality::Bitrate(b),
        job.settings.bitrate is None ==> {
            &&& job.settings.crf matches Some(c) ==> job.quality == Quality::Crf(c)
            &&& job.settings.crf is None ==> job.quality == Quality::Crf(
                usual_crf(job.encoder@),
            )
        },
{
}

/// What is encoded is cropped only on request. Without stretching it is the
/// rectangle itself; else it is remapped, with tables twice as fine for high
/// quality. It is encoded on a device if and only if the encoder needs one, and
/// decoded on a device only on request.
pub proof fn encoding_does_what_was_asked_for<P>(job: Job<P>)
    requires
        job.valid(),
        job.stage == Stage::Encode || job.stage == Stage::Done,
    ensures
        job.crop is Some ==> job.settings.auto_crop,
        job.settings.no_stretch ==> job.crop is Some && job.remap is None,
        !job.settings.no_stretch ==> job.remap is Some,
        job.remap is Some ==> job.remap->0.supersample == if job.settings.high_quality {
            2int
        } else {
            1
        },
        job.remap is Some && job.crop is Some ==> job.remap->0.out_height == job.crop->0.h,
        job.remap is Some && job.crop is None ==> job.remap->0.out_height
            == job.video.streams@[0].height,
        job.vaapi_device is Some <==> contains(job.encoder@, "vaapi"@),
        job.hwaccel_device is Some ==> job.settings.hw_decode,
        exists|i: int|
            0 <= i < job.info.encoders@.len() && (#[trigger] job.info.encoders@[i])@
                == job.encoder@,
{
    let names = job.info.names();
    let i = choose|i: int| 0 <= i < names.len() && names[i] == job.encoder@;
    assert(job.info.encoders@[i]@ == job.encoder@);
}

/// Once it is known what to crop, a job that stretches goes on to the tables. A
/// job that only crops goes on to encode, unless there is nothing to crop: then
/// it fails. An uncropped picture of an unexpected shape is warned of.
pub proof fn nothing_to_crop_ends_a_job_that_only_crops<P: Copy>(
    before: Job<P>,
    crop: Option<CropRect>,
    said: Seq<MessageView>,
    after: Job<P>,
    r: Turn,
)
    requires
        Job::settled(before, crop, said, after, r),
    ensures
        after.crop == crop,
        !before.settings.no_stretch ==> after.stage == Stage::WriteMaps && r.error is None,
        before.settings.no_stretch && crop is Some ==> after.stage == Stage::Encode && r.error
            is None,
        before.settings.no_stretch && crop is None ==> {
            &&& after.stage == Stage::Failed
            &&& r.error is Some
            &&& r.error->0@ == "--no-stretch used but no black bars were detected"@
        },
        after.encoder == before.encoder,
        after.audio_streams == before.audio_streams,
        after.data_streams == before.data_streams,
        after.video == before.video,
        after.vaapi_device == before.vaapi_device,
        after.hwaccel_device == before.hwaccel_device,
{
}

/// One more audio stream adds a warning at the end, with its codec and its
/// index, if it is not copied, and adds nothing otherwise.
pub proof fn audio_encoded_anew_is_warned_of(audio: Seq<AudioStream>, a: AudioStream)
    ensures
        audio_warnings(Seq::empty()) == Seq::<MessageView>::empty(),
        a.copy ==> audio_warnings(audio.push(a)) == audio_warnings(audio),
        !a.copy ==> audio_warnings(audio.push(a)) == audio_warnings(audio).push(
            MessageView::Stderr(
                "Warning: audio codec '"@ + a.codec_name@ + "' (stream #"@ + numeral(
                    a.index as nat,
                ) + ") is not supported by the mp4 muxer, re-encoding to AAC"@,
            ),
        ),
{
    assert(audio.push(a).drop_last() =~= audio);
    let text = audio_warning_text(a.codec_name@, a.index);
    assert(audio_warnings(audio) + err(text) =~= audio_warnings(audio).push(
        MessageView::Stderr(text),
    ));
    assert(audio_warnings(audio) + Seq::<MessageView>::empty() =~= audio_warnings(audio));
}

/// A rectangle of the size of the picture leaves nothing to crop, wherever it
/// lies. Any other one is told, with its warning and an empty line.
pub proof fn whole_pictures_are_not_cropped<P: Copy>(c: CropRect, width: u32, height: u32)
    ensures
        c.w == width && c.h == height ==> Job::<P>::crop_said(c, width, height) == seq![
            MessageView::Stdout("No black bars detected, proceeding without cropping.\n"@),
        ],
        c.w != width || c.h != height ==> {
            let said = Job::<P>::crop_said(c, width, height);
            &&& said.first() == MessageView::Stdout(
                "Detected content region: "@ + numeral(c.w as nat) + "x"@ + numeral(c.h as nat)
                    + " at offset ("@ + numeral(c.x as nat) + ", "@ + numeral(c.y as nat)
                    + ") — aspect ratio "@ + fixed(c.aspect(), true),
            )
            &&& said.last() == MessageView::Stdout(""@)
            &&& region_warning(c) matches Some(w) ==> said.len() == 3 && said[1]
                == MessageView::Stderr(w)
            &&& region_warning(c) is None ==> said.len() == 2
        },
{
}

/// What is said of a video before it is encoded: its name, its codec and its
/// duration in whole seconds, the sizes from which and to which it goes, and
/// what is done.
pub proof fn sizes_are_told_before_encoding<P>(job: Job<P>, c: CropRect)
    ensures
        ({
            let s = job.video.streams@[0];
            let about = job.files.input_shown@ + " (codec: "@ + s.codec_name@ + ", duration: "@
                + numeral(job.duration.whole() as nat) + "s) "@;
            let height = numeral(job.picture_height() as nat);
            let to = numeral(
                target_width(job.picture_height(), job.settings.squeeze) as nat,
            ) + "x"@ + height;
            &&& job.cropping_text(c) == "Cropping "@ + about + "from "@ + numeral(s.width as nat)
                + "x"@ + numeral(s.height as nat) + " to "@ + numeral(c.w as nat) + "x"@ + numeral(
                c.h as nat,
            ) + " | crop-only"@
            &&& job.crop == Some(c) ==> job.scaling_text() == "Scaling "@ + about + "crop "@
                + numeral(c.w as nat) + "x"@ + numeral(c.h as nat) + " -> "@ + to
                + " | auto-crop"@
            &&& job.crop is None && job.settings.squeeze ==> job.scaling_text() == "Scaling "@
                + about + "from "@ + numeral(s.width as nat) + "x"@ + numeral(s.height as nat)
                + " to "@ + to + " | squeeze: "@ + "true"@
            &&& job.crop is None && !job.settings.squeeze ==> job.scaling_text() == "Scaling "@
                + about + "from "@ + numeral(s.width as nat) + "x"@ + numeral(s.height as nat)
                + " to "@ + to + " | squeeze: "@ + "false"@
        }),
{
    let s = job.video.streams@[0];
    let shown = job.files.input_shown@;
    let about = shown + " (codec: "@ + s.codec_name@ + ", duration: "@ + numeral(
        job.duration.whole() as nat,
    ) + "s) "@;
    let from = numeral(s.width as nat) + "x"@ + numeral(s.height as nat);
    let part = numeral(c.w as nat) + "x"@ + numeral(c.h as nat);
    let wide = target_width(job.picture_height(), job.settings.squeeze);
    let to = numeral(wide as nat) + "x"@ + numeral(job.picture_height() as nat);
    assert(0 <= wide <= u32::MAX);
    assert(input_text("Cropping "@, shown, s.codec_name@, job.duration) =~= "Cropping "@ + about);
    assert(input_text("Scaling "@, shown, s.codec_name@, job.duration) =~= "Scaling "@ + about);
    assert(job.cropping_text(c) =~= "Cropping "@ + about + "from "@ + from + " to "@ + part
        + " | crop-only"@);
    let cut = "Scaling "@ + about + "crop "@ + part + " -> "@ + to + " | auto-crop"@;
    let all = "Scaling "@ + about + "from "@ + from + " to "@ + to + " | squeeze: "@;
    assert(job.crop == Some(c) ==> job.scaling_text() =~= cut);
    assert(job.crop is None && job.settings.squeeze ==> job.scaling_text() =~= all + "true"@);
    assert(job.crop is None && !job.settings.squeeze ==> job.scaling_text() =~= all + "false"@);
    assert("Cropping "@ + about + "from "@ + from + " to "@ + part + " | crop-only"@
        =~= "Cropping "@ + about + "from "@ + numeral(s.width as nat) + "x"@ + numeral(
        s.height as nat,
    ) + " to "@ + numeral(c.w as nat) + "x"@ + numeral(c.h as nat) + " | crop-only"@);
    assert(cut =~= "Scaling "@ + about + "crop "@ + numeral(c.w as nat) + "x"@ + numeral(c.h as nat)
        + " -> "@ + to + " | auto-crop"@);
    assert(all =~= "Scaling "@ + about + "from "@ + numeral(s.width as nat) + "x"@ + numeral(
        s.height as nat,
    ) + " to "@ + to + " | squeeze: "@);
}

} // verus!
