use superview::binary64::Binary64;
use superview::crop::CropRun;
use superview::encode::EncodeEnd;
use superview::encoder::{FfmpegInfo, Quality};
use superview::error::Error;
use superview::job::{Device, Files, Job, Message, OutputCheck, Settings, Stage, Turn};
use superview::probe::{Format, ProbeRun, ProbedStream, SideData, Stream, VideoSpecs};

fn settings() -> Settings<'static, &'static str> {
    Settings {
        encoder: None,
        bitrate: None,
        crf: None,
        preset: None,
        squeeze: false,
        auto_crop: false,
        no_stretch: false,
        high_quality: false,
        overwrite: false,
        hw_decode: false,
        vaapi_device: None,
    }
}

fn files() -> Files<'static, &'static str> {
    Files {
        input: "in",
        input_shown: "dir/in.mp4",
        output: "out",
        output_shown: "dir/out.mp4",
        output_extension: Some("mp4"),
    }
}

fn info() -> FfmpegInfo {
    FfmpegInfo {
        version: "v".to_string(),
        encoders: vec!["libx264".to_string(), "hevc_vaapi".to_string()],
    }
}

fn video(width: u32, height: u32, rotation: Option<f64>) -> ProbeRun<VideoSpecs> {
    ProbeRun::Done(VideoSpecs {
        streams: vec![Stream {
            codec_name: "h264".to_string(),
            width,
            height,
            side_data_list: vec![SideData {
                rotation: rotation.map(|r| Binary64 { bits: r.to_bits() }),
            }],
            ..Default::default()
        }],
        format: Some(Format { duration: Some("61.9".to_string()) }),
    })
}

fn data() -> ProbeRun<Vec<ProbedStream>> {
    ProbeRun::Done(vec![ProbedStream { index: 2, codec_name: Some("gpmd".to_string()) }])
}

fn audio() -> ProbeRun<Vec<ProbedStream>> {
    ProbeRun::Done(vec![ProbedStream { index: 1, codec_name: Some("pcm_s16le".to_string()) }])
}

fn minute() -> Option<Binary64> {
    Some(Binary64 { bits: 61.9f64.to_bits() })
}

fn said(t: &Turn) -> Vec<String> {
    t.said
        .iter()
        .map(|m| match m {
            Message::Stdout(s) => format!("out {s}"),
            Message::Stderr(s) => format!("err {s}"),
        })
        .collect()
}

fn error(t: Turn) -> String {
    t.error.unwrap().message
}

const FREE: OutputCheck = OutputCheck { same_file: false, exists: false };

fn checked<'a>(
    s: &'a Settings<'a, &'static str>,
    i: &'a FfmpegInfo,
    f: &'a Files<'a, &'static str>,
    size: (u32, u32),
) -> Job<'a, &'static str> {
    let mut job = Job::new(s, i, f);
    assert!(job.video_probed(video(size.0, size.1, None)).error.is_none());
    assert!(job.data_probed(data(), minute()).error.is_none());
    if job.stage == Stage::FindEncodeDevice {
        let device = Device { path: "node", shown: "/dev/dri/node".to_string() };
        assert_eq!(
            said(&job.encode_device_found(Ok(device))),
            vec!["out Using VAAPI device: /dev/dri/node"]
        );
    }
    assert_eq!(job.stage, Stage::CheckOutput);
    assert!(job.output_checked(FREE).error.is_none());
    job
}

#[test]
fn a_plain_job_stretches() {
    let (s, i, f) = (settings(), info(), files());
    let mut job = checked(&s, &i, &f, (640, 480));
    let t = job.audio_probed(audio());
    assert_eq!(
        said(&t),
        vec!["err Warning: audio codec 'pcm_s16le' (stream #1) is not supported by the mp4 muxer, re-encoding to AAC"]
    );
    assert_eq!(job.stage, Stage::WriteMaps);
    assert_eq!(job.table_size(), (640, 480, 1));
    let t = job.maps_written("x", "y");
    assert_eq!(
        said(&t),
        vec![
            "out Scaling dir/in.mp4 (codec: h264, duration: 61s) from 640x480 to 852x480 | squeeze: false",
            "out Re-encoding with libx264 encoder at CRF 23\n",
        ]
    );
    assert_eq!(job.stage, Stage::Encode);
    let o = job.options();
    let r = o.remap.as_ref().unwrap();
    assert_eq!((r.x_path, r.y_path), ("x", "y"));
    assert_eq!((r.out_width, r.out_height, r.supersample), (852, 480, 1));
    assert_eq!((o.input, o.output, o.encoder), ("in", "out", "libx264"));
    assert_eq!(o.data_streams, &[2]);
    assert_eq!((o.audio_streams[0].index, o.audio_streams[0].copy), (1, false));
    assert!(o.crop.is_none() && o.vaapi_device.is_none() && o.hwaccel_device.is_none());
    assert!(matches!(o.quality, Quality::Crf(23)));
    let t = job.encoded(EncodeEnd::Finished(Some("note".to_string())));
    assert_eq!(said(&t), vec!["err note", "err ", "out Done! Output file: dir/out.mp4\n"]);
    assert_eq!(job.stage, Stage::Done);
}

#[test]
fn high_quality_keeps_the_size_of_the_output() {
    let (mut s, i, f) = (settings(), info(), files());
    s.high_quality = true;
    s.squeeze = true;
    let mut job = checked(&s, &i, &f, (852, 480));
    assert_eq!(said(&job.audio_probed(ProbeRun::Done(vec![]))).len(), 0);
    assert_eq!(job.table_size(), (852, 480, 2));
    let t = job.maps_written("x", "y");
    assert!(said(&t)[0].ends_with("from 852x480 to 640x480 | squeeze: true"));
    let r = job.options().remap.unwrap();
    assert_eq!((r.out_width, r.out_height, r.supersample), (640, 480, 2));
}

#[test]
fn odd_shapes_and_rotations_are_told() {
    let (s, i, f) = (settings(), info(), files());
    let mut job = Job::new(&s, &i, &f);
    let t = job.video_probed(video(480, 640, Some(90.0)));
    assert_eq!(
        said(&t),
        vec!["out Input has 90° rotation metadata; using display dimensions 640x480"]
    );
    let mut job = checked(&s, &i, &f, (1000, 480));
    let t = job.audio_probed(ProbeRun::Done(vec![]));
    assert_eq!(
        said(&t),
        vec!["err Warning: input aspect ratio 2.08 is not close to 1.33 (4:3) - output may look distorted"]
    );
}

#[test]
fn black_bars_are_cut_off() {
    let (mut s, i, f) = (settings(), info(), files());
    s.auto_crop = true;
    let mut job = checked(&s, &i, &f, (640, 480));
    let t = job.audio_probed(ProbeRun::Done(vec![]));
    assert_eq!(said(&t), vec!["out Detecting black bars..."]);
    assert_eq!(job.stage, Stage::DetectCrop);
    let t = job.crop_detected(CropRun::Done(b"crop=480:360:80:60\n".to_vec()));
    assert_eq!(
        said(&t),
        vec!["out Detected content region: 480x360 at offset (80, 60) — aspect ratio 1.33", "out "]
    );
    assert_eq!(job.table_size(), (480, 360, 1));
    let t = job.maps_written("x", "y");
    assert_eq!(
        said(&t)[0],
        "out Scaling dir/in.mp4 (codec: h264, duration: 61s) crop 480x360 -> 640x360 | auto-crop"
    );
    assert_eq!(job.options().crop.unwrap().as_filter(), "crop=480:360:80:60");
}

#[test]
fn cropping_alone_needs_black_bars() {
    let (mut s, i, f) = (settings(), info(), files());
    s.auto_crop = true;
    s.no_stretch = true;
    s.bitrate = Some(3_000_000);
    let mut job = checked(&s, &i, &f, (640, 480));
    job.audio_probed(ProbeRun::Done(vec![]));
    let t = job.crop_detected(CropRun::Done(b"crop=640:360:0:60".to_vec()));
    assert_eq!(
        said(&t),
        vec![
            "out Detected content region: 640x360 at offset (0, 60) — aspect ratio 1.78",
            "err Warning: cropped region aspect ratio 1.78 is not close to 4:3 (1.33) - output may look distorted",
            "out ",
            "out Cropping dir/in.mp4 (codec: h264, duration: 61s) from 640x480 to 640x360 | crop-only",
            "out Re-encoding with libx264 encoder at 3 Mbit/s bitrate\n",
        ]
    );
    assert_eq!(job.stage, Stage::Encode);
    assert!(job.options().remap.is_none());

    let mut job = checked(&s, &i, &f, (640, 480));
    job.audio_probed(ProbeRun::Done(vec![]));
    let t = job.crop_detected(CropRun::Done(b"crop=640:480:0:0".to_vec()));
    assert_eq!(
        said(&t),
        vec!["out No black bars detected, proceeding without cropping.\n"]
    );
    assert_eq!(error(t), "--no-stretch used but no black bars were detected");
    assert_eq!(job.stage, Stage::Failed);
}

#[test]
fn outputs_are_guarded() {
    let (strict, mut s, i, f) = (settings(), settings(), info(), files());
    s.overwrite = true;
    let at_check = |s| {
        let mut job = Job::new(s, &i, &f);
        job.video_probed(video(640, 480, None));
        job.data_probed(data(), None);
        job
    };
    let t = at_check(&s).output_checked(OutputCheck { same_file: true, exists: true });
    assert_eq!(error(t), "Output file would overwrite the input file");
    let t = at_check(&s).output_checked(OutputCheck { same_file: false, exists: true });
    assert!(t.error.is_none());
    let t = at_check(&strict).output_checked(OutputCheck { same_file: true, exists: false });
    assert_eq!(error(t), "Output file would overwrite the input file");
    let t = at_check(&strict).output_checked(OutputCheck { same_file: false, exists: true });
    assert_eq!(
        error(t),
        "Output file dir/out.mp4 already exists (use --overwrite to replace it)"
    );
}

#[test]
fn devices_are_found_where_they_are_needed() {
    let (mut s, i, f) = (settings(), info(), files());
    s.encoder = Some("hevc_vaapi");
    s.hw_decode = true;
    let mut job = Job::new(&s, &i, &f);
    job.video_probed(video(640, 480, None));
    job.data_probed(data(), None);
    assert_eq!(job.stage, Stage::FindEncodeDevice);
    let t = job.encode_device_found(Err(Error::of("none")));
    assert_eq!(error(t), "none");

    let mut job = Job::new(&s, &i, &f);
    job.video_probed(video(640, 480, None));
    job.data_probed(data(), None);
    job.encode_device_found(Ok(Device { path: "a", shown: "A".to_string() }));
    assert_eq!(job.stage, Stage::FindDecodeDevice);
    let t = job.decode_device_found(Some(Device { path: "b", shown: "B".to_string() }));
    assert_eq!(said(&t), vec!["out Using VAAPI hardware decoding on B"]);
    assert_eq!((job.vaapi_device, job.hwaccel_device), (Some("a"), Some("b")));

    s.encoder = None;
    let mut job = Job::new(&s, &i, &f);
    job.video_probed(video(640, 480, None));
    job.data_probed(data(), None);
    assert_eq!(job.stage, Stage::FindDecodeDevice);
    let t = job.decode_device_found(None);
    assert_eq!(
        said(&t),
        vec!["err Warning: no VAAPI device can hardware-decode this file, using software decoding"]
    );
    assert!(job.hwaccel_device.is_none());
}

#[test]
fn failures_end_a_job() {
    let (mut s, i, f) = (settings(), info(), files());
    let failed = || ProbeRun::Failed(b"why".to_vec());
    let mut job = Job::new(&s, &i, &f);
    assert_eq!(error(job.video_probed(ProbeRun::Failed(b"why".to_vec()))), "ffprobe failed:\nwhy");
    assert_eq!(job.stage, Stage::Failed);
    let mut job = Job::new(&s, &i, &f);
    job.video_probed(video(640, 480, None));
    assert_eq!(error(job.data_probed(failed(), None)), "ffprobe failed:\nwhy");
    let mut job = checked(&s, &i, &f, (640, 480));
    assert_eq!(error(job.audio_probed(failed())), "ffprobe failed:\nwhy");
    let mut job = checked(&s, &i, &f, (640, 480));
    job.audio_probed(ProbeRun::Done(vec![]));
    job.maps_written("x", "y");
    let t = job.encoded(EncodeEnd::Failed(Error::of("broken")));
    assert_eq!(error(t), "broken");
    s.encoder = Some("nothing");
    let mut job = Job::new(&s, &i, &f);
    job.video_probed(video(640, 480, None));
    assert!(error(job.data_probed(data(), None)).starts_with("Requested encoder 'nothing'"));
}
