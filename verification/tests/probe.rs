use superview::binary64::Binary64;
use superview::encoder::{check_ffmpeg, choose_quality, find_encoder, quality_args, quality_message, FfmpegInfo, Quality};
use superview::probe::{
    audio_streams, audio_warning, copyable_data_streams, mp4_extension, probe_streams_args,
    probe_video, probe_video_args, Format, ProbeRun, ProbedStream, SideData, Stream, VideoSpecs,
};

fn bits(v: f64) -> Binary64 {
    Binary64 { bits: v.to_bits() }
}

fn video(rotation: Option<f64>) -> VideoSpecs {
    VideoSpecs {
        streams: vec![
            Stream {
                codec_name: "h264".to_string(),
                width: 480,
                height: 640,
                side_data_list: vec![
                    SideData { rotation: None },
                    SideData { rotation: rotation.map(bits) },
                ],
                ..Default::default()
            },
            Stream { width: 1, height: 2, ..Default::default() },
        ],
        format: Some(Format { duration: Some("12.5".to_string()) }),
    }
}

#[test]
fn a_video_on_its_side_has_its_sizes_exchanged() {
    for (r, swapped) in [(90.0, true), (-90.0, true), (270.0, true), (180.0, false), (0.0, false)] {
        let p = probe_video(ProbeRun::Done(video(Some(r)))).unwrap();
        let s = &p.specs.streams[0];
        let size = if swapped { (640, 480) } else { (480, 640) };
        assert_eq!((s.width, s.height), size, "{r}");
        assert_eq!(p.note.is_some(), swapped, "{r}");
        assert_eq!((p.specs.streams[1].width, p.specs.streams[1].height), (1, 2));
    }
    let p = probe_video(ProbeRun::Done(video(Some(-90.0)))).unwrap();
    assert_eq!(
        p.note.unwrap(),
        "Input has 270° rotation metadata; using display dimensions 640x480"
    );
}

#[test]
fn rotations_round_to_whole_degrees_and_wrap() {
    for (r, d) in [(89.6, 90), (0.4, 0), (-0.6, 359), (720.0, 0), (1e12, 127), (f64::NAN, 0)] {
        let s = &video(Some(r)).streams[0].rotation_degrees();
        assert_eq!(*s, (r.round() as i32).rem_euclid(360) as u32, "{r}");
        assert_eq!(*s, d, "{r}");
    }
    assert_eq!(video(None).streams[0].rotation_degrees(), 0);
}

#[test]
fn the_container_lends_its_duration() {
    let p = probe_video(ProbeRun::Done(video(None))).unwrap();
    assert_eq!(p.specs.streams[0].duration.as_deref(), Some("12.5"));
    let mut own = video(None);
    own.streams[0].duration = Some("3".to_string());
    let p = probe_video(ProbeRun::Done(own)).unwrap();
    assert_eq!(p.specs.streams[0].duration.as_deref(), Some("3"));
    let s = Stream { duration: Some("3".to_string()), ..Default::default() };
    assert_eq!(s.duration_secs(Some(bits(3.0))).bits, 3f64.to_bits());
    assert_eq!(s.duration_secs(None).bits, 0);
    assert_eq!(Stream::default().duration_secs(Some(bits(3.0))).bits, 0);
}

#[test]
fn a_failed_probe_says_what_ffprobe_said() {
    let said = b"no such \xfffile".to_vec();
    let text = "ffprobe failed:\nno such \u{fffd}file";
    assert_eq!(probe_video(ProbeRun::Failed(said.clone())).unwrap_err().message, text);
    assert_eq!(copyable_data_streams(ProbeRun::Failed(said.clone())).unwrap_err().message, text);
    assert_eq!(audio_streams(ProbeRun::Failed(said), None).unwrap_err().message, text);
    let none = VideoSpecs { streams: vec![], format: None };
    assert_eq!(
        probe_video(ProbeRun::Done(none)).unwrap_err().message,
        "No video streams found in input file"
    );
}

#[test]
fn probes_ask_for_what_is_read() {
    assert_eq!(
        probe_video_args("in.mp4"),
        vec![
            "-i",
            "in.mp4",
            "-v",
            "error",
            "-select_streams",
            "v:0",
            "-show_entries",
            "stream=codec_name,width,height,duration,pix_fmt,color_space,color_primaries,color_transfer,color_range",
            "-show_entries",
            "stream_side_data=rotation",
            "-show_entries",
            "format=duration",
            "-print_format",
            "json",
        ]
    );
    let args = probe_streams_args("in.mp4", "a");
    assert!(args.contains(&"in.mp4".to_string()) && args.contains(&"a".to_string()));
}

#[test]
fn audio_goes_by_the_extension_of_the_output() {
    for (e, mp4) in [
        (Some("mp4"), true),
        (Some("MP4"), true),
        (Some("m4v"), true),
        (Some("mov"), true),
        (Some("mkv"), false),
        (None, false),
    ] {
        assert_eq!(mp4_extension(e), mp4, "{e:?}");
        let streams = vec![ProbedStream { index: 5, codec_name: Some("opus".to_string()) }];
        let plan = audio_streams(ProbeRun::Done(streams), e).unwrap();
        assert_eq!((plan[0].index, plan[0].copy), (5, !mp4));
        let warning = audio_warning(&plan[0]);
        if mp4 {
            assert_eq!(
                warning.unwrap(),
                "Warning: audio codec 'opus' (stream #5) is not supported by the mp4 muxer, re-encoding to AAC"
            );
        } else {
            assert!(warning.is_none());
        }
    }
    let data = vec![
        ProbedStream { index: 1, codec_name: Some("gpmd".to_string()) },
        ProbedStream { index: 2, codec_name: None },
    ];
    assert_eq!(copyable_data_streams(ProbeRun::Done(data)).unwrap(), vec![1]);
}

const ENCODERS: &str = "Encoders:
 V..... = Video
 ------
 V....D libx264              libx264 H.264 (codec h264)
 V....D libx265              libx265 H.265 (codec hevc)
 V....D mpeg4                MPEG-4 part 2
 A....D aac                  AAC
 V....D hevc_vaapi           H.265/HEVC (VAAPI)
";

#[test]
fn ffmpeg_is_asked_for_its_version_and_encoders() {
    let info = check_ffmpeg(b"ffmpeg version n7.1 Copyright", ENCODERS.as_bytes());
    assert_eq!(info.version, "n7.1");
    assert_eq!(info.encoders, vec!["=", "libx264", "libx265", "mpeg4", "hevc_vaapi"]);
    assert_eq!(info.h26x_encoders(), vec!["libx264", "libx265", "hevc_vaapi"]);
    assert_eq!(info.h26x_list(), "libx264, libx265, hevc_vaapi");
    assert!(info.has_encoder("mpeg4") && !info.has_encoder("aac"));
    assert_eq!(check_ffmpeg(b"what \xff", b"").version, "unknown");
    assert_eq!(check_ffmpeg(b"ffmpeg version \xff\xfe", b"").version, "\u{fffd}\u{fffd}");
}

fn codec(name: &str) -> VideoSpecs {
    let mut v = video(None);
    v.streams[0].codec_name = name.to_string();
    v
}

#[test]
fn encoders_are_chosen_with_a_word_of_warning() {
    let info = |list: &[&str]| FfmpegInfo {
        version: "v".to_string(),
        encoders: list.iter().map(|s| s.to_string()).collect(),
    };
    let both = info(&["libx264", "libx265", "libvpx-vp9", "libvpx", "libsvtav1", "prores"]);
    for (c, e) in [
        ("hevc", "libx265"),
        ("h265", "libx265"),
        ("h264", "libx264"),
        ("avc", "libx264"),
        ("vp9", "libvpx-vp9"),
        ("vp8", "libvpx"),
        ("av1", "libsvtav1"),
        ("prores", "prores"),
    ] {
        let r = find_encoder(None, &both, &codec(c)).unwrap();
        assert_eq!(r.encoder, e);
        assert!(r.warning.is_none());
    }
    let r = find_encoder(None, &info(&["libx265"]), &codec("vp9")).unwrap();
    assert_eq!(r.encoder, "libx265");
    assert_eq!(
        r.warning.unwrap(),
        "Warning: encoder 'libvpx-vp9' for input codec 'vp9' is not available, falling back to libx265"
    );
    assert_eq!(
        find_encoder(Some("h264_nvenc"), &both, &codec("h264")).unwrap_err().message,
        "Requested encoder 'h264_nvenc' is not available. Available H.264/H.265 encoders: libx264, libx265"
    );
    assert_eq!(
        find_encoder(None, &info(&["hevc_qsv"]), &codec("vp8")).unwrap_err().message,
        "No suitable encoder found for input codec 'vp8'. Available H.264/H.265 encoders: hevc_qsv"
    );
}

#[test]
fn a_bitrate_goes_before_a_rate_factor() {
    assert!(matches!(choose_quality(Some(7), Some(3), "libx264"), Quality::Bitrate(7)));
    assert!(matches!(choose_quality(None, Some(3), "libx264"), Quality::Crf(3)));
    assert!(matches!(choose_quality(None, None, "libx264"), Quality::Crf(23)));
    assert_eq!(
        quality_args("h264_amf", &Quality::Crf(5)).unwrap(),
        vec!["-rc", "cqp", "-qp_i", "5", "-qp_p", "5"]
    );
    assert_eq!(
        quality_args("h264_videotoolbox", &Quality::Crf(5)).unwrap_err().message,
        "CRF mode is not supported with h264_videotoolbox; use --bitrate instead"
    );
    assert!(quality_args("h264_videotoolbox", &Quality::Bitrate(5)).is_ok());
    assert_eq!(
        quality_message("libx264", &Quality::Bitrate(12_999_999)),
        "Re-encoding with libx264 encoder at 12 Mbit/s bitrate\n"
    );
    assert_eq!(
        quality_message("libx264", &Quality::Crf(20)),
        "Re-encoding with libx264 encoder at CRF 20\n"
    );
}
