use superview::binary64::Binary64;
use superview::crop::parse_crop;
use superview::encode::{build_filter, EncodeOptions};
use superview::encoder::{default_crf, find_encoder, quality_args, FfmpegInfo, Quality};
use superview::probe::{
    filter_copyable, plan_audio, ProbedStream, SideData, Stream, VideoSpecs,
};
use superview::vaapi::vaapi_upload_format;

#[test]
fn parse_crop_valid() {
    let c = parse_crop("crop=640:480:0:80").unwrap();
    assert_eq!((c.w, c.h, c.x, c.y), (640, 480, 0, 80));
}

#[test]
fn parse_crop_without_prefix() {
    let c = parse_crop("1920:1080:0:0").unwrap();
    assert_eq!((c.w, c.h, c.x, c.y), (1920, 1080, 0, 0));
}

#[test]
fn parse_crop_rejects_garbage() {
    assert!(parse_crop("crop=640:480").is_err());
    assert!(parse_crop("crop=a:b:c:d").is_err());
}

#[test]
fn quality_args_per_encoder() {
    let crf = Quality::Crf(23);
    assert_eq!(quality_args("libx264", &crf).unwrap(), vec!["-crf", "23"]);
    assert_eq!(
        quality_args("h264_nvenc", &crf).unwrap(),
        vec!["-rc", "vbr", "-cq", "23", "-b:v", "0"]
    );
    assert_eq!(
        quality_args("hevc_qsv", &crf).unwrap(),
        vec!["-global_quality", "23"]
    );
    assert_eq!(quality_args("h264_vaapi", &crf).unwrap(), vec!["-qp", "23"]);
    assert_eq!(
        quality_args("libvpx-vp9", &crf).unwrap(),
        vec!["-crf", "23", "-b:v", "0"]
    );
    assert!(quality_args("hevc_videotoolbox", &crf).is_err());
    assert_eq!(
        quality_args("libx265", &Quality::Bitrate(100_000_000)).unwrap(),
        vec!["-b:v", "100000000"]
    );
}

#[test]
fn default_crf_by_encoder() {
    assert_eq!(default_crf("libx265"), 18);
    assert_eq!(default_crf("hevc_nvenc"), 18);
    assert_eq!(default_crf("libx264"), 23);
    assert_eq!(default_crf("libsvtav1"), 28);
}

fn specs_with_codec(codec: &str) -> VideoSpecs {
    VideoSpecs {
        streams: vec![Stream {
            codec_name: codec.to_string(),
            width: 640,
            height: 480,
            ..Default::default()
        }],
        format: None,
    }
}

fn info_with_encoders(encoders: &[&str]) -> FfmpegInfo {
    FfmpegInfo {
        version: "test".to_string(),
        encoders: encoders.iter().map(|s| s.to_string()).collect(),
    }
}

#[test]
fn find_encoder_uses_requested_when_available() {
    let info = info_with_encoders(&["libx264", "libx265"]);
    let specs = specs_with_codec("h264");
    assert_eq!(
        find_encoder(Some("libx265"), &info, &specs).unwrap().encoder,
        "libx265"
    );
}

#[test]
fn find_encoder_rejects_unavailable_request() {
    let info = info_with_encoders(&["libx264"]);
    let specs = specs_with_codec("h264");
    assert!(find_encoder(Some("h264_nvenc"), &info, &specs).is_err());
}

#[test]
fn find_encoder_maps_codec_and_falls_back() {
    let info = info_with_encoders(&["libx264", "libx265"]);
    assert_eq!(
        find_encoder(None, &info, &specs_with_codec("hevc"))
            .unwrap()
            .encoder,
        "libx265"
    );
    assert_eq!(
        find_encoder(None, &info, &specs_with_codec("av1"))
            .unwrap()
            .encoder,
        "libx264"
    );
}

#[test]
fn find_encoder_errors_with_no_options() {
    let info = info_with_encoders(&[]);
    assert!(find_encoder(None, &info, &specs_with_codec("h264")).is_err());
}

#[test]
fn build_filter_uploads_for_vaapi() {
    let stream = Stream::default();
    let quality = Quality::Crf(20);
    let mut opts = EncodeOptions {
        input: "in.mp4",
        output: "out.mp4",
        encoder: "hevc_vaapi",
        quality: &quality,
        preset: None,
        stream: &stream,
        crop: None,
        remap: None,
        audio_streams: &[],
        data_streams: &[],
        vaapi_device: None,
        hwaccel_device: None,
    };
    assert!(build_filter(&opts).ends_with("format=nv12,hwupload[v]"));
    opts.encoder = "libx265";
    assert!(build_filter(&opts).ends_with("format=yuv420p[v]"));

    let stream_10bit = Stream {
        pix_fmt: Some("yuv420p10le".to_string()),
        ..Default::default()
    };
    opts.stream = &stream_10bit;
    opts.encoder = "hevc_vaapi";
    assert!(build_filter(&opts).ends_with("format=p010,hwupload[v]"));
    opts.encoder = "libx265";
    assert!(build_filter(&opts).ends_with("format=yuv420p10le[v]"));
}

#[test]
fn vaapi_upload_format_matches_bit_depth() {
    assert_eq!(vaapi_upload_format(false), "nv12");
    assert_eq!(vaapi_upload_format(true), "p010");
}

#[test]
fn filter_copyable_keeps_only_known_data_codecs() {
    let streams = vec![
        ProbedStream {
            index: 2,
            codec_name: None,
        },
        ProbedStream {
            index: 3,
            codec_name: Some("gpmd".to_string()),
        },
        ProbedStream {
            index: 4,
            codec_name: Some("unknown".to_string()),
        },
    ];
    assert_eq!(filter_copyable(streams), vec![3]);
}

#[test]
fn plan_audio_transcodes_incompatible_codecs_for_mp4() {
    let streams = vec![
        ProbedStream {
            index: 1,
            codec_name: Some("aac".to_string()),
        },
        ProbedStream {
            index: 2,
            codec_name: Some("vorbis".to_string()),
        },
        ProbedStream {
            index: 3,
            codec_name: Some("pcm_s16le".to_string()),
        },
        ProbedStream {
            index: 4,
            codec_name: None,
        },
    ];
    let plan = plan_audio(streams, true);
    assert_eq!(
        plan.iter().map(|a| (a.index, a.copy)).collect::<Vec<_>>(),
        vec![(1, true), (2, false), (3, false), (4, false)]
    );
}

#[test]
fn plan_audio_copies_everything_for_non_mp4() {
    let streams = vec![ProbedStream {
        index: 1,
        codec_name: Some("vorbis".to_string()),
    }];
    let plan = plan_audio(streams, false);
    assert!(plan[0].copy);
}

#[test]
fn rotation_degrees_normalizes() {
    let rotated = |r: f64| Stream {
        side_data_list: vec![SideData {
            rotation: Some(Binary64 { bits: r.to_bits() }),
        }],
        ..Default::default()
    };
    assert_eq!(Stream::default().rotation_degrees(), 0);
    assert_eq!(rotated(90.0).rotation_degrees(), 90);
    assert_eq!(rotated(-90.0).rotation_degrees(), 270);
    assert_eq!(rotated(180.0).rotation_degrees(), 180);
    assert_eq!(rotated(-180.0).rotation_degrees(), 180);
    assert_eq!(rotated(450.0).rotation_degrees(), 90);
}

#[test]
fn stream_parses_rotation_side_data() {
    let json = r#"{
            "codec_name": "h264",
            "width": 480,
            "height": 640,
            "side_data_list": [{"side_data_type": "Display Matrix", "rotation": -90}]
        }"#;
    let v: serde_json::Value = serde_json::from_str(json).unwrap();
    let list = v["side_data_list"].as_array().unwrap();
    let s = Stream {
        codec_name: v["codec_name"].as_str().unwrap().to_string(),
        width: v["width"].as_u64().unwrap() as u32,
        height: v["height"].as_u64().unwrap() as u32,
        side_data_list: list
            .iter()
            .map(|d| SideData {
                rotation: d["rotation"].as_f64().map(|r| Binary64 { bits: r.to_bits() }),
            })
            .collect(),
        ..Default::default()
    };
    assert_eq!(s.rotation_degrees(), 270);
}

#[test]
fn stream_10bit_detection() {
    let mut s = Stream {
        pix_fmt: Some("yuv420p10le".to_string()),
        ..Default::default()
    };
    assert!(s.is_10bit());
    s.pix_fmt = Some("yuv420p".to_string());
    assert!(!s.is_10bit());
    s.pix_fmt = None;
    assert!(!s.is_10bit());
}
