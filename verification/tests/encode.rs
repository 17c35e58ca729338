use superview::args::{Arg, ArgList};
use superview::crop::CropRect;
use superview::encode::{
    build_filter, encode, encode_end, EncodeEnd, EncodeOptions, RemapSpec,
};
use superview::encoder::Quality;
use superview::probe::{AudioStream, Stream};

fn plain(args: ArgList<&str>) -> Vec<String> {
    args.args
        .into_iter()
        .map(|a| match a {
            Arg::Text(t) => t,
            Arg::Path(p) => format!("<{p}>"),
        })
        .collect()
}

fn options<'a>(stream: &'a Stream, quality: &'a Quality) -> EncodeOptions<'a, &'a str> {
    EncodeOptions {
        input: "in",
        output: "out",
        encoder: "libx264",
        quality,
        preset: None,
        stream,
        crop: None,
        remap: None,
        audio_streams: &[],
        data_streams: &[],
        vaapi_device: None,
        hwaccel_device: None,
    }
}

const HEAD: [&str; 7] = [
    "-hide_banner",
    "-progress",
    "pipe:1",
    "-loglevel",
    "error",
    "-ignore_unknown",
    "-y",
];

#[test]
fn a_bare_command() {
    let stream = Stream::default();
    let quality = Quality::Crf(20);
    let c = encode(&options(&stream, &quality)).unwrap();
    assert!(c.warning.is_none());
    let mut expected: Vec<&str> = HEAD.to_vec();
    expected.extend([
        "-i",
        "<in>",
        "-filter_complex",
        "[0:v]format=yuv420p[v]",
        "-map",
        "[v]",
        "-map_metadata",
        "0",
        "-c:v",
        "libx264",
        "-crf",
        "20",
        "-c:d",
        "copy",
        "<out>",
    ]);
    assert_eq!(plain(c.args), expected);
}

#[test]
fn a_full_command() {
    let stream = Stream {
        pix_fmt: Some("yuv420p10le".to_string()),
        color_space: Some("bt709".to_string()),
        color_primaries: Some("unknown".to_string()),
        color_transfer: Some("unspecified".to_string()),
        color_range: Some("tv".to_string()),
        ..Default::default()
    };
    let quality = Quality::Bitrate(5_000_000);
    let audio = [
        AudioStream { index: 1, codec_name: "aac".to_string(), copy: true },
        AudioStream { index: 4, codec_name: "opus".to_string(), copy: false },
    ];
    let mut o = options(&stream, &quality);
    let crop = CropRect { w: 600, h: 450, x: 20, y: 15 };
    o.encoder = "libx265";
    o.preset = Some("slow");
    o.crop = Some(&crop);
    o.remap = Some(RemapSpec {
        x_path: "x",
        y_path: "y",
        out_width: 800,
        out_height: 450,
        supersample: 2,
    });
    o.audio_streams = &audio;
    o.data_streams = &[3, 5];
    o.vaapi_device = Some("v");
    o.hwaccel_device = Some("h");
    let c = encode(&o).unwrap();
    assert!(c.warning.is_none());
    let mut expected: Vec<&str> = HEAD.to_vec();
    expected.extend([
        "-vaapi_device", "<v>", "-hwaccel", "vaapi", "-hwaccel_device", "<h>", "-i", "<in>", "-i",
        "<x>", "-i", "<y>", "-filter_complex",
        "[0:v]crop=600:450:20:15,scale=iw*2:ih*2:flags=bicubic[pre];[pre][1:v][2:v]remap,format=yuv444p10le,scale=800:450:flags=bicubic,format=yuv420p10le[v]",
        "-map", "[v]", "-map", "0:1", "-map", "0:4", "-map", "0:3", "-map", "0:5",
        "-map_metadata", "0", "-c:v", "libx265", "-b:v", "5000000", "-preset", "slow",
        "-colorspace", "bt709", "-color_range", "tv", "-c:a:0", "copy", "-c:a:1", "aac",
        "-b:a:1", "192k", "-c:d", "copy", "-x265-params", "log-level=error", "<out>",
    ]);
    assert_eq!(plain(c.args), expected);
}

#[test]
fn presets_are_not_for_vaapi() {
    let stream = Stream::default();
    let quality = Quality::Crf(20);
    let mut o = options(&stream, &quality);
    o.encoder = "h264_vaapi";
    o.preset = Some("fast");
    let c = encode(&o).unwrap();
    assert_eq!(
        c.warning.unwrap(),
        "Warning: VAAPI encoders do not support presets, ignoring --preset fast"
    );
    assert!(!plain(c.args).contains(&"-preset".to_string()));
    o.encoder = "h264_videotoolbox";
    assert_eq!(
        encode(&o).unwrap_err().message,
        "CRF mode is not supported with h264_videotoolbox; use --bitrate instead"
    );
}

#[test]
fn a_table_as_coarse_as_the_picture_needs_no_scaling() {
    let stream = Stream::default();
    let quality = Quality::Crf(20);
    let mut o = options(&stream, &quality);
    o.remap = Some(RemapSpec {
        x_path: "x",
        y_path: "y",
        out_width: 852,
        out_height: 480,
        supersample: 1,
    });
    assert_eq!(
        build_filter(&o),
        "[0:v]null[pre];[pre][1:v][2:v]remap,format=yuv444p,format=yuv420p[v]"
    );
}

#[test]
fn an_encoding_ends_with_what_ffmpeg_said() {
    match encode_end(false, "exit status: 1", "bad\n") {
        EncodeEnd::Failed(e) => {
            assert_eq!(e.message, "ffmpeg exited with status exit status: 1:\nbad\n")
        }
        other => panic!("{other:?}"),
    }
    assert!(matches!(encode_end(true, "", " \n"), EncodeEnd::Finished(None)));
    match encode_end(true, "", "\n note \n") {
        EncodeEnd::Finished(Some(n)) => assert_eq!(n, "\nffmpeg messages:\nnote"),
        other => panic!("{other:?}"),
    }
}
