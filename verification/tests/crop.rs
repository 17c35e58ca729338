use superview::args::{Arg, ArgList};
use superview::binary64::Binary64;
use superview::crop::{
    check_aspect, crops_in, detect_crop, detect_crop_args, detected_in, find_most_common,
    judge_crop, parse_crop, CropRect, CropRun,
};

fn bits(v: f64) -> Binary64 {
    Binary64 { bits: v.to_bits() }
}

fn plain(args: ArgList<&str>) -> Vec<String> {
    args.args
        .into_iter()
        .map(|a| match a {
            Arg::Text(t) => t,
            Arg::Path(p) => format!("<{p}>"),
        })
        .collect()
}

#[test]
fn a_rectangle_is_read_back_from_its_filter() {
    for (w, h, x, y) in [(640, 480, 0, 80), (0, 0, 0, 0), (u32::MAX, 1, 7, u32::MAX)] {
        let c = CropRect { w, h, x, y };
        assert_eq!(c.as_filter(), format!("crop={w}:{h}:{x}:{y}"));
        let d = parse_crop(&c.as_filter()).unwrap();
        assert_eq!((d.w, d.h, d.x, d.y), (w, h, x, y));
    }
}

#[test]
fn bad_rectangles_name_the_bad_part() {
    assert_eq!(
        parse_crop("crop=1:2:x:4").unwrap_err().message,
        "Invalid crop x: invalid digit found in string"
    );
    assert_eq!(
        parse_crop("crop=1:99999999999:3:4").unwrap_err().message,
        "Invalid crop height: number too large to fit in target type"
    );
    assert_eq!(
        parse_crop("1::3:4").unwrap_err().message,
        "Invalid crop height: cannot parse integer from empty string"
    );
    assert!(parse_crop("1:2:3:4:5").is_err());
}

const REPORT: &str = "\
[Parsed_cropdetect_0 @ 0x1] x1:0 x2:639 w:640 h:360 crop=640:352:0:64
[Parsed_cropdetect_0 @ 0x1] x1:0 x2:639 w:640 h:360 crop=640:360:0:60
noise
[Parsed_cropdetect_0 @ 0x1] x1:0 crop=640:360:0:60 trailing
[Parsed_cropdetect_0 @ 0x1] x1:0 x2:639 w:640 h:360 crop=640:352:0:64
[Parsed_cropdetect_0 @ 0x1] t:1 crop=640:360:0:60\r
";

#[test]
fn the_most_common_rectangle_is_detected() {
    let crops = crops_in(REPORT);
    assert_eq!(crops.len(), 5);
    assert_eq!(crops[find_most_common(&crops).unwrap()], "crop=640:360:0:60");
    let c = detected_in(REPORT).unwrap();
    assert_eq!((c.w, c.h, c.x, c.y), (640, 360, 0, 60));
    let c = detect_crop(CropRun::Done(REPORT.as_bytes().to_vec())).unwrap();
    assert_eq!((c.w, c.h, c.x, c.y), (640, 360, 0, 60));
    assert_eq!(
        detect_crop(CropRun::Done(b"nothing".to_vec())).unwrap_err().message,
        "cropdetect produced no output - video may have no frames"
    );
    assert_eq!(
        detect_crop(CropRun::Failed(b"bad \xff".to_vec())).unwrap_err().message,
        "ffmpeg cropdetect failed:\nbad \u{fffd}"
    );
    assert_eq!(find_most_common(&vec![]), None);
}

#[test]
fn long_videos_are_searched_past_their_opening() {
    for (d, ss, t) in [
        (61.0, "30", "10"),
        (60.0, "0", "10"),
        (20.5, "0", "10"),
        (20.0, "0", "20"),
        (7.25, "0", "7.25"),
        (0.0, "0", "10"),
        (-3.0, "0", "10"),
        (f64::NAN, "0", "NaN"),
    ] {
        assert_eq!(
            plain(detect_crop_args("in", bits(d), &d.to_string())),
            vec![
                "-hide_banner", "-ss", ss, "-i", "<in>", "-t", t, "-vf", "cropdetect=24:2:0", "-f",
                "null", "-",
            ]
        );
    }
}

#[test]
fn a_region_as_great_as_the_picture_is_not_cut() {
    let whole = CropRect { w: 640, h: 480, x: 0, y: 0 };
    let v = judge_crop(whole, 640, 480);
    assert!(v.crop.is_none() && v.warning.is_none());
    assert_eq!(v.note, "No black bars detected, proceeding without cropping.\n");
    let v = judge_crop(whole, 640, 500);
    assert!(v.crop.is_some() && v.warning.is_none());
    assert_eq!(
        v.note,
        "Detected content region: 640x480 at offset (0, 0) — aspect ratio 1.33"
    );
    let v = judge_crop(CropRect { w: 640, h: 360, x: 0, y: 60 }, 640, 480);
    assert_eq!(
        v.warning.unwrap(),
        "Warning: cropped region aspect ratio 1.78 is not close to 4:3 (1.33) - output may look distorted"
    );
    assert_eq!(whole.aspect_ratio().bits, (640.0f64 / 480.0).to_bits());
}

#[test]
fn odd_shapes_are_warned_of() {
    assert!(check_aspect(640, 480, false).is_none());
    assert!(check_aspect(852, 480, true).is_none());
    assert_eq!(
        check_aspect(852, 480, false).unwrap(),
        "Warning: input aspect ratio 1.77 is not close to 1.33 (4:3) - output may look distorted"
    );
    assert_eq!(
        check_aspect(640, 480, true).unwrap(),
        "Warning: input aspect ratio 1.33 is not close to 1.78 (16:9) - output may look distorted"
    );
    assert_eq!(
        check_aspect(1, 0, false).unwrap(),
        "Warning: input aspect ratio inf is not close to 1.33 (4:3) - output may look distorted"
    );
    assert!(check_aspect(0, 0, false).is_none());
}
