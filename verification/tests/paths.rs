use superview::paths::{
    default_output, directory_of, ffmpeg_name, probe_name, resolve_paths, resolved, FfmpegPaths,
};

fn pair(a: &'static str, b: &'static str) -> FfmpegPaths<&'static str> {
    FfmpegPaths { ffmpeg: a, ffprobe: b }
}

#[test]
fn programs_are_looked_for_in_order() {
    let names = |windows| (ffmpeg_name(windows), probe_name(windows));
    assert_eq!(names(false), ("ffmpeg", "ffprobe"));
    assert_eq!(names(true), ("ffmpeg.exe", "ffprobe.exe"));
    let found = |e: Option<FfmpegPaths<&'static str>>, b: Option<FfmpegPaths<&'static str>>, x| {
        let r = resolve_paths(e, b, x, pair("ffmpeg", "ffprobe"));
        (r.ffmpeg, r.ffprobe)
    };
    assert_eq!(found(Some(pair("a", "b")), Some(pair("c", "d")), true), ("a", "b"));
    assert_eq!(found(None, Some(pair("c", "d")), true), ("c", "d"));
    assert_eq!(found(None, Some(pair("c", "d")), false), ("ffmpeg", "ffprobe"));
    assert_eq!(found(None, None, true), ("ffmpeg", "ffprobe"));
}

#[test]
fn outputs_are_named_after_their_inputs() {
    assert_eq!(default_output(Some("clip"), false, false), "clip_superview.mp4");
    assert_eq!(default_output(Some("clip"), false, true), "clip_squeezed.mp4");
    assert_eq!(default_output(Some("clip"), true, false), "clip_cropped.mp4");
    assert_eq!(default_output(None, false, false), "output_superview.mp4");
    for stem in ["clip", "clip_superview", ""] {
        for ext in ["mp4", "mkv"] {
            assert_ne!(default_output(Some(stem), false, false), format!("{stem}.{ext}"));
        }
    }
}

#[test]
fn paths_are_resolved_as_far_as_they_lead_somewhere() {
    assert_eq!(resolved(Some("/real/f"), Some("/dir/f"), "f"), "/real/f");
    assert_eq!(resolved(None, Some("/dir/f"), "f"), "/dir/f");
    assert_eq!(resolved(None, None, "f"), "f");
}

#[test]
fn a_path_without_a_directory_lies_here() {
    assert_eq!(directory_of(Some("/dir"), false, "."), "/dir");
    assert_eq!(directory_of(Some(""), true, "."), ".");
    assert_eq!(directory_of(None, false, "."), ".");
}

#[test]
fn resolving_is_done_once() {
    // One directory, /real, which is also the current one; only the file
    // /real/old exists, and a path that asks for it as a directory fails.
    let canonical = |p: &str| match p {
        "." | "/real" => Some("/real".to_string()),
        "old" | "./old" | "/real/old" => Some("/real/old".to_string()),
        _ => None,
    };
    let resolve = |p: &str| {
        let q = p.trim_end_matches('/');
        let (parent, name) = match q.rfind('/') {
            Some(i) => (&q[..i], &q[i + 1..]),
            None => ("", q),
        };
        let dir = directory_of(Some(parent), parent.is_empty(), ".");
        let in_directory = canonical(dir).map(|d| format!("{d}/{name}"));
        resolved(canonical(p), in_directory, p.to_string())
    };
    for p in ["old", "./old", "old/", "new", "./new", "/real/new", "/nowhere/new"] {
        assert_eq!(resolve(&resolve(p)), resolve(p), "{p}");
    }
    assert_eq!(resolve("old"), "/real/old");
    assert_eq!(resolve("./old"), "/real/old");
    assert_eq!(resolve("old/"), "/real/old");
    assert_eq!(resolve("new"), "/real/new");
    assert_eq!(resolve("./new"), "/real/new");
    assert_eq!(resolve("/nowhere/new"), "/nowhere/new");
}
