use superview::batch::{greet, Batch, Step};
use superview::encoder::FfmpegInfo;
use superview::error::Error;
use superview::job::Message;

fn shown(list: &[&str]) -> Vec<String> {
    list.iter().map(|s| s.to_string()).collect()
}

fn lines(list: &[Message]) -> Vec<String> {
    list.iter()
        .map(|m| match m {
            Message::Stdout(s) => format!("out {s}"),
            Message::Stderr(s) => format!("err {s}"),
        })
        .collect()
}

#[test]
fn a_run_greets_with_what_ffmpeg_has() {
    let info = FfmpegInfo {
        version: "n7".to_string(),
        encoders: shown(&["libx264", "mpeg4", "libx265"]),
    };
    assert_eq!(
        lines(&greet(&info)),
        vec!["out ffmpeg version: n7", "out H.264/H.265 encoders: libx264, libx265\n"]
    );
}

#[test]
fn several_files_have_no_common_output() {
    assert_eq!(
        Batch::new(shown(&["a", "b"]), true).err().unwrap().message,
        "--output cannot be used with multiple inputs; output names are derived per file"
    );
    assert!(Batch::new(shown(&["a"]), true).is_ok());
    assert!(Batch::new(shown(&["a", "b"]), false).is_ok());
}

#[test]
fn one_file_fails_with_its_own_error() {
    let mut b = Batch::new(shown(&["a"]), false).unwrap();
    match b.next(false) {
        Step::Process(0, said) => assert!(said.is_empty()),
        other => panic!("{other:?}"),
    }
    assert_eq!(b.processed(Some(Error::of("bad")), false).unwrap_err().message, "bad");
    let mut b = Batch::new(shown(&["a"]), false).unwrap();
    assert!(b.processed(None, false).unwrap().is_empty());
    assert!(matches!(b.next(true), Step::Finish));
}

#[test]
fn failures_of_several_files_are_collected() {
    let mut b = Batch::new(shown(&["a", "b", "c"]), false).unwrap();
    match b.next(false) {
        Step::Process(0, said) => assert_eq!(lines(&said), vec!["out [1/3] a"]),
        other => panic!("{other:?}"),
    }
    assert_eq!(
        lines(&b.processed(Some(Error::of("bad")), false).unwrap()),
        vec!["err Error processing a: bad\n"]
    );
    match b.next(false) {
        Step::Process(1, said) => assert_eq!(lines(&said), vec!["out [2/3] b"]),
        other => panic!("{other:?}"),
    }
    assert!(b.processed(None, false).unwrap().is_empty());
    b.processed(Some(Error::of("worse")), false).unwrap();
    match b.next(false) {
        Step::Stop(e) => assert_eq!(e.message, "2/3 files failed: a, c"),
        other => panic!("{other:?}"),
    }
}

#[test]
fn an_interruption_ends_the_run() {
    let mut b = Batch::new(shown(&["a", "b"]), false).unwrap();
    assert_eq!(b.processed(Some(Error::of("bad")), true).unwrap_err().message, "Interrupted");
    match b.next(true) {
        Step::Stop(e) => assert_eq!(e.message, "Interrupted"),
        other => panic!("{other:?}"),
    }
}
