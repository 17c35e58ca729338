use superview::args::{Arg, ArgList};
use superview::vaapi::{
    find_hw_decode_device, find_vaapi_device, render_nodes, vaapi_decode_args, vaapi_encode_args,
    DecodeStep, EncodeStep,
};

fn plain(args: ArgList<&str>) -> Vec<String> {
    args.args
        .into_iter()
        .map(|a| match a {
            Arg::Text(t) => t,
            Arg::Path(p) => format!("<{p}>"),
        })
        .collect()
}

fn names(list: &[&str]) -> Vec<String> {
    list.iter().map(|s| s.to_string()).collect()
}

#[test]
fn render_nodes_are_sorted() {
    let found = names(&["card0", "renderD129", "by-path", "renderD128", "renderD1", "render"]);
    assert_eq!(
        render_nodes(&found),
        vec!["/dev/dri/renderD1", "/dev/dri/renderD128", "/dev/dri/renderD129"]
    );
    assert!(render_nodes(&names(&["card0"])).is_empty());
}

#[test]
fn the_first_node_that_works_encodes() {
    let nodes = names(&["a", "b", "c"]);
    let step = |results: &[bool]| {
        find_vaapi_device::<&str>("hevc_vaapi", true, None, &nodes, &results.to_vec())
    };
    assert!(matches!(step(&[]), EncodeStep::TryNode(0)));
    assert!(matches!(step(&[false]), EncodeStep::TryNode(1)));
    assert!(matches!(step(&[false, true]), EncodeStep::UseNode(1)));
    match step(&[false, false, false]) {
        EncodeStep::Fail(e) => assert_eq!(
            e.message,
            "No VAAPI device supports encoding p010 format with hevc_vaapi (checked a, b, c). Use --vaapi-device to specify one."
        ),
        other => panic!("{other:?}"),
    }
    match find_vaapi_device::<&str>("hevc_vaapi", true, None, &vec![], &vec![]) {
        EncodeStep::Fail(e) => assert_eq!(
            e.message,
            "No VAAPI render devices found in /dev/dri (is this a Linux system with a GPU?)"
        ),
        other => panic!("{other:?}"),
    }
    assert!(matches!(
        find_vaapi_device("hevc_vaapi", true, Some("mine"), &vec![], &vec![]),
        EncodeStep::Use("mine")
    ));
}

#[test]
fn the_first_node_that_works_decodes() {
    let nodes = names(&["a", "b"]);
    let step = |explicit, results: &[bool]| find_hw_decode_device(explicit, &nodes, &results.to_vec());
    assert!(matches!(step(None, &[]), DecodeStep::TryNode(0)));
    assert!(matches!(step(None, &[false, true]), DecodeStep::UseNode(1)));
    assert!(matches!(step(None, &[false, false]), DecodeStep::Nothing));
    assert!(matches!(step(Some("mine"), &[]), DecodeStep::Try("mine")));
    assert!(matches!(step(Some("mine"), &[true]), DecodeStep::Use("mine")));
    assert!(matches!(step(Some("mine"), &[false]), DecodeStep::Nothing));
}

#[test]
fn devices_are_tried_on_one_frame() {
    let encode = plain(vaapi_encode_args("hevc_vaapi", "dev", "nv12"));
    assert!(encode.contains(&"<dev>".to_string()));
    assert!(encode.contains(&"hevc_vaapi".to_string()));
    assert!(encode.iter().any(|a| a.contains("nv12")));
    assert_eq!(
        plain(vaapi_decode_args("in", "dev")),
        vec![
            "-hide_banner", "-loglevel", "error", "-hwaccel", "vaapi", "-hwaccel_output_format",
            "vaapi", "-hwaccel_device", "<dev>", "-i", "<in>", "-frames:v", "1", "-f", "null", "-",
        ]
    );
}
