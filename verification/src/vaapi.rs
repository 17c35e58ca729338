//! VAAPI devices: how they are tried out, and which one is used.

use vstd::prelude::*;
use vstd::string::*;

use crate::args::{path, texts, ArgList, ArgView};
use crate::error::Error;
use crate::text::{
    begins, borrowed, cat, cat3, first_difference_decides, in_order, join, joined, ordered,
    ordered_is_total, ordered_is_transitive, parts_are_contained, starts_with, strings,
};

verus! {

/// The pixel format in which frames are handed to a device.
pub open spec fn upload_format(is_10bit: bool) -> Seq<char> {
    if is_10bit {
        "p010"@
    } else {
        "nv12"@
    }
}

/// The pixel format in which frames are handed to a device.
pub fn vaapi_upload_format(is_10bit: bool) -> (r: &'static str)
    ensures
        r@ == upload_format(is_10bit),
{
    if is_10bit {
        "p010"
    } else {
        "nv12"
    }
}

// ---------------------------------------------------------------------------
// Trials
// ---------------------------------------------------------------------------

/// The arguments of ffmpeg that try whether a device encodes one black frame.
pub open spec fn encode_trial<P>(
    encoder: Seq<char>,
    device: P,
    format: Seq<char>,
) -> Seq<ArgView<P>> {
    texts(seq!["-hide_banner"@, "-loglevel"@, "error"@, "-vaapi_device"@]) + path(device) + texts(
        seq![
            "-f"@,
            "lavfi"@,
            "-i"@,
            "color=black:size=320x240:rate=30"@,
            "-frames:v"@,
            "1"@,
            "-vf"@,
            "format="@ + format + ",hwupload"@,
            "-c:v"@,
            encoder,
            "-f"@,
            "null"@,
            "-"@,
        ],
    )
}

/// The arguments of ffmpeg that try whether a device encodes.
pub fn vaapi_encode_args<P>(encoder: &str, device: P, format: &str) -> (r: ArgList<P>)
    ensures
        r@ == encode_trial(encoder@, device, format@),
{
    let mut r: ArgList<P> = ArgList::new();
    r.pair("-hide_banner", "-loglevel");
    r.pair("error", "-vaapi_device");
    assert(r@ =~= texts(seq!["-hide_banner"@, "-loglevel"@, "error"@, "-vaapi_device"@]));
    r.path(device);
    let ghost head = r@;
    let upload: String = cat3("format=", format, ",hwupload");
    r.pair("-f", "lavfi");
    r.pair("-i", "color=black:size=320x240:rate=30");
    r.pair("-frames:v", "1");
    r.pair("-vf", upload.as_str());
    r.pair("-c:v", encoder);
    r.pair("-f", "null");
    r.text("-");
    assert(r@ =~= encode_trial(encoder@, device, format@));
    r
}

/// The arguments of ffmpeg that try whether a device decodes one frame of the
/// input.
pub open spec fn decode_trial<P>(input: P, device: P) -> Seq<ArgView<P>> {
    texts(
        seq![
            "-hide_banner"@,
            "-loglevel"@,
            "error"@,
            "-hwaccel"@,
            "vaapi"@,
            "-hwaccel_output_format"@,
            "vaapi"@,
            "-hwaccel_device"@,
        ],
    ) + path(device) + texts(seq!["-i"@]) + path(input) + texts(
        seq!["-frames:v"@, "1"@, "-f"@, "null"@, "-"@],
    )
}

/// The arguments of ffmpeg that try whether a device decodes the input.
pub fn vaapi_decode_args<P>(input: P, device: P) -> (r: ArgList<P>)
    ensures
        r@ == decode_trial(input, device),
{
    let mut r: ArgList<P> = ArgList::new();
    r.pair("-hide_banner", "-loglevel");
    r.pair("error", "-hwaccel");
    r.pair("vaapi", "-hwaccel_output_format");
    r.pair("vaapi", "-hwaccel_device");
    assert(r@ =~= texts(
        seq![
            "-hide_banner"@,
            "-loglevel"@,
            "error"@,
            "-hwaccel"@,
            "vaapi"@,
            "-hwaccel_output_format"@,
            "vaapi"@,
            "-hwaccel_device"@,
        ],
    ));
    r.path(device);
    r.text("-i");
    r.path(input);
    let ghost head = r@;
    r.pair("-frames:v", "1");
    r.pair("-f", "null");
    r.text("-");
    assert(r@ =~= head + texts(seq!["-frames:v"@, "1"@, "-f"@, "null"@, "-"@]));
    r
}

// ---------------------------------------------------------------------------
// Render nodes
// ---------------------------------------------------------------------------

/// The path of an entry of `/dev/dri`.
pub open spec fn node_path(name: Seq<char>) -> Seq<char> {
    "/dev/dri/"@ + name
}

/// The paths of the entries of `/dev/dri` that are render nodes, in the order
/// in which they are given.
pub open spec fn node_paths(names: Seq<Seq<char>>) -> Seq<Seq<char>>
    decreases names.len(),
{
    if names.len() == 0 {
        Seq::empty()
    } else {
        let init = node_paths(names.drop_last());
        if starts_with(names.last(), "renderD"@) {
            init.push(node_path(names.last()))
        } else {
            init
        }
    }
}

/// Every text comes before those that follow it.
pub open spec fn sorted(list: Seq<Seq<char>>) -> bool {
    forall|i: int, j: int| 0 <= i <= j < list.len() ==> ordered(#[trigger] list[i], #[trigger] list[j])
}

proof fn insert_adds_one(list: Seq<Seq<char>>, k: int, t: Seq<char>)
    requires
        0 <= k <= list.len(),
    ensures
        list.insert(k, t).to_multiset() == list.to_multiset().insert(t),
{
    broadcast use vstd::seq_lib::group_to_multiset_ensures;

    let a = list.take(k);
    let b = list.skip(k);
    assert(list.insert(k, t) =~= a.push(t) + b);
    assert(list =~= a + b);
    vstd::seq_lib::lemma_multiset_commutative(a.push(t), b);
    vstd::seq_lib::lemma_multiset_commutative(a, b);
    assert(a.push(t).to_multiset() =~= a.to_multiset().insert(t));
    assert(list.insert(k, t).to_multiset() =~= list.to_multiset().insert(t));
}

proof fn ordered_is_reflexive(a: Seq<char>)
    ensures
        ordered(a, a),
{
    ordered_is_total(a, a);
}

/// Puts a text in its place in a sorted list.
fn insert_in_order(list: &mut Vec<String>, t: String)
    requires
        sorted(strings(old(list)@)),
    ensures
        sorted(strings(final(list)@)),
        strings(final(list)@).to_multiset() == strings(old(list)@).to_multiset().insert(t@),
{
    let ghost before = strings(list@);
    let mut k: usize = list.len();
    while k > 0 && !in_order(list[k - 1].as_str(), t.as_str())
        invariant
            k <= list@.len(),
            before == strings(list@),
            forall|j: int| k <= j < before.len() ==> ordered(t@, #[trigger] before[j]),
        decreases k,
    {
        proof {
            assert(before[k - 1] == list@[k - 1]@);
            ordered_is_total(t@, before[k - 1]);
        }
        k -= 1;
    }
    proof {
        if k > 0 {
            assert(before[k - 1] == list@[k - 1]@);
        }
        insert_adds_one(before, k as int, t@);
    }
    list.insert(k, t);
    proof {
        let after = strings(list@);
        assert(after =~= before.insert(k as int, t@));
        assert forall|i: int, j: int| 0 <= i <= j < after.len() implies ordered(
            #[trigger] after[i],
            #[trigger] after[j],
        ) by {
            if i == j {
                ordered_is_reflexive(after[i]);
            } else if i == k {
                assert(after[j] == before[j - 1]);
            } else if j == k {
                assert(after[i] == before[i]);
                assert(ordered(before[i], before[k - 1]));
                ordered_is_transitive(before[i], before[k - 1], t@);
            } else {
                let a = if i < k {
                    i
                } else {
                    i - 1
                };
                let b = if j < k {
                    j
                } else {
                    j - 1
                };
                assert(after[i] == before[a] && after[j] == before[b]);
                assert(ordered(before[a], before[b]));
            }
        }
    }
}

/// The render nodes among the entries of `/dev/dri`, in order.
pub fn render_nodes(names: &Vec<String>) -> (r: Vec<String>)
    ensures
        sorted(strings(r@)),
        strings(r@).to_multiset() == node_paths(strings(names@)).to_multiset(),
{
    let mut r: Vec<String> = Vec::new();
    let ghost all = strings(names@);
    let mut i: usize = 0;
    proof {
        assert(all.take(0) =~= Seq::<Seq<char>>::empty());
        assert(strings(r@) =~= node_paths(all.take(0)));
    }
    while i < names.len()
        invariant
            i <= names@.len(),
            all == strings(names@),
            sorted(strings(r@)),
            strings(r@).to_multiset() == node_paths(all.take(i as int)).to_multiset(),
        decreases names@.len() - i,
    {
        let name: &str = names[i].as_str();
        proof {
            assert(all.take(i + 1).drop_last() =~= all.take(i as int));
            assert(all.take(i + 1).last() == name@);
        }
        if begins(name, "renderD") {
            insert_in_order(&mut r, cat("/dev/dri/", name));
            proof {
                let head = node_paths(all.take(i as int));
                vstd::seq_lib::to_multiset_build(head, node_path(name@));
            }
        }
        i += 1;
    }
    assert(all.take(i as int) =~= all);
    r
}

// ---------------------------------------------------------------------------
// The search for a device
// ---------------------------------------------------------------------------

/// The place of the first success in a list of results.
pub open spec fn first_success(results: Seq<bool>) -> Option<int>
    decreases results.len(),
{
    if results.len() == 0 {
        None
    } else {
        match first_success(results.drop_last()) {
            Some(i) => Some(i),
            None => if results.last() {
                Some(results.len() - 1)
            } else {
                None
            },
        }
    }
}

fn first_success_exec(results: &Vec<bool>) -> (r: Option<usize>)
    ensures
        match r {
            Some(i) => first_success(results@) == Some(i as int) && i < results@.len(),
            None => first_success(results@) is None,
        },
{
    let mut i: usize = 0;
    assert(results@.take(0) =~= Seq::<bool>::empty());
    while i < results.len()
        invariant
            i <= results@.len(),
            first_success(results@.take(i as int)) is None,
        decreases results@.len() - i,
    {
        assert(results@.take(i + 1).drop_last() =~= results@.take(i as int));
        if results[i] {
            proof {
                success_stays(results@, i + 1);
            }
            return Some(i);
        }
        i += 1;
    }
    assert(results@.take(i as int) =~= results@);
    None
}

proof fn success_stays(results: Seq<bool>, k: int)
    requires
        0 <= k <= results.len(),
        first_success(results.take(k)) is Some,
    ensures
        first_success(results) == first_success(results.take(k)),
    decreases results.len() - k,
{
    if k < results.len() {
        assert(results.take(k + 1).drop_last() =~= results.take(k));
        success_stays(results, k + 1);
    } else {
        assert(results.take(k) =~= results);
    }
}

/// The next step of the search for a device that encodes.
#[derive(Debug)]
pub enum EncodeStep<P> {
    /// Use the device that was asked for.
    Use(P),
    /// Use the render node with this number.
    UseNode(usize),
    /// Try the render node with this number.
    TryNode(usize),
    /// Give up.
    Fail(Error),
}

/// What a step stands for.
pub enum EncodeStepView<P> {
    Use(P),
    UseNode(int),
    TryNode(int),
    Fail(Seq<char>),
}

impl<P> View for EncodeStep<P> {
    type V = EncodeStepView<P>;

    open spec fn view(&self) -> EncodeStepView<P> {
        match *self {
            EncodeStep::Use(p) => EncodeStepView::Use(p),
            EncodeStep::UseNode(i) => EncodeStepView::UseNode(i as int),
            EncodeStep::TryNode(i) => EncodeStepView::TryNode(i as int),
            EncodeStep::Fail(e) => EncodeStepView::Fail(e@),
        }
    }
}

/// Why no device encodes.
pub open spec fn no_device_text(
    encoder: Seq<char>,
    is_10bit: bool,
    nodes: Seq<Seq<char>>,
) -> Seq<char> {
    "No VAAPI device supports encoding "@ + upload_format(is_10bit) + " format with "@ + encoder
        + " (checked "@ + join(nodes, ", "@) + "). Use --vaapi-device to specify one."@
}

/// The next step of the search for a device that encodes, after the first
/// nodes were tried with these results. A device that was asked for is used
/// untried.
pub open spec fn encode_step<P>(
    encoder: Seq<char>,
    is_10bit: bool,
    explicit: Option<P>,
    nodes: Seq<Seq<char>>,
    results: Seq<bool>,
) -> EncodeStepView<P> {
    match explicit {
        Some(p) => EncodeStepView::Use(p),
        None => if nodes.len() == 0 {
            EncodeStepView::Fail(
                "No VAAPI render devices found in /dev/dri (is this a Linux system with a GPU?)"@,
            )
        } else {
            match first_success(results) {
                Some(i) => EncodeStepView::UseNode(i),
                None => if results.len() < nodes.len() {
                    EncodeStepView::TryNode(results.len() as int)
                } else {
                    EncodeStepView::Fail(no_device_text(encoder, is_10bit, nodes))
                },
            }
        },
    }
}

/// The next step of the search for a device that encodes.
pub fn find_vaapi_device<P>(
    encoder: &str,
    is_10bit: bool,
    explicit: Option<P>,
    nodes: &Vec<String>,
    results: &Vec<bool>,
) -> (r: EncodeStep<P>)
    ensures
        r@ == encode_step(encoder@, is_10bit, explicit, strings(nodes@), results@),
{
    if let Some(p) = explicit {
        return EncodeStep::Use(p);
    }
    if nodes.len() == 0 {
        return EncodeStep::Fail(
            Error::of(
                "No VAAPI render devices found in /dev/dri (is this a Linux system with a GPU?)",
            ),
        );
    }
    if let Some(i) = first_success_exec(results) {
        return EncodeStep::UseNode(i);
    }
    if results.len() < nodes.len() {
        return EncodeStep::TryNode(results.len());
    }
    let mut m: String = cat("No VAAPI device supports encoding ", vaapi_upload_format(is_10bit));
    m.append(" format with ");
    m.append(encoder);
    m.append(" (checked ");
    m.append(joined(&borrowed(nodes), ", ").as_str());
    m.append("). Use --vaapi-device to specify one.");
    EncodeStep::Fail(Error::new(m))
}

/// The next step of the search for a device that decodes.
#[derive(Debug)]
pub enum DecodeStep<P> {
    /// Use the device that was asked for.
    Use(P),
    /// Use the render node with this number.
    UseNode(usize),
    /// Try the device that was asked for.
    Try(P),
    /// Try the render node with this number.
    TryNode(usize),
    /// No device decodes.
    Nothing,
}

/// The next step of the search for a device that decodes, after the first
/// candidates were tried with these results. The candidates are the device
/// that was asked for, or else the nodes.
pub open spec fn decode_step<P>(
    explicit: Option<P>,
    nodes: nat,
    results: Seq<bool>,
) -> DecodeStep<P> {
    match explicit {
        Some(p) => if results.len() == 0 {
            DecodeStep::Try(p)
        } else if results[0] {
            DecodeStep::Use(p)
        } else {
            DecodeStep::Nothing
        },
        None => match first_success(results) {
            Some(i) => DecodeStep::UseNode(i as usize),
            None => if results.len() < nodes {
                DecodeStep::TryNode(results.len() as usize)
            } else {
                DecodeStep::Nothing
            },
        },
    }
}

/// The next step of the search for a device that decodes.
pub fn find_hw_decode_device<P>(
    explicit: Option<P>,
    nodes: &Vec<String>,
    results: &Vec<bool>,
) -> (r: DecodeStep<P>)
    ensures
        r == decode_step(explicit, nodes@.len(), results@),
{
    match explicit {
        Some(p) => if results.len() == 0 {
            DecodeStep::Try(p)
        } else if results[0] {
            DecodeStep::Use(p)
        } else {
            DecodeStep::Nothing
        },
        None => match first_success_exec(results) {
            Some(i) => DecodeStep::UseNode(i),
            None => if results.len() < nodes.len() {
                DecodeStep::TryNode(results.len())
            } else {
                DecodeStep::Nothing
            },
        },
    }
}

proof fn first_success_is_first(results: Seq<bool>)
    ensures
        match first_success(results) {
            Some(i) => 0 <= i < results.len() && results[i] && forall|j: int|
                0 <= j < i ==> !results[j],
            None => forall|j: int| 0 <= j < results.len() ==> !results[j],
        },
    decreases results.len(),
{
    if results.len() > 0 {
        let init = results.drop_last();
        first_success_is_first(init);
        assert forall|j: int| 0 <= j < init.len() implies init[j] == results[j] by {}
        match first_success(init) {
            Some(i) => {
                assert(results[i]);
                assert forall|j: int| 0 <= j < i implies !results[j] by {
                    assert(!init[j]);
                }
            },
            None => {
                assert forall|j: int| 0 <= j < results.len() - 1 implies !results[j] by {
                    assert(!init[j]);
                }
            },
        }
    }
}

/// If `works` says of each node whether it works, the search tries the nodes in
/// order, each of them once, up to the first that works, and uses that one. If
/// none works it gives up once all were tried.
pub proof fn first_working_node_is_used<P>(
    encoder: Seq<char>,
    is_10bit: bool,
    nodes: Seq<Seq<char>>,
    works: Seq<bool>,
    tried: int,
)
    requires
        nodes.len() > 0,
        works.len() == nodes.len(),
        0 <= tried <= works.len(),
    ensures
        (forall|j: int| 0 <= j < tried ==> !works[j]) ==> if tried < works.len() {
            encode_step::<P>(encoder, is_10bit, None, nodes, works.take(tried))
                == EncodeStepView::<P>::TryNode(tried) && decode_step::<P>(
                None,
                nodes.len(),
                works.take(tried),
            ) == DecodeStep::<P>::TryNode(tried as usize)
        } else {
            encode_step::<P>(encoder, is_10bit, None, nodes, works.take(tried)) is Fail
                && decode_step::<P>(None, nodes.len(), works.take(tried))
                == DecodeStep::<P>::Nothing
        },
        (tried > 0 && works[tried - 1] && forall|j: int| 0 <= j < tried - 1 ==> !works[j]) ==> {
            &&& encode_step::<P>(encoder, is_10bit, None, nodes, works.take(tried))
                == EncodeStepView::<P>::UseNode(tried - 1)
            &&& decode_step::<P>(None, nodes.len(), works.take(tried))
                == DecodeStep::<P>::UseNode((tried - 1) as usize)
        },
{
    let seen = works.take(tried);
    first_success_is_first(seen);
    assert forall|j: int| 0 <= j < tried implies seen[j] == works[j] by {}
    if tried > 0 && works[tried - 1] && (forall|j: int| 0 <= j < tried - 1 ==> !works[j]) {
        assert(seen[tried - 1]);
        let i = first_success(seen)->0;
        if i < tried - 1 {
            assert(!works[i]);
        }
    }
    if forall|j: int| 0 <= j < tried ==> !works[j] {
        if first_success(seen) is Some {
            let i = first_success(seen)->0;
            assert(!works[i]);
        }
    }
}

/// A device that is asked for encodes untried, whatever nodes there are. To
/// decode, it alone is tried, once, and used only if that succeeds.
pub proof fn requested_device_goes_before_the_nodes<P>(
    encoder: Seq<char>,
    is_10bit: bool,
    device: P,
    nodes: Seq<Seq<char>>,
    results: Seq<bool>,
)
    ensures
        encode_step(encoder, is_10bit, Some(device), nodes, results) == EncodeStepView::Use(device),
        decode_step(Some(device), nodes.len(), Seq::empty()) == DecodeStep::Try(device),
        results.len() > 0 && results[0] ==> decode_step(Some(device), nodes.len(), results)
            == DecodeStep::Use(device),
        results.len() > 0 && !results[0] ==> decode_step(Some(device), nodes.len(), results)
            == DecodeStep::<P>::Nothing,
{
}

/// Without nodes there is no device to encode with, and it is said where they
/// were looked for. If all nodes were tried in vain, the format, the encoder
/// and the nodes are named.
pub proof fn missing_devices_are_told<P>(
    encoder: Seq<char>,
    is_10bit: bool,
    nodes: Seq<Seq<char>>,
    results: Seq<bool>,
)
    requires
        results.len() == nodes.len(),
        forall|i: int| 0 <= i < results.len() ==> !results[i],
    ensures
        nodes.len() == 0 ==> encode_step::<P>(encoder, is_10bit, None, nodes, results)
            == EncodeStepView::<P>::Fail(
            "No VAAPI render devices found in /dev/dri (is this a Linux system with a GPU?)"@,
        ),
        nodes.len() > 0 ==> encode_step::<P>(encoder, is_10bit, None, nodes, results)
            == EncodeStepView::<P>::Fail(
            "No VAAPI device supports encoding "@ + (if is_10bit {
                "p010"@
            } else {
                "nv12"@
            }) + " format with "@ + encoder + " (checked "@ + join(nodes, ", "@)
                + "). Use --vaapi-device to specify one."@,
        ),
        decode_step::<P>(None, nodes.len(), results) == DecodeStep::<P>::Nothing,
{
    first_success_is_first(results);
}

/// Frames go to a device as `p010` if they have 10 bits, else as `nv12`.
pub proof fn upload_keeps_the_bits()
    ensures
        upload_format(true) == "p010"@,
        upload_format(false) == "nv12"@,
{
}

/// An entry of `/dev/dri` is a render node if its name begins with `renderD`,
/// and is found under that directory. Others are passed over, and none comes
/// from nowhere.
pub proof fn render_nodes_go_by_their_names(
    names: Seq<Seq<char>>,
    rest: Seq<char>,
    name: Seq<char>,
)
    ensures
        node_paths(Seq::empty()) == Seq::<Seq<char>>::empty(),
        node_paths(names.push("renderD"@ + rest)) == node_paths(names).push(
            "/dev/dri/"@ + "renderD"@ + rest,
        ),
        name.len() < 7 || name.take(7) != "renderD"@ ==> node_paths(names.push(name))
            == node_paths(names),
{
    reveal_strlit("renderD");
    parts_are_contained(Seq::empty(), "renderD"@, rest);
    assert(names.push("renderD"@ + rest).drop_last() =~= names);
    assert(names.push(name).drop_last() =~= names);
    assert("/dev/dri/"@ + ("renderD"@ + rest) =~= "/dev/dri/"@ + "renderD"@ + rest);
    if name.len() >= 7 {
        assert(name.subrange(0, 7) =~= name.take(7));
    }
}

/// A trial to encode hands one frame, in the given format, to the device that
/// is tried and to the encoder that is wanted, and keeps no output.
pub proof fn encoding_is_tried_on_one_frame<P>(encoder: Seq<char>, device: P, format: Seq<char>)
    ensures
        ({
            let c = encode_trial(encoder, device, format);
            &&& c.len() == 18
            &&& c[3] == ArgView::<P>::Text("-vaapi_device"@)
            &&& c[4] == ArgView::Path(device)
            &&& c[7] == ArgView::<P>::Text("-i"@)
            &&& c[8] == ArgView::<P>::Text("color=black:size=320x240:rate=30"@)
            &&& c[9] == ArgView::<P>::Text("-frames:v"@)
            &&& c[10] == ArgView::<P>::Text("1"@)
            &&& c[11] == ArgView::<P>::Text("-vf"@)
            &&& c[12] == ArgView::<P>::Text("format="@ + format + ",hwupload"@)
            &&& c[13] == ArgView::<P>::Text("-c:v"@)
            &&& c[14] == ArgView::<P>::Text(encoder)
            &&& c[15] == ArgView::<P>::Text("-f"@)
            &&& c[16] == ArgView::<P>::Text("null"@)
            &&& c[17] == ArgView::<P>::Text("-"@)
        }),
{
}

/// A trial to decode takes one frame of the input itself through the device
/// that is tried, and keeps no output.
pub proof fn decoding_is_tried_on_the_input<P>(input: P, device: P)
    ensures
        ({
            let c = decode_trial(input, device);
            &&& c.len() == 16
            &&& c[3] == ArgView::<P>::Text("-hwaccel"@)
            &&& c[4] == ArgView::<P>::Text("vaapi"@)
            &&& c[5] == ArgView::<P>::Text("-hwaccel_output_format"@)
            &&& c[6] == ArgView::<P>::Text("vaapi"@)
            &&& c[7] == ArgView::<P>::Text("-hwaccel_device"@)
            &&& c[8] == ArgView::Path(device)
            &&& c[9] == ArgView::<P>::Text("-i"@)
            &&& c[10] == ArgView::Path(input)
            &&& c[11] == ArgView::<P>::Text("-frames:v"@)
            &&& c[12] == ArgView::<P>::Text("1"@)
            &&& c[13] == ArgView::<P>::Text("-f"@)
            &&& c[14] == ArgView::<P>::Text("null"@)
            &&& c[15] == ArgView::<P>::Text("-"@)
        }),
{
}

/// In a sorted list the one of two texts comes first that has the lesser
/// character where they begin to differ, or that ends there.
pub proof fn sorted_by_the_first_difference(list: Seq<Seq<char>>, i: int, j: int, k: int)
    requires
        sorted(list),
        0 <= i < j < list.len(),
        0 <= k <= list[i].len(),
        k <= list[j].len(),
        list[i].take(k) == list[j].take(k),
    ensures
        k < list[i].len() && k < list[j].len() ==> list[i][k] <= list[j][k],
        k == list[j].len() ==> list[i] == list[j],
{
    assert(ordered(list[i], list[j]));
    first_difference_decides(list[i], list[j], k);
    if k == list[j].len() {
        assert(list[i].take(k) =~= list[i]);
        assert(list[j].take(k) =~= list[j]);
    }
}

} // verus!
