//! Where programs and files are found.

use vstd::prelude::*;
use vstd::string::*;

use crate::text::{cat3, opt_str};

verus! {

// ---------------------------------------------------------------------------
// Programs
// ---------------------------------------------------------------------------

/// The two programs that do the work.
#[derive(Debug)]
pub struct FfmpegPaths<P> {
    pub ffmpeg: P,
    pub ffprobe: P,
}

/// The file name of ffmpeg.
pub open spec fn ffmpeg_file(windows: bool) -> Seq<char> {
    if windows {
        "ffmpeg.exe"@
    } else {
        "ffmpeg"@
    }
}

/// The file name of ffprobe.
pub open spec fn probe_file(windows: bool) -> Seq<char> {
    if windows {
        "ffprobe.exe"@
    } else {
        "ffprobe"@
    }
}

/// The file name of ffmpeg.
pub fn ffmpeg_name(windows: bool) -> (r: &'static str)
    ensures
        r@ == ffmpeg_file(windows),
{
    if windows {
        "ffmpeg.exe"
    } else {
        "ffmpeg"
    }
}

/// The file name of ffprobe.
pub fn probe_name(windows: bool) -> (r: &'static str)
    ensures
        r@ == probe_file(windows),
{
    if windows {
        "ffprobe.exe"
    } else {
        "ffprobe"
    }
}

/// The programs to use: those that were asked for, else those that lie beside
/// this program, if ffmpeg is there, else those that the system finds by name.
pub open spec fn programs<P>(
    explicit: Option<FfmpegPaths<P>>,
    beside: Option<FfmpegPaths<P>>,
    beside_exists: bool,
    by_name: FfmpegPaths<P>,
) -> FfmpegPaths<P> {
    match (explicit, beside) {
        (Some(e), _) => e,
        (None, Some(b)) => if beside_exists {
            b
        } else {
            by_name
        },
        (None, None) => by_name,
    }
}

/// Which programs to use: those that were asked for, else those that lie beside
/// this program, if ffmpeg is there, else those that the system finds by name.
pub fn resolve_paths<P>(
    explicit: Option<FfmpegPaths<P>>,
    beside: Option<FfmpegPaths<P>>,
    beside_exists: bool,
    by_name: FfmpegPaths<P>,
) -> (r: FfmpegPaths<P>)
    ensures
        r == programs(explicit, beside, beside_exists, by_name),
{
    if let Some(e) = explicit {
        return e;
    }
    match beside {
        Some(b) => if beside_exists {
            b
        } else {
            by_name
        },
        None => by_name,
    }
}

// ---------------------------------------------------------------------------
// Files
// ---------------------------------------------------------------------------

/// What is added to the name of the input.
pub open spec fn suffix(no_stretch: bool, squeeze: bool) -> Seq<char> {
    if no_stretch {
        "_cropped"@
    } else if squeeze {
        "_squeezed"@
    } else {
        "_superview"@
    }
}

/// The name of the output for an input whose name has the given stem.
pub open spec fn output_name(
    stem: Option<Seq<char>>,
    no_stretch: bool,
    squeeze: bool,
) -> Seq<char> {
    (match stem {
        Some(s) => s,
        None => "output"@,
    }) + suffix(no_stretch, squeeze) + ".mp4"@
}

/// The name of the output for an input whose name has the given stem.
pub fn default_output(stem: Option<&str>, no_stretch: bool, squeeze: bool) -> (r: String)
    ensures
        r@ == output_name(opt_str(stem), no_stretch, squeeze),
{
    let name: &str = match stem {
        Some(s) => s,
        None => "output",
    };
    let added: &str = if no_stretch {
        "_cropped"
    } else if squeeze {
        "_squeezed"
    } else {
        "_superview"
    };
    cat3(name, added, ".mp4")
}

/// The name of an input with the given stem and extension.
pub open spec fn file_name(stem: Seq<char>, extension: Option<Seq<char>>) -> Seq<char> {
    match extension {
        Some(e) => stem + "."@ + e,
        None => stem,
    }
}

/// A derived output never has the name of its input.
pub proof fn derived_name_is_new(
    stem: Seq<char>,
    extension: Option<Seq<char>>,
    no_stretch: bool,
    squeeze: bool,
)
    ensures
        output_name(Some(stem), no_stretch, squeeze) != file_name(stem, extension),
{
    reveal_strlit("_cropped");
    reveal_strlit("_squeezed");
    reveal_strlit("_superview");
    reveal_strlit(".");
    reveal_strlit(".mp4");
    let a = output_name(Some(stem), no_stretch, squeeze);
    let b = file_name(stem, extension);
    assert(a[stem.len() as int] == '_');
    if extension is Some {
        assert(b[stem.len() as int] == '.');
    }
}

/// Different stems give different outputs of one kind.
pub proof fn derived_names_differ(
    a: Seq<char>,
    b: Seq<char>,
    no_stretch: bool,
    squeeze: bool,
)
    requires
        a != b,
    ensures
        output_name(Some(a), no_stretch, squeeze) != output_name(Some(b), no_stretch, squeeze),
{
    let tail = suffix(no_stretch, squeeze) + ".mp4"@;
    let x = output_name(Some(a), no_stretch, squeeze);
    let y = output_name(Some(b), no_stretch, squeeze);
    assert(x =~= a + tail);
    assert(y =~= b + tail);
    if x == y {
        assert(a =~= x.take(x.len() - tail.len()));
        assert(b =~= y.take(y.len() - tail.len()));
    }
}

/// The directory of a path: its parent, or `here` where it has none or an empty
/// one.
pub open spec fn directory<P>(parent: Option<P>, parent_is_empty: bool, here: P) -> P {
    match parent {
        Some(p) => if parent_is_empty {
            here
        } else {
            p
        },
        None => here,
    }
}

/// The directory of a path: its parent, or `here` where it has none or an empty
/// one.
pub fn directory_of<P>(parent: Option<P>, parent_is_empty: bool, here: P) -> (r: P)
    ensures
        r == directory(parent, parent_is_empty, here),
{
    match parent {
        Some(p) => if parent_is_empty {
            here
        } else {
            p
        },
        None => here,
    }
}

/// What a path leads to: its canonical form, else its name in the canonical
/// form of its directory, else the path itself.
pub open spec fn destination<P>(canonical: Option<P>, in_directory: Option<P>, path: P) -> P {
    match (canonical, in_directory) {
        (Some(p), _) => p,
        (None, Some(p)) => p,
        (None, None) => path,
    }
}

/// What a path leads to: its canonical form, else its name in the canonical
/// form of its directory, else the path itself.
pub fn resolved<P>(canonical: Option<P>, in_directory: Option<P>, path: P) -> (r: P)
    ensures
        r == destination(canonical, in_directory, path),
{
    if let Some(p) = canonical {
        return p;
    }
    match in_directory {
        Some(p) => p,
        None => path,
    }
}

/// What is known of paths of kind `P` and file names of kind `N`, as long as
/// nothing changes in the file system and the current directory stays.
#[verifier::reject_recursive_types(P)]
#[verifier::reject_recursive_types(N)]
pub struct PathFacts<P, N> {
    /// The canonical form of a path, if it leads to something.
    pub canonical: spec_fn(P) -> Option<P>,
    pub parent: spec_fn(P) -> Option<P>,
    pub is_empty: spec_fn(P) -> bool,
    pub name: spec_fn(P) -> Option<N>,
    pub join: spec_fn(P, N) -> P,
    /// The path of the current directory.
    pub here: P,
}

impl<P, N> PathFacts<P, N> {
    /// The directory of a path.
    pub open spec fn directory(self, p: P) -> P {
        let parent = (self.parent)(p);
        directory(parent, parent is Some && (self.is_empty)(parent->0), self.here)
    }

    /// The name of a path in the canonical form of its directory.
    pub open spec fn in_directory(self, p: P) -> Option<P> {
        match ((self.canonical)(self.directory(p)), (self.name)(p)) {
            (Some(d), Some(n)) => Some((self.join)(d, n)),
            _ => None,
        }
    }

    /// What a path leads to.
    pub open spec fn resolve(self, p: P) -> P {
        destination((self.canonical)(p), self.in_directory(p), p)
    }

    /// What holds of a file system: a canonical path is its own canonical form,
    /// and not empty.
    pub open spec fn canonical_is_fixed(self) -> bool {
        forall|p: P|
            (#[trigger] (self.canonical)(p)) matches Some(c) ==> (self.canonical)(c) == Some(c)
                && !(self.is_empty)(c)
    }

    /// What holds of joined paths: the name of a path, put into a canonical
    /// directory, is found there again.
    pub open spec fn joins(self, p: P) -> bool {
        match ((self.canonical)(self.directory(p)), (self.name)(p)) {
            (Some(d), Some(n)) => {
                let q = (self.join)(d, n);
                (self.parent)(q) == Some(d) && (self.name)(q) == Some(n)
            },
            _ => true,
        }
    }

    /// What holds of most paths that have no canonical form: their name in the
    /// canonical form of their directory has none either, or is its own. A name
    /// of a link that leads elsewhere is neither.
    pub open spec fn settles(self, p: P) -> bool {
        match ((self.canonical)(p), self.in_directory(p)) {
            (None, Some(q)) => (self.canonical)(q) is None || (self.canonical)(q) == Some(q),
            _ => true,
        }
    }
}

/// Resolving a path twice is resolving it once.
pub proof fn resolving_twice_changes_nothing<P, N>(facts: PathFacts<P, N>, p: P)
    requires
        facts.canonical_is_fixed(),
        facts.joins(p),
        facts.settles(p),
    ensures
        facts.resolve(facts.resolve(p)) == facts.resolve(p),
{
    let dir = (facts.canonical)(facts.directory(p));
    match (facts.canonical)(p) {
        Some(c) => {},
        None => match (dir, (facts.name)(p)) {
            (Some(d), Some(n)) => {
                let q = (facts.join)(d, n);
                assert(facts.directory(q) == d);
                assert(facts.in_directory(q) == Some(q));
            },
            _ => {},
        },
    }
}

/// No other paths settle: where resolving twice is resolving once, the name in
/// the directory has no canonical form or is its own.
pub proof fn only_settled_paths_stay<P, N>(facts: PathFacts<P, N>, p: P)
    requires
        facts.resolve(facts.resolve(p)) == facts.resolve(p),
    ensures
        facts.settles(p),
{
}

/// Paths with one canonical form lead to it.
pub proof fn paths_to_one_file_resolve_alike<P, N>(facts: PathFacts<P, N>, a: P, b: P, c: P)
    requires
        (facts.canonical)(a) == Some(c),
        (facts.canonical)(b) == Some(c),
    ensures
        facts.resolve(a) == c,
        facts.resolve(b) == c,
{
}

/// Paths to a file that is not there yet lead to its name in the canonical form
/// of its directory.
pub proof fn paths_to_a_new_file_resolve_alike<P, N>(
    facts: PathFacts<P, N>,
    a: P,
    b: P,
    d: P,
    n: N,
)
    requires
        (facts.canonical)(a) is None,
        (facts.canonical)(b) is None,
        (facts.canonical)(facts.directory(a)) == Some(d),
        (facts.canonical)(facts.directory(b)) == Some(d),
        (facts.name)(a) == Some(n),
        (facts.name)(b) == Some(n),
    ensures
        facts.resolve(a) == (facts.join)(d, n),
        facts.resolve(b) == (facts.join)(d, n),
{
}

/// A bare name and the same name after the path of the current directory lead to
/// one file, also where it is not there yet.
pub proof fn bare_names_lead_here<P, N>(facts: PathFacts<P, N>, bare: P, dotted: P, d: P, n: N)
    requires
        (facts.canonical)(bare) is None,
        (facts.canonical)(dotted) is None,
        (facts.parent)(bare) matches Some(p) ==> (facts.is_empty)(p),
        (facts.parent)(dotted) == Some(facts.here),
        (facts.canonical)(facts.here) == Some(d),
        (facts.name)(bare) == Some(n),
        (facts.name)(dotted) == Some(n),
    ensures
        facts.resolve(bare) == (facts.join)(d, n),
        facts.resolve(dotted) == (facts.join)(d, n),
{
}

/// A derived output is an MP4 file named after its input and after what is
/// done to it: cropping alone goes before squeezing, and stretching is what is
/// done without either. Without a stem it is named `output`.
pub proof fn derived_names_tell_what_is_done(stem: Seq<char>, squeeze: bool)
    ensures
        output_name(Some(stem), true, squeeze) == stem + "_cropped.mp4"@,
        output_name(Some(stem), false, true) == stem + "_squeezed.mp4"@,
        output_name(Some(stem), false, false) == stem + "_superview.mp4"@,
        output_name(None, true, squeeze) == "output_cropped.mp4"@,
        output_name(None, false, true) == "output_squeezed.mp4"@,
        output_name(None, false, false) == "output_superview.mp4"@,
{
    reveal_strlit("_cropped");
    reveal_strlit("_squeezed");
    reveal_strlit("_superview");
    reveal_strlit(".mp4");
    reveal_strlit("output");
    reveal_strlit("_cropped.mp4");
    reveal_strlit("_squeezed.mp4");
    reveal_strlit("_superview.mp4");
    reveal_strlit("output_cropped.mp4");
    reveal_strlit("output_squeezed.mp4");
    reveal_strlit("output_superview.mp4");
    assert(output_name(Some(stem), true, squeeze) =~= stem + "_cropped.mp4"@);
    assert(output_name(Some(stem), false, true) =~= stem + "_squeezed.mp4"@);
    assert(output_name(Some(stem), false, false) =~= stem + "_superview.mp4"@);
    assert(output_name(None, true, squeeze) =~= "output_cropped.mp4"@);
    assert(output_name(None, false, true) =~= "output_squeezed.mp4"@);
    assert(output_name(None, false, false) =~= "output_superview.mp4"@);
}

/// The programs are named `ffmpeg` and `ffprobe`, on Windows with `.exe`.
pub proof fn programs_have_their_names()
    ensures
        ffmpeg_file(false) == "ffmpeg"@,
        probe_file(false) == "ffprobe"@,
        ffmpeg_file(true) == "ffmpeg"@ + ".exe"@,
        probe_file(true) == "ffprobe"@ + ".exe"@,
{
    reveal_strlit("ffmpeg");
    reveal_strlit("ffprobe");
    reveal_strlit(".exe");
    reveal_strlit("ffmpeg.exe");
    reveal_strlit("ffprobe.exe");
    assert("ffmpeg.exe"@ =~= "ffmpeg"@ + ".exe"@);
    assert("ffprobe.exe"@ =~= "ffprobe"@ + ".exe"@);
}

/// Programs that are asked for are used whatever else is there. Those beside
/// this program are used only if ffmpeg is there, and else those are used that
/// the system finds.
pub proof fn requested_programs_go_first<P>(
    e: FfmpegPaths<P>,
    beside: Option<FfmpegPaths<P>>,
    b: FfmpegPaths<P>,
    beside_exists: bool,
    by_name: FfmpegPaths<P>,
)
    ensures
        programs(Some(e), beside, beside_exists, by_name) == e,
        programs(None, Some(b), true, by_name) == b,
        programs(None, Some(b), false, by_name) == by_name,
        programs(None, None, beside_exists, by_name) == by_name,
{
}

/// A path that leads to something stands for that, whatever its directory is.
/// One that leads to nothing stands for its name in its directory, if that is
/// there, and else for itself. The directory of a bare name is the current one.
pub proof fn paths_stand_for_what_they_lead_to<P>(
    canonical: P,
    in_directory: P,
    other: Option<P>,
    path: P,
    here: P,
    empty: bool,
)
    ensures
        destination(Some(canonical), other, path) == canonical,
        destination(None, Some(in_directory), path) == in_directory,
        destination(None, None, path) == path,
        directory(Some(path), false, here) == path,
        directory(Some(path), true, here) == here,
        directory(None, empty, here) == here,
{
}

} // verus!
