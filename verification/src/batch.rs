//! One run of the program: all input files, one after the other.

use vstd::prelude::*;
use vstd::string::*;

use crate::decimal::{decimal, numeral};
use crate::encoder::{h26x, FfmpegInfo};
use crate::error::Error;
use crate::job::{err, out, views, Message, MessageView};
use crate::text::{cat, join, joined, strings, strs};

verus! {

/// What is said of ffmpeg at the start.
pub open spec fn greeting(version: Seq<char>, names: Seq<Seq<char>>) -> Seq<MessageView> {
    out("ffmpeg version: "@ + version) + out(
        "H.264/H.265 encoders: "@ + join(h26x(names), ", "@) + "\n"@,
    )
}

/// What is said of ffmpeg at the start.
pub fn greet(info: &FfmpegInfo) -> (r: Vec<Message>)
    ensures
        views(r@) == greeting(info.version@, info.names()),
{
    let first: String = cat("ffmpeg version: ", info.version.as_str());
    let mut second: String = cat("H.264/H.265 encoders: ", info.h26x_list().as_str());
    second.append("\n");
    let r: Vec<Message> = vec![Message::Stdout(first), Message::Stdout(second)];
    assert(views(r@) =~= greeting(info.version@, info.names()));
    r
}

/// The input files, as they are shown to the user, and of those that are
/// through whether they succeeded.
pub struct Batch {
    pub shown: Vec<String>,
    pub results: Vec<bool>,
}

/// The next step of a run.
#[derive(Debug)]
pub enum Step {
    /// Work on the file with this number, after printing this.
    Process(usize, Vec<Message>),
    /// End with an error.
    Stop(Error),
    /// End: all is done.
    Finish,
}

/// What a step stands for.
pub enum StepView {
    Process(int, Seq<MessageView>),
    Stop(Seq<char>),
    Finish,
}

impl View for Step {
    type V = StepView;

    open spec fn view(&self) -> StepView {
        match *self {
            Step::Process(i, said) => StepView::Process(i as int, views(said@)),
            Step::Stop(e) => StepView::Stop(e@),
            Step::Finish => StepView::Finish,
        }
    }
}

/// The files that failed, in their order.
pub open spec fn failures(shown: Seq<Seq<char>>, results: Seq<bool>) -> Seq<Seq<char>>
    decreases results.len(),
{
    if results.len() == 0 {
        Seq::empty()
    } else {
        let n = results.len() - 1;
        let before = failures(shown, results.drop_last());
        if results[n] {
            before
        } else {
            before.push(shown[n])
        }
    }
}

/// The error that names the files that failed.
pub open spec fn failures_text(shown: Seq<Seq<char>>, results: Seq<bool>) -> Seq<char> {
    numeral(failures(shown, results).len()) + "/"@ + numeral(shown.len()) + " files failed: "@
        + join(failures(shown, results), ", "@)
}

/// What is said before a file, where there are several.
pub open spec fn counter(shown: Seq<Seq<char>>, i: int) -> Seq<MessageView> {
    if shown.len() > 1 {
        out(
            "["@ + numeral((i + 1) as nat) + "/"@ + numeral(shown.len()) + "] "@ + shown[i],
        )
    } else {
        Seq::empty()
    }
}

/// One output is given for several files.
pub open spec fn output_is_ambiguous(files: nat, has_output: bool) -> bool {
    files > 1 && has_output
}

/// The next step of a run on the files `shown`, of which the first are through
/// with these results.
pub open spec fn next_step(
    shown: Seq<Seq<char>>,
    results: Seq<bool>,
    interrupted: bool,
) -> StepView {
    if results.len() < shown.len() {
        if interrupted {
            StepView::Stop("Interrupted"@)
        } else {
            StepView::Process(results.len() as int, counter(shown, results.len() as int))
        }
    } else if failures(shown, results).len() > 0 {
        StepView::Stop(failures_text(shown, results))
    } else {
        StepView::Finish
    }
}

/// The text of an optional error.
pub open spec fn error_text(error: Option<Error>) -> Option<Seq<char>> {
    match error {
        Some(e) => Some(e@),
        None => None,
    }
}

/// What comes of file `i` once it is through: what is printed, or the error
/// that ends the run.
pub open spec fn outcome(
    shown: Seq<Seq<char>>,
    i: int,
    error: Option<Seq<char>>,
    interrupted: bool,
) -> Result<Seq<MessageView>, Seq<char>> {
    match error {
        None => Ok(Seq::empty()),
        Some(e) => if interrupted {
            Err("Interrupted"@)
        } else if shown.len() == 1 {
            Err(e)
        } else {
            Ok(err("Error processing "@ + shown[i] + ": "@ + e + "\n"@))
        },
    }
}

impl Batch {
    /// The input files.
    pub open spec fn files(&self) -> Seq<Seq<char>> {
        strings(self.shown@)
    }

    /// No more files are through than there are.
    pub open spec fn valid(&self) -> bool {
        self.results@.len() <= self.shown@.len()
    }

    /// A run on the given files. One output cannot be given for several files.
    pub fn new(shown: Vec<String>, has_output: bool) -> (r: Result<Batch, Error>)
        ensures
            match r {
                Ok(b) => {
                    &&& !output_is_ambiguous(shown@.len(), has_output)
                    &&& b.shown == shown
                    &&& b.results@.len() == 0
                    &&& b.valid()
                },
                Err(e) => {
                    &&& output_is_ambiguous(shown@.len(), has_output)
                    &&& e@
                        == "--output cannot be used with multiple inputs; output names are derived per file"@
                },
            },
    {
        if shown.len() > 1 && has_output {
            return Err(
                Error::of(
                    "--output cannot be used with multiple inputs; output names are derived per file",
                ),
            );
        }
        Ok(Batch { shown, results: Vec::new() })
    }

    fn failed(&self) -> (r: Vec<&str>)
        requires
            self.valid(),
        ensures
            strs(r@) == failures(self.files(), self.results@),
    {
        let mut r: Vec<&str> = Vec::new();
        let mut i: usize = 0;
        assert(self.results@.take(0) =~= Seq::<bool>::empty());
        assert(strs(r@) =~= Seq::<Seq<char>>::empty());
        while i < self.results.len()
            invariant
                self.valid(),
                i <= self.results@.len(),
                strs(r@) == failures(self.files(), self.results@.take(i as int)),
            decreases self.results@.len() - i,
        {
            let ghost before = r@;
            assert(self.results@.take(i + 1).drop_last() =~= self.results@.take(i as int));
            if !self.results[i] {
                r.push(self.shown[i].as_str());
                assert(strs(r@) =~= strs(before).push(self.files()[i as int]));
            }
            i += 1;
        }
        assert(self.results@.take(i as int) =~= self.results@);
        r
    }

    /// The next step. Past the last file the run has failed if any file has.
    pub fn next(&self, interrupted: bool) -> (r: Step)
        requires
            self.valid(),
        ensures
            r@ == next_step(self.files(), self.results@, interrupted),
    {
        let total: usize = self.shown.len();
        let i: usize = self.results.len();
        if i < total {
            if interrupted {
                return Step::Stop(Error::of("Interrupted"));
            }
            let mut said: Vec<Message> = Vec::new();
            if total > 1 {
                let mut m: String = cat("[", decimal(i as u64 + 1).as_str());
                m.append("/");
                m.append(decimal(total as u64).as_str());
                m.append("] ");
                m.append(self.shown[i].as_str());
                said.push(Message::Stdout(m));
            }
            assert(views(said@) =~= counter(self.files(), i as int));
            return Step::Process(i, said);
        }
        let failed: Vec<&str> = self.failed();
        assert(strs(failed@).len() == failed@.len());
        if failed.len() > 0 {
            let mut m: String = cat(decimal(failed.len() as u64).as_str(), "/");
            m.append(decimal(total as u64).as_str());
            m.append(" files failed: ");
            m.append(joined(&failed, ", ").as_str());
            return Step::Stop(Error::new(m));
        }
        Step::Finish
    }

    /// The next file is through. Its error ends the run if it is the only file
    /// or if the run was interrupted; else it is printed.
    pub fn processed(&mut self, error: Option<Error>, interrupted: bool) -> (r: Result<
        Vec<Message>,
        Error,
    >)
        requires
            old(self).valid(),
            old(self).results@.len() < old(self).shown@.len(),
        ensures
            final(self).valid(),
            final(self).shown == old(self).shown,
            final(self).results@ == old(self).results@.push(error is None),
            ({
                let said = outcome(
                    old(self).files(),
                    old(self).results@.len() as int,
                    error_text(error),
                    interrupted,
                );
                match r {
                    Ok(list) => said == Ok::<Seq<MessageView>, Seq<char>>(views(list@)),
                    Err(e) => said == Err::<Seq<MessageView>, Seq<char>>(e@),
                }
            }),
    {
        let i: usize = self.results.len();
        self.results.push(error.is_none());
        let mut said: Vec<Message> = Vec::new();
        if let Some(e) = error {
            if interrupted {
                return Err(Error::of("Interrupted"));
            }
            if self.shown.len() == 1 {
                return Err(e);
            }
            let mut m: String = cat("Error processing ", self.shown[i].as_str());
            m.append(": ");
            m.append(e.message.as_str());
            m.append("\n");
            said.push(Message::Stderr(m));
            assert(views(said@) =~= err(m@));
        } else {
            assert(views(said@) =~= Seq::<MessageView>::empty());
        }
        Ok(said)
    }
}

// ---------------------------------------------------------------------------
// Laws
// ---------------------------------------------------------------------------

/// There are no failures if and only if every file succeeded.
proof fn no_failure(shown: Seq<Seq<char>>, results: Seq<bool>)
    ensures
        failures(shown, results).len() == 0 <==> forall|i: int|
            0 <= i < results.len() ==> results[i],
    decreases results.len(),
{
    if results.len() > 0 {
        let init = results.drop_last();
        no_failure(shown, init);
        if forall|i: int| 0 <= i < init.len() ==> init[i] {
            assert forall|i: int| 0 <= i < results.len() - 1 implies results[i] by {
                assert(init[i]);
            }
        } else {
            let i = choose|i: int| 0 <= i < init.len() && !init[i];
            assert(!results[i]);
        }
    }
}

/// A run that is through has succeeded if and only if every file has.
pub proof fn one_failure_is_enough(shown: Seq<Seq<char>>, results: Seq<bool>)
    requires
        results.len() == shown.len(),
    ensures
        failures(shown, results).len() == 0 <==> forall|i: int|
            0 <= i < results.len() ==> results[i],
{
    no_failure(shown, results);
}

/// A file is named among the failures if it failed; and a name among the
/// failures is that of a file that failed.
pub proof fn failures_are_named(shown: Seq<Seq<char>>, results: Seq<bool>, name: Seq<char>)
    requires
        results.len() <= shown.len(),
    ensures
        failures(shown, results).contains(name) <==> exists|i: int|
            0 <= i < results.len() && !results[i] && #[trigger] shown[i] == name,
    decreases results.len(),
{
    if results.len() > 0 {
        let n = results.len() - 1;
        let init = results.drop_last();
        let before = failures(shown, init);
        let all = failures(shown, results);
        failures_are_named(shown, init, name);
        if before.contains(name) {
            let k = choose|k: int| 0 <= k < before.len() && before[k] == name;
            assert(all[k] == name);
            let i = choose|i: int| 0 <= i < init.len() && !init[i] && #[trigger] shown[i] == name;
            assert(!results[i]);
            assert(shown[i] == name);
        }
        if !results[n] && shown[n] == name {
            assert(all[before.len() as int] == name);
        }
        if all.contains(name) && !before.contains(name) {
            let k = choose|k: int| 0 <= k < all.len() && all[k] == name;
            assert(k == before.len());
        }
        if exists|i: int| 0 <= i < results.len() && !results[i] && #[trigger] shown[i] == name {
            let i = choose|i: int|
                0 <= i < results.len() && !results[i] && #[trigger] shown[i] == name;
            if i < n {
                assert(!init[i]);
                assert(shown[i] == name);
            }
        }
    }
}

/// A file that succeeds adds no name to the failures, and one that fails adds
/// its own at the end.
pub proof fn failures_come_in_order(shown: Seq<Seq<char>>, results: Seq<bool>)
    requires
        results.len() < shown.len(),
    ensures
        failures(shown, Seq::empty()) == Seq::<Seq<char>>::empty(),
        failures(shown, results.push(true)) == failures(shown, results),
        failures(shown, results.push(false)) == failures(shown, results).push(
            shown[results.len() as int],
        ),
{
    assert(results.push(true).drop_last() =~= results);
    assert(results.push(false).drop_last() =~= results);
}

/// What is said of failures gives how many of how many files failed, and then
/// their names with commas between them.
pub proof fn failures_are_counted(shown: Seq<Seq<char>>, results: Seq<bool>)
    requires
        results.len() <= shown.len(),
    ensures
        ({
            let failed = Set::new(|i: int| 0 <= i < results.len() && !results[i]);
            &&& failed.finite()
            &&& failures_text(shown, results) == numeral(failed.len()) + "/"@ + numeral(shown.len())
                + " files failed: "@ + join(failures(shown, results), ", "@)
            &&& failures(shown, results).len() == failed.len()
        }),
    decreases results.len(),
{
    let failed = Set::new(|i: int| 0 <= i < results.len() && !results[i]);
    if results.len() == 0 {
        assert(failed =~= Set::<int>::empty());
    } else {
        let init = results.drop_last();
        failures_are_counted(shown, init);
        let before = Set::new(|i: int| 0 <= i < init.len() && !init[i]);
        let n: int = results.len() - 1;
        if results[n] {
            assert(failed =~= before);
        } else {
            assert(failed =~= before.insert(n));
        }
    }
}

/// Of several files each is announced by its number, counted from 1, the
/// number of all files, and its name. A single file is not announced.
pub proof fn files_are_counted_from_one(shown: Seq<Seq<char>>, n: nat)
    requires
        1 <= n <= shown.len(),
    ensures
        shown.len() == 1 ==> counter(shown, n - 1) == Seq::<MessageView>::empty(),
        shown.len() > 1 ==> counter(shown, n - 1) == seq![
            MessageView::Stdout(
                "["@ + numeral(n) + "/"@ + numeral(shown.len()) + "] "@ + shown[n - 1],
            ),
        ],
{
}

/// The start tells the version, and then the encoders for H.264 and H.265 with
/// commas between them and an empty line behind them.
pub proof fn start_tells_version_and_encoders(version: Seq<char>, names: Seq<Seq<char>>)
    ensures
        greeting(version, names) == seq![
            MessageView::Stdout("ffmpeg version: "@ + version),
            MessageView::Stdout("H.264/H.265 encoders: "@ + join(h26x(names), ", "@) + "\n"@),
        ],
{
    assert(greeting(version, names) =~= seq![
        MessageView::Stdout("ffmpeg version: "@ + version),
        MessageView::Stdout("H.264/H.265 encoders: "@ + join(h26x(names), ", "@) + "\n"@),
    ]);
}

/// One output suits one file, or none is given.
pub proof fn several_files_take_no_output(files: nat, has_output: bool)
    ensures
        !has_output ==> !output_is_ambiguous(files, has_output),
        files <= 1 ==> !output_is_ambiguous(files, has_output),
        files >= 2 ==> output_is_ambiguous(files, true),
{
}

/// The files are worked on in their order, each of them once, until the run is
/// interrupted or all are through. Then the run succeeds if every file has,
/// and else ends with what is said of the failures.
pub proof fn files_are_worked_on_in_order(
    shown: Seq<Seq<char>>,
    results: Seq<bool>,
    interrupted: bool,
)
    requires
        results.len() <= shown.len(),
    ensures
        results.len() < shown.len() ==> {
            &&& next_step(shown, results, false) matches StepView::Process(i, _) && i
                == results.len()
            &&& next_step(shown, results, true) == StepView::Stop("Interrupted"@)
        },
        results.len() == shown.len() ==> {
            &&& (forall|i: int| 0 <= i < results.len() ==> results[i]) <==> next_step(
                shown,
                results,
                interrupted,
            ) == StepView::Finish
            &&& !(forall|i: int| 0 <= i < results.len() ==> results[i]) ==> next_step(
                shown,
                results,
                interrupted,
            ) == StepView::Stop(failures_text(shown, results))
        },
{
    no_failure(shown, results);
}

/// A file that succeeds says nothing more. The error of the only file is the
/// error of the run; that of one of several is printed with its name, and the
/// run goes on. An interruption ends the run in any case of an error.
pub proof fn errors_end_the_run_of_one_file(
    shown: Seq<Seq<char>>,
    i: int,
    e: Seq<char>,
    interrupted: bool,
)
    requires
        0 <= i < shown.len(),
    ensures
        outcome(shown, i, None, interrupted) == Ok::<Seq<MessageView>, Seq<char>>(Seq::empty()),
        outcome(shown, i, Some(e), true) == Err::<Seq<MessageView>, Seq<char>>("Interrupted"@),
        shown.len() == 1 ==> outcome(shown, i, Some(e), false) == Err::<
            Seq<MessageView>,
            Seq<char>,
        >(e),
        shown.len() > 1 ==> outcome(shown, i, Some(e), false) == Ok::<
            Seq<MessageView>,
            Seq<char>,
        >(seq![MessageView::Stderr("Error processing "@ + shown[i] + ": "@ + e + "\n"@)]),
{
}

} // verus!
