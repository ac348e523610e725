//! Driving one file's lines through the classifier and the trace builder:
//! every line is classified in order, every event is applied to the builder,
//! and the first structural error aborts the file.

use vstd::prelude::*;

use crate::model::{
    container_name_spec, initial_builder, packages_model, post_task_spec, pre_task_spec,
    start_package_spec, BuildError, Builder, BuilderModel, Package, PackageModel,
};
use crate::reader::{classify_model, first_event_from, Event, EventModel, EventReader};
use crate::text::trim_spec;

verus! {

/// One event applied to a builder state: the next state and the outcome.
pub open spec fn apply_event(b: BuilderModel, m: EventModel) -> (BuilderModel, Result<
    (),
    BuildError,
>) {
    match m {
        EventModel::PackageStarted { name } => (start_package_spec(b, name), Ok(())),
        EventModel::ContainerFinished { name } => container_name_spec(b, name),
        EventModel::PreExecuteTask { name, time } => pre_task_spec(b, name, time),
        EventModel::PostExecuteTask { name: _, time } => post_task_spec(b, time),
    }
}

/// The packages a builder in state `b` ends with after consuming the events
/// of `lines` from position `i` on, or the first structural error.
pub open spec fn run_lines(lines: Seq<String>, i: int, b: BuilderModel) -> Result<
    Seq<PackageModel>,
    BuildError,
>
    decreases lines.len() - i,
{
    if i < 0 || i >= lines.len() {
        Ok(b.packages)
    } else {
        match classify_model(trim_spec(lines[i]@)) {
            None => run_lines(lines, i + 1, b),
            Some(m) => {
                let (b2, r) = apply_event(b, m);
                if r is Err {
                    Err(r->Err_0)
                } else {
                    run_lines(lines, i + 1, b2)
                }
            },
        }
    }
}

/// Where no line from `i` on yields an event, the run ends with the
/// builder's packages as they stand.
proof fn lemma_run_lines_skip(lines: Seq<String>, i: int, b: BuilderModel)
    requires
        0 <= i,
        first_event_from(lines, i) is None,
    ensures
        run_lines(lines, i, b) == Ok::<Seq<PackageModel>, BuildError>(b.packages),
    decreases lines.len() - i,
{
    if i < lines.len() {
        lemma_run_lines_skip(lines, i + 1, b);
    }
}

/// Where some line from `i` on yields an event, the run is: apply that
/// event, stop on an error, and otherwise go on after that line.
proof fn lemma_run_lines_advance(lines: Seq<String>, i: int, b: BuilderModel)
    requires
        0 <= i,
        first_event_from(lines, i) is Some,
    ensures
        ({
            let jm = first_event_from(lines, i)->Some_0;
            &&& i <= jm.0 < lines.len()
            &&& run_lines(lines, i, b) == ({
                let (b2, r) = apply_event(b, jm.1);
                if r is Err {
                    Err::<Seq<PackageModel>, BuildError>(r->Err_0)
                } else {
                    run_lines(lines, jm.0 + 1, b2)
                }
            })
        }),
    decreases lines.len() - i,
{
    if classify_model(trim_spec(lines[i]@)) is Some {
    } else {
        lemma_run_lines_advance(lines, i + 1, b);
    }
}

/// Parses the lines of one log file, in order, into its completed packages;
/// the first structural error aborts the file and is returned instead.
#[verifier::loop_isolation(false)]
pub fn build_packages(lines: Vec<String>) -> (r: Result<Vec<Package>, BuildError>)
    ensures
        match r {
            Ok(ps) => run_lines(lines@, 0, initial_builder()) == Ok::<Seq<PackageModel>, BuildError>(
                packages_model(ps@),
            ),
            Err(e) => run_lines(lines@, 0, initial_builder()) == Err::<
                Seq<PackageModel>,
                BuildError,
            >(e),
        },
{
    let ghost all = lines@;
    let mut reader = EventReader::new(lines);
    let mut builder = Builder::new();
    loop
        invariant
            reader@.lines == all,
            0 <= reader@.pos <= all.len(),
            run_lines(all, 0, initial_builder()) == run_lines(all, reader@.pos, builder@),
        decreases all.len() - reader@.pos,
    {
        let ghost i = reader@.pos;
        let ghost b_before = builder@;
        let ev = reader.next();
        match ev {
            None => {
                proof {
                    lemma_run_lines_skip(all, i, b_before);
                }
                return Ok(builder.packages);
            },
            Some(e) => {
                proof {
                    lemma_run_lines_advance(all, i, b_before);
                }
                let res = match e {
                    Event::PackageStarted(le) => builder.start_package(&le),
                    Event::ContainerFinished(le) => builder.container_name(&le),
                    Event::PreExecuteTask(se) => builder.pre_task(&se),
                    Event::PostExecuteTask(se) => builder.post_task(&se),
                };
                match res {
                    Ok(u) => {
                        proof {
                            assert(u == ());
                        }
                    },
                    Err(err) => {
                        return Err(err);
                    },
                }
            },
        }
    }
}

} // verus!
