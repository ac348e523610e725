//! The trace builder: reconstructs, from a flat ordered event stream, the
//! packages of one log file, each holding a forest of nested tasks.
//!
//! Pairing of task-start and task-end events is purely by stack order
//! (LIFO), never by task name: the upstream engine is trusted to emit
//! well-nested pairs, and this builder deliberately performs no name
//! reconciliation.

use vstd::prelude::*;

use crate::reader::{LogEvent, SsisEvent};
use crate::timestamp::Timestamp;

verus! {

/// A structural fault in the event stream of one file.
#[derive(Debug, Clone, Copy, PartialEq, Eq, Structural)]
pub enum BuildError {
    /// A container-name or task event arrived before any package started.
    NoActivePackage,
    /// A task-end event arrived with no task open.
    NoOpenTask,
}

/// An executed task: its name, when it started and ended, and the tasks
/// nested within it, in completion order.
#[derive(Debug)]
pub struct Task {
    pub name: String,
    pub start_time: Timestamp,
    pub end_time: Timestamp,
    pub tasks: Vec<Task>,
}

/// A package: the top-level unit of orchestrated work, with its container
/// name (empty until reported) and its root tasks in completion order.
#[derive(Debug)]
pub struct Package {
    pub package_name: String,
    pub container_name: String,
    pub tasks: Vec<Task>,
}

/// The mathematical shape of a task: names as character sequences.
#[verifier::ext_equal]
pub struct TaskModel {
    pub name: Seq<char>,
    pub start_time: Timestamp,
    pub end_time: Timestamp,
    pub tasks: Seq<TaskModel>,
}

/// The mathematical shape of a package.
#[verifier::ext_equal]
pub struct PackageModel {
    pub package_name: Seq<char>,
    pub container_name: Seq<char>,
    pub tasks: Seq<TaskModel>,
}

/// The mathematical state of a builder: the packages completed so far and
/// the stack of still-open tasks.
#[verifier::ext_equal]
pub struct BuilderModel {
    pub packages: Seq<PackageModel>,
    pub stack: Seq<TaskModel>,
}

pub open spec fn task_model(t: Task) -> TaskModel
    decreases t,
{
    TaskModel {
        name: t.name@,
        start_time: t.start_time,
        end_time: t.end_time,
        tasks: tasks_model(t.tasks@),
    }
}

pub open spec fn tasks_model(ts: Seq<Task>) -> Seq<TaskModel>
    decreases ts,
{
    Seq::new(
        ts.len(),
        |i: int|
            if 0 <= i < ts.len() {
                task_model(ts[i])
            } else {
                arbitrary()
            },
    )
}

pub open spec fn package_model(p: Package) -> PackageModel {
    PackageModel {
        package_name: p.package_name@,
        container_name: p.container_name@,
        tasks: tasks_model(p.tasks@),
    }
}

pub open spec fn packages_model(ps: Seq<Package>) -> Seq<PackageModel> {
    Seq::new(
        ps.len(),
        |i: int|
            if 0 <= i < ps.len() {
                package_model(ps[i])
            } else {
                arbitrary()
            },
    )
}

/// The state of a freshly constructed builder.
pub open spec fn initial_builder() -> BuilderModel {
    BuilderModel { packages: Seq::empty(), stack: Seq::empty() }
}

/// Starting a package appends a new active package with an empty container
/// name and no tasks; it never fails.
pub open spec fn start_package_spec(b: BuilderModel, name: Seq<char>) -> BuilderModel {
    BuilderModel {
        packages: b.packages.push(
            PackageModel { package_name: name, container_name: Seq::empty(), tasks: Seq::empty() },
        ),
        stack: b.stack,
    }
}

/// Reporting a container name sets it on the active (last) package; it
/// fails with `NoActivePackage`, changing nothing, exactly when no package
/// has started.
pub open spec fn container_name_spec(b: BuilderModel, name: Seq<char>) -> (BuilderModel, Result<
    (),
    BuildError,
>) {
    if b.packages.len() == 0 {
        (b, Err(BuildError::NoActivePackage))
    } else {
        let k = b.packages.len() - 1;
        (
            BuilderModel {
                packages: b.packages.update(
                    k,
                    PackageModel { container_name: name, ..b.packages[k] },
                ),
                stack: b.stack,
            },
            Ok(()),
        )
    }
}

/// A task-start pushes a new open task whose start and end both read the
/// event's time; it fails with `NoActivePackage`, changing nothing, exactly
/// when no package has started.
pub open spec fn pre_task_spec(b: BuilderModel, name: Seq<char>, time: Timestamp) -> (BuilderModel, Result<
    (),
    BuildError,
>) {
    if b.packages.len() == 0 {
        (b, Err(BuildError::NoActivePackage))
    } else {
        (
            BuilderModel {
                packages: b.packages,
                stack: b.stack.push(
                    TaskModel { name: name, start_time: time, end_time: time, tasks: Seq::empty() },
                ),
            },
            Ok(()),
        )
    }
}

/// A task-end pops the top open task, seals its end time, and attaches it:
/// as the last child of the new stack top if a task is still open, else as
/// the last root task of the active package. It fails with `NoOpenTask`,
/// changing nothing, exactly when no task is open; with the stack emptied
/// and no package started it fails with `NoActivePackage`, and the popped
/// task is lost.
pub open spec fn post_task_spec(b: BuilderModel, time: Timestamp) -> (BuilderModel, Result<
    (),
    BuildError,
>) {
    if b.stack.len() == 0 {
        (b, Err(BuildError::NoOpenTask))
    } else {
        let done = TaskModel { end_time: time, ..b.stack.last() };
        let rest = b.stack.drop_last();
        if rest.len() > 0 {
            let k = rest.len() - 1;
            let parent = rest[k];
            (
                BuilderModel {
                    packages: b.packages,
                    stack: rest.update(k, TaskModel { tasks: parent.tasks.push(done), ..parent }),
                },
                Ok(()),
            )
        } else if b.packages.len() == 0 {
            (BuilderModel { packages: b.packages, stack: rest }, Err(BuildError::NoActivePackage))
        } else {
            let k = b.packages.len() - 1;
            let pkg = b.packages[k];
            (
                BuilderModel {
                    packages: b.packages.update(
                        k,
                        PackageModel { tasks: pkg.tasks.push(done), ..pkg },
                    ),
                    stack: rest,
                },
                Ok(()),
            )
        }
    }
}

proof fn lemma_tasks_model_push(ts: Seq<Task>, t: Task)
    ensures
        tasks_model(ts.push(t)) == tasks_model(ts).push(task_model(t)),
{
    assert(tasks_model(ts.push(t)) =~= tasks_model(ts).push(task_model(t)));
}

proof fn lemma_packages_model_push(ps: Seq<Package>, p: Package)
    ensures
        packages_model(ps.push(p)) == packages_model(ps).push(package_model(p)),
{
    assert(packages_model(ps.push(p)) =~= packages_model(ps).push(package_model(p)));
}

proof fn lemma_tasks_model_drop_last(ts: Seq<Task>)
    requires
        ts.len() > 0,
    ensures
        tasks_model(ts.drop_last()) == tasks_model(ts).drop_last(),
{
    assert(tasks_model(ts.drop_last()) =~= tasks_model(ts).drop_last());
}

proof fn lemma_packages_model_drop_last(ps: Seq<Package>)
    requires
        ps.len() > 0,
    ensures
        packages_model(ps.drop_last()) == packages_model(ps).drop_last(),
{
    assert(packages_model(ps.drop_last()) =~= packages_model(ps).drop_last());
}

/// The trace builder for one log file.
pub struct Builder {
    pub packages: Vec<Package>,
    pub tasks_stack: Vec<Task>,
}

impl View for Builder {
    type V = BuilderModel;

    open spec fn view(&self) -> BuilderModel {
        BuilderModel {
            packages: packages_model(self.packages@),
            stack: tasks_model(self.tasks_stack@),
        }
    }
}

impl Task {
    fn set_end_time(&mut self, time: Timestamp)
        ensures
            task_model(*final(self)) == (TaskModel { end_time: time, ..task_model(*old(self)) }),
    {
        self.end_time = time;
        proof {
            assert(task_model(*self) =~= (TaskModel {
                end_time: time,
                ..task_model(*old(self))
            }));
        }
    }
}

impl Package {
    fn set_container_name(&mut self, name: String)
        ensures
            package_model(*final(self)) == (PackageModel {
                container_name: name@,
                ..package_model(*old(self))
            }),
    {
        self.container_name = name;
        proof {
            assert(package_model(*self) =~= (PackageModel {
                container_name: name@,
                ..package_model(*old(self))
            }));
        }
    }
}

impl Builder {
    /// A fresh builder: no packages, no open tasks.
    pub fn new() -> (r: Builder)
        ensures
            r@ == initial_builder(),
    {
        let r = Builder { packages: Vec::new(), tasks_stack: Vec::new() };
        proof {
            assert(r@ =~= initial_builder());
        }
        r
    }

    /// Opens a new active package named by the event.
    pub fn start_package(&mut self, evt: &LogEvent) -> (r: Result<(), BuildError>)
        ensures
            final(self)@ == start_package_spec(old(self)@, evt.value@),
            r is Ok,
    {
        let package = Package {
            package_name: evt.value.clone(),
            container_name: String::new(),
            tasks: Vec::new(),
        };
        proof {
            assert(package_model(package) =~~= (PackageModel {
                package_name: evt.value@,
                container_name: Seq::empty(),
                tasks: Seq::empty(),
            }));
            lemma_packages_model_push(self.packages@, package);
        }
        self.packages.push(package);
        proof {
            assert(self@ =~= start_package_spec(old(self)@, evt.value@));
        }
        Ok(())
    }

    /// Opens a new task named and timed by the event, on top of the stack.
    pub fn pre_task(&mut self, evt: &SsisEvent) -> (r: Result<(), BuildError>)
        ensures
            final(self)@ == pre_task_spec(old(self)@, evt.value@, evt.time).0,
            r == pre_task_spec(old(self)@, evt.value@, evt.time).1,
    {
        if self.packages.len() == 0 {
            return Err(BuildError::NoActivePackage);
        }
        let task = Task {
            tasks: Vec::new(),
            name: evt.value.clone(),
            start_time: evt.time,
            end_time: evt.time,
        };
        proof {
            assert(tasks_model(task.tasks@) =~= Seq::<TaskModel>::empty());
            assert(task_model(task) =~~= (TaskModel {
                name: evt.value@,
                start_time: evt.time,
                end_time: evt.time,
                tasks: Seq::empty(),
            }));
            lemma_tasks_model_push(self.tasks_stack@, task);
        }
        self.tasks_stack.push(task);
        proof {
            assert(self@ =~= pre_task_spec(old(self)@, evt.value@, evt.time).0);
        }
        Ok(())
    }

    /// Closes the top open task at the event's time and attaches it to its
    /// parent: the new stack top, or the active package's root list.
    pub fn post_task(&mut self, evt: &SsisEvent) -> (r: Result<(), BuildError>)
        ensures
            final(self)@ == post_task_spec(old(self)@, evt.time).0,
            r == post_task_spec(old(self)@, evt.time).1,
    {
        if self.tasks_stack.len() == 0 {
            return Err(BuildError::NoOpenTask);
        }
        proof {
            lemma_tasks_model_drop_last(self.tasks_stack@);
        }
        let mut task = self.tasks_stack.pop().unwrap();
        task.set_end_time(evt.time);
        let ghost done = TaskModel { end_time: evt.time, ..old(self)@.stack.last() };
        proof {
            assert(task_model(task) =~= done);
        }
        if self.tasks_stack.len() > 0 {
            proof {
                lemma_tasks_model_drop_last(self.tasks_stack@);
            }
            let mut parent = self.tasks_stack.pop().unwrap();
            proof {
                lemma_tasks_model_push(parent.tasks@, task);
            }
            parent.tasks.push(task);
            proof {
                assert(task_model(parent) =~= (TaskModel {
                    tasks: old(self)@.stack.drop_last().last().tasks.push(done),
                    ..old(self)@.stack.drop_last().last()
                }));
                lemma_tasks_model_push(self.tasks_stack@, parent);
            }
            self.tasks_stack.push(parent);
            proof {
                assert(self@.stack =~= post_task_spec(old(self)@, evt.time).0.stack);
                assert(self@ =~= post_task_spec(old(self)@, evt.time).0);
            }
            Ok(())
        } else {
            if self.packages.len() == 0 {
                return Err(BuildError::NoActivePackage);
            }
            proof {
                lemma_packages_model_drop_last(self.packages@);
            }
            let mut pkg = self.packages.pop().unwrap();
            proof {
                lemma_tasks_model_push(pkg.tasks@, task);
            }
            pkg.tasks.push(task);
            proof {
                lemma_packages_model_push(self.packages@, pkg);
            }
            self.packages.push(pkg);
            proof {
                assert(self@.packages =~= post_task_spec(old(self)@, evt.time).0.packages);
                assert(self@ =~= post_task_spec(old(self)@, evt.time).0);
            }
            Ok(())
        }
    }

    /// Sets the container name on the active package.
    pub fn container_name(&mut self, evt: &LogEvent) -> (r: Result<(), BuildError>)
        ensures
            final(self)@ == container_name_spec(old(self)@, evt.value@).0,
            r == container_name_spec(old(self)@, evt.value@).1,
    {
        if self.packages.len() == 0 {
            return Err(BuildError::NoActivePackage);
        }
        proof {
            lemma_packages_model_drop_last(self.packages@);
        }
        let mut package = self.packages.pop().unwrap();
        package.set_container_name(evt.value.clone());
        proof {
            lemma_packages_model_push(self.packages@, package);
        }
        self.packages.push(package);
        proof {
            assert(self@.packages =~= container_name_spec(old(self)@, evt.value@).0.packages);
            assert(self@ =~= container_name_spec(old(self)@, evt.value@).0);
        }
        Ok(())
    }
}

/// A task-start before any package fails with `NoActivePackage` and leaves
/// the builder unchanged, its package list still empty.
pub proof fn lemma_pre_task_without_package(b: BuilderModel, name: Seq<char>, t: Timestamp)
    requires
        b.packages.len() == 0,
    ensures
        pre_task_spec(b, name, t) == (b, Err::<(), BuildError>(BuildError::NoActivePackage)),
{
}

/// A task-end with no open task fails with `NoOpenTask` and leaves the
/// builder unchanged.
pub proof fn lemma_post_task_without_open_task(b: BuilderModel, t: Timestamp)
    requires
        b.stack.len() == 0,
    ensures
        post_task_spec(b, t) == (b, Err::<(), BuildError>(BuildError::NoOpenTask)),
{
}

/// Opening and closing one task at the same instant, with a package active,
/// no task open, and the active package still without tasks, yields exactly
/// one leaf task with equal start and end, attached as the sole root child
/// of the active package; everything else is untouched.
pub proof fn lemma_task_pair_is_sole_leaf(b: BuilderModel, name: Seq<char>, t0: Timestamp)
    requires
        b.packages.len() > 0,
        b.stack.len() == 0,
        b.packages.last().tasks.len() == 0,
    ensures
        ({
            let (b1, r1) = pre_task_spec(b, name, t0);
            let (b2, r2) = post_task_spec(b1, t0);
            &&& r1 is Ok
            &&& r2 is Ok
            &&& b2.stack == b.stack
            &&& b2.packages.len() == b.packages.len()
            &&& (forall|i: int|
                0 <= i < b.packages.len() - 1 ==> b2.packages[i] == b.packages[i])
            &&& b2.packages.last().package_name == b.packages.last().package_name
            &&& b2.packages.last().container_name == b.packages.last().container_name
            &&& b2.packages.last().tasks =~= seq![
                TaskModel { name: name, start_time: t0, end_time: t0, tasks: Seq::empty() },
            ]
        }),
{
    let (b1, r1) = pre_task_spec(b, name, t0);
    let (b2, r2) = post_task_spec(b1, t0);
    assert(b1.stack.drop_last() =~= b.stack);
    assert(b2.stack =~= b.stack);
}

/// Task pairs attach in LIFO order: opening A then B and closing B then A
/// leaves the active package with root tasks `[A]`, and B as the sole child
/// of A — B's end closes at the third time, A's at the fourth.
pub proof fn lemma_nested_pairs_attach_lifo(
    b: BuilderModel,
    name_a: Seq<char>,
    name_b: Seq<char>,
    t1: Timestamp,
    t2: Timestamp,
    t3: Timestamp,
    t4: Timestamp,
)
    requires
        b.packages.len() > 0,
        b.stack.len() == 0,
        b.packages.last().tasks.len() == 0,
    ensures
        ({
            let (s1, r1) = pre_task_spec(b, name_a, t1);
            let (s2, r2) = pre_task_spec(s1, name_b, t2);
            let (s3, r3) = post_task_spec(s2, t3);
            let (s4, r4) = post_task_spec(s3, t4);
            &&& r1 is Ok
            &&& r2 is Ok
            &&& r3 is Ok
            &&& r4 is Ok
            &&& s4.stack == b.stack
            &&& s4.packages.len() == b.packages.len()
            &&& s4.packages.last().tasks =~~= seq![
                TaskModel {
                    name: name_a,
                    start_time: t1,
                    end_time: t4,
                    tasks: seq![
                        TaskModel {
                            name: name_b,
                            start_time: t2,
                            end_time: t3,
                            tasks: Seq::empty(),
                        },
                    ],
                },
            ]
        }),
{
    let (s1, r1) = pre_task_spec(b, name_a, t1);
    let (s2, r2) = pre_task_spec(s1, name_b, t2);
    let (s3, r3) = post_task_spec(s2, t3);
    let (s4, r4) = post_task_spec(s3, t4);
    assert(s2.stack.drop_last() =~= s1.stack);
    assert(s3.stack.len() == 1);
    assert(s3.stack.drop_last() =~= Seq::<TaskModel>::empty());
    assert(s4.stack =~= b.stack);
}

} // verus!
