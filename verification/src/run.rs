//! The parent's side of a launch: what it does, in which order, and what
//! it makes of each result.
//!
//! The parent duplicates the process, writes the maps of ids or has them
//! written, runs the caller's hook, lets the child go, and then reads the
//! pipe on which the child reports a failure. The pipe ends without a byte
//! when the program image is replaced. Whatever fails once the child
//! exists, the child is killed and collected before the failure is handed
//! to the caller: a launch gives a child that runs the program, or a
//! failure and no child.
//!
//! Nothing here calls the operating system. The caller carries out each
//! request and hands back what came of it.

use crate::command::Plan;
use crate::error::{invalid_argument, Error, Failure, Report, Reported, Step, EINVAL};
use crate::idmap::{helper_verdict, spec_helper_verdict, MapStrategy};
use crate::status::ExitStatus;
use vstd::prelude::*;

verus! {

/// One thing that the parent does for a launch.
#[derive(Clone, Copy, Debug, PartialEq, Eq, Hash, Structural)]
pub enum Task {
    /// Duplicate the process, with the flags of the plan.
    Fork,
    /// Write the map of user ids of the child.
    WriteUidMap,
    /// Write the map of group ids of the child.
    WriteGidMap,
    /// Run the helper program that writes the map of user ids.
    RunUidHelper,
    /// Run the helper program that writes the map of group ids.
    RunGidHelper,
    /// Run the caller's hook, with the process id of the child.
    BeforeUnfreeze,
    /// Let the child go on.
    Release,
    /// Read the pipe of failures until the child closes it.
    ReadChannel,
}

/// What came of a task.
#[derive(Clone, Debug, PartialEq, Eq)]
pub enum Event {
    /// The process was duplicated; the child has this process id.
    Forked { pid: i32 },
    /// The task was done.
    Done,
    /// The task failed with this error code.
    Failed { errno: i32 },
    /// The helper program ended in this way.
    Exited(ExitStatus),
    /// The pipe of failures was read to its end and carried this.
    Channel(Report),
}

/// What came of a task, as contracts speak of it.
pub enum EventView {
    /// The process was duplicated; the child has this process id.
    Forked { pid: i32 },
    /// The task was done.
    Done,
    /// The task failed with this error code.
    Failed { errno: i32 },
    /// The helper program ended in this way.
    Exited(ExitStatus),
    /// The pipe of failures was read to its end and carried this.
    Channel(Reported),
}

impl View for Event {
    type V = EventView;

    open spec fn view(&self) -> EventView {
        match self {
            Event::Forked { pid } => EventView::Forked { pid: *pid },
            Event::Done => EventView::Done,
            Event::Failed { errno } => EventView::Failed { errno: *errno },
            Event::Exited(status) => EventView::Exited(*status),
            Event::Channel(report) => EventView::Channel(report@),
        }
    }
}

/// What the parent is asked to do next.
#[derive(Debug, PartialEq, Eq)]
pub enum Request {
    /// Carry out the task and hand back what came of it.
    Do(Task),
    /// Kill the child `pid` and collect it, then hand back `Done`.
    Reap { pid: i32 },
    /// End the launch: with the process id of the child that runs the
    /// program, or with the failure.
    Finish(Result<i32, Error>),
}

/// What the parent is asked to do next, as contracts speak of it.
pub enum RequestView {
    /// Carry out the task.
    Do(Task),
    /// Kill the child `pid` and collect it.
    Reap { pid: i32 },
    /// End the launch, with the child or with the failure.
    Finish(Result<i32, Failure>),
}

impl View for Request {
    type V = RequestView;

    open spec fn view(&self) -> RequestView {
        match self {
            Request::Do(task) => RequestView::Do(*task),
            Request::Reap { pid } => RequestView::Reap { pid: *pid },
            Request::Finish(result) => RequestView::Finish(
                match result {
                    Ok(pid) => Ok(*pid),
                    Err(err) => Err(err@),
                },
            ),
        }
    }
}

/// The tasks of a launch, in their order.
pub open spec fn parent_tasks(maps: Option<MapStrategy>, hook: bool, gate: bool) -> Seq<Task> {
    seq![Task::Fork] + (match maps {
        Some(MapStrategy::Direct) => seq![Task::WriteUidMap, Task::WriteGidMap],
        Some(MapStrategy::Helper) => seq![Task::RunUidHelper, Task::RunGidHelper],
        None => Seq::<Task>::empty(),
    }) + (if hook {
        seq![Task::BeforeUnfreeze]
    } else {
        Seq::<Task>::empty()
    }) + (if gate {
        seq![Task::Release]
    } else {
        Seq::<Task>::empty()
    }) + seq![Task::ReadChannel]
}

/// How the maps of ids reach the kernel under a plan, where it has any.
pub open spec fn strategy_of(plan: Plan) -> Option<MapStrategy> {
    match plan.maps {
        Some(maps) => Some(maps.strategy),
        None => None,
    }
}

/// The state of a launch.
pub struct Spawn {
    tasks: Vec<Task>,
    at: usize,
    pid: i32,
    creating: bool,
    failure: Option<Error>,
    finished: bool,
}

/// The state of a launch, as contracts speak of it.
pub struct SpawnView {
    /// The tasks of the launch, in their order.
    pub tasks: Seq<Task>,
    /// The place of the task that is being carried out.
    pub at: int,
    /// The process id of the child, once it exists.
    pub pid: i32,
    /// Whether the child is created in new namespaces.
    pub creating: bool,
    /// The failure of the launch, while the child is being collected.
    pub failure: Option<Failure>,
    /// Whether the launch has ended.
    pub finished: bool,
}

/// Whether `event` says that `task` was done.
pub open spec fn succeeded(task: Task, event: EventView) -> bool {
    match task {
        Task::Fork => event is Forked,
        Task::WriteUidMap | Task::WriteGidMap | Task::BeforeUnfreeze | Task::Release => event
            is Done,
        Task::RunUidHelper | Task::RunGidHelper => event matches EventView::Exited(status)
            && spec_helper_verdict(status) is None,
        Task::ReadChannel => event matches EventView::Channel(report) && report is Started,
    }
}

/// The step that is reported when `task` fails.
pub open spec fn task_step(task: Task, creating: bool) -> Step {
    match task {
        Task::Fork => if creating {
            Step::CreateNamespace
        } else {
            Step::Fork
        },
        Task::WriteUidMap | Task::WriteGidMap => Step::IdMapWrite,
        Task::RunUidHelper | Task::RunGidHelper => Step::IdMapHelperSpawn,
        Task::BeforeUnfreeze => Step::BeforeUnfreeze,
        Task::Release | Task::ReadChannel => Step::Channel,
    }
}

/// The failure of a launch whose task `task` did not succeed. An error
/// code is reported under the step of the task; the end of a helper
/// program and the report of the child speak for themselves; anything that
/// cannot come of the task is an invalid argument.
pub open spec fn failure_of(task: Task, event: EventView, creating: bool) -> Failure {
    match event {
        EventView::Failed { errno } => Failure {
            step: task_step(task, creating),
            errno,
            detail: None,
        },
        EventView::Exited(status) => if (task == Task::RunUidHelper || task == Task::RunGidHelper)
            && spec_helper_verdict(status) is Some {
            spec_helper_verdict(status).unwrap()
        } else {
            Failure { step: task_step(task, creating), errno: EINVAL, detail: None }
        },
        EventView::Channel(Reported::Failed(failure)) => if task == Task::ReadChannel {
            failure
        } else {
            Failure { step: task_step(task, creating), errno: EINVAL, detail: None }
        },
        _ => Failure { step: task_step(task, creating), errno: EINVAL, detail: None },
    }
}

/// What a launch in the state `state` makes of `event`: the state after
/// it, and what the parent is asked to do next.
///
/// A task that was done leads to the next task, and the last one to the end
/// of the launch with the child. A failure of the duplication ends the
/// launch at once: there is no child. Any later failure first has the
/// child killed and collected, and whatever comes of that, the launch then
/// ends with that failure. Once a launch has ended, it stays ended.
pub open spec fn spec_advance(state: SpawnView, event: EventView) -> (SpawnView, RequestView) {
    let ended = SpawnView { finished: true, ..state };
    if state.finished {
        (
            state,
            RequestView::Finish(
                Err(Failure { step: Step::Channel, errno: EINVAL, detail: None }),
            ),
        )
    } else if state.failure is Some {
        (ended, RequestView::Finish(Err(state.failure.unwrap())))
    } else {
        let task = state.tasks[state.at];
        if succeeded(task, event) {
            if task == Task::ReadChannel {
                (ended, RequestView::Finish(Ok(state.pid)))
            } else {
                let pid = match event {
                    EventView::Forked { pid } => pid,
                    _ => state.pid,
                };
                (
                    SpawnView { at: state.at + 1, pid, ..state },
                    RequestView::Do(state.tasks[state.at + 1]),
                )
            }
        } else {
            let failure = failure_of(task, event, state.creating);
            if task == Task::Fork {
                (ended, RequestView::Finish(Err(failure)))
            } else {
                (
                    SpawnView { failure: Some(failure), ..state },
                    RequestView::Reap { pid: state.pid },
                )
            }
        }
    }
}

/// Whether a state is one that a launch can be in: the tasks start with
/// the duplication and end with the reading of the pipe, which are its only
/// tasks of their kinds, and the task that is being carried out is one of
/// them.
pub open spec fn spawn_wf(state: SpawnView) -> bool {
    &&& state.tasks.len() >= 2
    &&& 0 <= state.at < state.tasks.len()
    &&& forall|i: int|
        0 <= i < state.tasks.len() ==> ((#[trigger] state.tasks[i] == Task::Fork) <==> i == 0)
    &&& forall|i: int|
        0 <= i < state.tasks.len() ==> ((#[trigger] state.tasks[i] == Task::ReadChannel) <==> i
            == state.tasks.len() - 1)
    &&& state.failure is Some ==> state.at > 0
}

/// The tasks of a launch start with the duplication and end with the
/// reading of the pipe, which are its only tasks of their kinds.
pub proof fn lemma_parent_tasks(maps: Option<MapStrategy>, hook: bool, gate: bool)
    ensures
        spawn_wf(
            SpawnView {
                tasks: parent_tasks(maps, hook, gate),
                at: 0,
                pid: 0,
                creating: false,
                failure: None,
                finished: false,
            },
        ),
{
    let head = seq![Task::Fork];
    let maps_part = match maps {
        Some(MapStrategy::Direct) => seq![Task::WriteUidMap, Task::WriteGidMap],
        Some(MapStrategy::Helper) => seq![Task::RunUidHelper, Task::RunGidHelper],
        None => Seq::<Task>::empty(),
    };
    let hook_part = if hook {
        seq![Task::BeforeUnfreeze]
    } else {
        Seq::<Task>::empty()
    };
    let gate_part = if gate {
        seq![Task::Release]
    } else {
        Seq::<Task>::empty()
    };
    let a = head + maps_part;
    let b = a + hook_part;
    let c = b + gate_part;
    let tasks = parent_tasks(maps, hook, gate);
    assert(tasks == c + seq![Task::ReadChannel]);
    assert forall|i: int| 0 <= i < tasks.len() implies ((#[trigger] tasks[i] == Task::Fork) <==> i
        == 0) && ((tasks[i] == Task::ReadChannel) <==> i == tasks.len() - 1) by {
        if i < c.len() {
            assert(tasks[i] == c[i]);
            if i < b.len() {
                assert(c[i] == b[i]);
                if i < a.len() {
                    assert(b[i] == a[i]);
                }
            }
        }
    }
}

/// The caller's hook has its fixed place: it runs once the process is
/// duplicated and the maps of ids are written, and it is the last thing
/// before the child is let go. The child, which waits to be let go before
/// it does anything that depends on the maps, never gets past that point
/// before the hook has run.
pub proof fn lemma_hook_before_release(maps: Option<MapStrategy>)
    ensures
        ({
            let tasks = parent_tasks(maps, true, true);
            let n = tasks.len() as int;
            &&& n >= 4
            &&& tasks[0] == Task::Fork
            &&& tasks[n - 3] == Task::BeforeUnfreeze
            &&& tasks[n - 2] == Task::Release
            &&& tasks[n - 1] == Task::ReadChannel
            &&& forall|i: int|
                0 < i < n - 3 ==> #[trigger] tasks[i] != Task::BeforeUnfreeze && tasks[i]
                    != Task::Release && tasks[i] != Task::ReadChannel && tasks[i] != Task::Fork
        }),
{
    let head = seq![Task::Fork];
    let maps_part = match maps {
        Some(MapStrategy::Direct) => seq![Task::WriteUidMap, Task::WriteGidMap],
        Some(MapStrategy::Helper) => seq![Task::RunUidHelper, Task::RunGidHelper],
        None => Seq::<Task>::empty(),
    };
    let a = head + maps_part;
    let tasks = parent_tasks(maps, true, true);
    assert(tasks =~= a + seq![Task::BeforeUnfreeze, Task::Release, Task::ReadChannel]);
    assert forall|i: int| 0 < i < tasks.len() - 3 implies #[trigger] tasks[i]
        != Task::BeforeUnfreeze && tasks[i] != Task::Release && tasks[i] != Task::ReadChannel
        && tasks[i] != Task::Fork by {
        assert(tasks[i] == a[i]);
        assert(a[i] == maps_part[i - 1]);
    }
}

/// A launch ends with a child only when the pipe of failures has ended
/// without a byte, and then with the child that the duplication made.
pub proof fn lemma_child_means_started(state: SpawnView, event: EventView)
    requires
        spawn_wf(state),
    ensures
        spec_advance(state, event).1 matches RequestView::Finish(Ok(pid)) ==> {
            &&& event matches EventView::Channel(report) && report is Started
            &&& state.at == state.tasks.len() - 1
            &&& pid == state.pid
        },
{
}

/// A failure leaves no child behind. When a task fails once the child
/// exists, the parent is asked to kill and collect that child, and whatever
/// comes of that, the launch then ends with that failure and no child.
pub proof fn lemma_failure_reaps(state: SpawnView, event: EventView, later: EventView)
    requires
        spawn_wf(state),
        !state.finished,
        state.failure is None,
        state.at > 0,
        !succeeded(state.tasks[state.at], event),
    ensures
        ({
            let (failing, request) = spec_advance(state, event);
            let (ended, last) = spec_advance(failing, later);
            &&& request == RequestView::Reap { pid: state.pid }
            &&& last == RequestView::Finish(
                Err(failure_of(state.tasks[state.at], event, state.creating)),
            )
            &&& ended.finished
        }),
{
}

impl Spawn {
    /// The state of the launch as contracts speak of it.
    pub closed spec fn view(&self) -> SpawnView {
        SpawnView {
            tasks: self.tasks@,
            at: self.at as int,
            pid: self.pid,
            creating: self.creating,
            failure: match self.failure {
                Some(err) => Some(err@),
                None => None,
            },
            finished: self.finished,
        }
    }

    /// Whether the state is one that a launch can be in.
    pub open spec fn wf(&self) -> bool {
        spawn_wf(self@)
    }

    /// Starts the launch of a plan. The first thing that the parent is
    /// asked to do is to duplicate the process.
    pub fn new(plan: &Plan) -> (spawn: Spawn)
        ensures
            spawn.wf(),
            spawn@ == (SpawnView {
                tasks: parent_tasks(strategy_of(*plan), plan.before_unfreeze, plan.gate),
                at: 0,
                pid: 0,
                creating: plan.clone_flags != 0,
                failure: None,
                finished: false,
            }),
    {
        let mut tasks: Vec<Task> = Vec::new();
        tasks.push(Task::Fork);
        match &plan.maps {
            Some(maps) => match maps.strategy {
                MapStrategy::Direct => {
                    tasks.push(Task::WriteUidMap);
                    tasks.push(Task::WriteGidMap);
                },
                MapStrategy::Helper => {
                    tasks.push(Task::RunUidHelper);
                    tasks.push(Task::RunGidHelper);
                },
            },
            None => {},
        }
        if plan.before_unfreeze {
            tasks.push(Task::BeforeUnfreeze);
        }
        if plan.gate {
            tasks.push(Task::Release);
        }
        tasks.push(Task::ReadChannel);
        proof {
            let strategy = strategy_of(*plan);
            lemma_parent_tasks(strategy, plan.before_unfreeze, plan.gate);
            assert(tasks@ =~= parent_tasks(strategy, plan.before_unfreeze, plan.gate));
        }
        Spawn {
            tasks,
            at: 0,
            pid: 0,
            creating: plan.clone_flags != 0,
            failure: None,
            finished: false,
        }
    }

    /// What the parent does first: it duplicates the process.
    pub fn first(&self) -> (request: Request)
        requires
            self.wf(),
            self@.at == 0,
        ensures
            request@ == RequestView::Do(Task::Fork),
    {
        Request::Do(self.tasks[0])
    }

    /// Takes what came of the last request and says what the parent does
    /// next.
    pub fn advance(&mut self, event: Event) -> (request: Request)
        requires
            old(self).wf(),
        ensures
            final(self).wf(),
            (final(self)@, request@) == spec_advance(old(self)@, event@),
    {
        if self.finished {
            return Request::Finish(Err(Error::new(Step::Channel, invalid_argument())));
        }
        if self.failure.is_some() {
            self.finished = true;
            let failure = self.failure.take();
            let err = failure.unwrap();
            // The failure goes to the caller; the state keeps its copy.
            let kept = Error { step: err.step, errno: err.errno, detail: copy_detail(&err.detail) };
            self.failure = Some(kept);
            return Request::Finish(Err(err));
        }
        let task = self.tasks[self.at];
        let creating = self.creating;
        let won = match (&task, &event) {
            (Task::Fork, Event::Forked { .. }) => true,
            (Task::WriteUidMap, Event::Done) => true,
            (Task::WriteGidMap, Event::Done) => true,
            (Task::BeforeUnfreeze, Event::Done) => true,
            (Task::Release, Event::Done) => true,
            (Task::RunUidHelper, Event::Exited(status)) => helper_verdict(*status).is_ok(),
            (Task::RunGidHelper, Event::Exited(status)) => helper_verdict(*status).is_ok(),
            (Task::ReadChannel, Event::Channel(Report::Started)) => true,
            _ => false,
        };
        if won {
            match task {
                Task::ReadChannel => {
                    self.finished = true;
                    Request::Finish(Ok(self.pid))
                },
                _ => {
                    if let Event::Forked { pid } = event {
                        self.pid = pid;
                    }
                    assert(self.tasks@[self.at as int] != Task::ReadChannel);
                    assert(self.at < self.tasks.len() - 1);
                    self.at = self.at + 1;
                    Request::Do(self.tasks[self.at])
                },
            }
        } else {
            let failure = task_failure(task, event, creating);
            match task {
                Task::Fork => {
                    self.finished = true;
                    Request::Finish(Err(failure))
                },
                _ => {
                    self.failure = Some(failure);
                    Request::Reap { pid: self.pid }
                },
            }
        }
    }

    /// The process id of the child, once it exists.
    pub fn pid(&self) -> (pid: i32)
        ensures
            pid == self@.pid,
    {
        self.pid
    }

    /// Whether the launch has ended.
    pub fn is_finished(&self) -> (finished: bool)
        ensures
            finished == self@.finished,
    {
        self.finished
    }
}

/// A copy of the text of a failure.
fn copy_detail(detail: &Option<Vec<u8>>) -> (copy: Option<Vec<u8>>)
    ensures
        copy is Some == detail is Some,
        copy matches Some(text) ==> text@ == detail.unwrap()@,
{
    match detail {
        Some(text) => Some(crate::bytes::copy(text)),
        None => None,
    }
}

/// The step that is reported when `task` fails.
pub fn step_of_task(task: Task, creating: bool) -> (step: Step)
    ensures
        step == task_step(task, creating),
{
    match task {
        Task::Fork => if creating {
            Step::CreateNamespace
        } else {
            Step::Fork
        },
        Task::WriteUidMap | Task::WriteGidMap => Step::IdMapWrite,
        Task::RunUidHelper | Task::RunGidHelper => Step::IdMapHelperSpawn,
        Task::BeforeUnfreeze => Step::BeforeUnfreeze,
        Task::Release | Task::ReadChannel => Step::Channel,
    }
}

/// The failure of a launch whose task `task` did not succeed.
pub fn task_failure(task: Task, event: Event, creating: bool) -> (failure: Error)
    ensures
        failure@ == failure_of(task, event@, creating),
{
    let step = step_of_task(task, creating);
    match event {
        Event::Failed { errno } => Error::new(step, errno),
        Event::Exited(status) => {
            let helper = match task {
                Task::RunUidHelper | Task::RunGidHelper => true,
                _ => false,
            };
            if helper {
                match helper_verdict(status) {
                    Err(err) => err,
                    Ok(()) => Error::new(step, invalid_argument()),
                }
            } else {
                Error::new(step, invalid_argument())
            }
        },
        Event::Channel(Report::Failed(failure)) => match task {
            Task::ReadChannel => failure,
            _ => Error::new(step, invalid_argument()),
        },
        _ => Error::new(step, invalid_argument()),
    }
}

} // verus!
