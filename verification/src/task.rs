//! Background task records and the scheduler that owns them: a registry
//! of tasks, per-task capped output buffers, the table of in-flight
//! executions, and the shared concurrency gate.
//!
//! Spawning the configured shell, streaming its output and awaiting its
//! exit are I/O and stay with the caller, which drives this registry
//! through `run_task` / `start_task`, the per-line appends, `finish_task`
//! and `cancel_task`.

use vstd::prelude::*;

use crate::clock::now_timestamp;
use crate::errors::CoreError;
use crate::gate::{ConcurrencyGate, MAX_CONCURRENT_TASKS};
use crate::output::{join_lines, TaskOutput};

verus! {

/// The lifecycle state of a background task.
///
/// `Pending` moves to `Running` when the task is started; a run ends in
/// `Success` or `Failed`; an explicit cancellation of a pending or running
/// task ends in `Cancelled`. `Success`, `Failed` and `Cancelled` are
/// terminal: no transition leaves them.
#[derive(Clone, Copy, Debug, PartialEq, Eq, Structural)]
pub enum TaskStatus {
    Pending,
    Running,
    Success,
    Failed,
    Cancelled,
}

impl TaskStatus {
    /// Whether this status is terminal.
    pub open spec fn spec_is_terminal(self) -> bool {
        self == TaskStatus::Success || self == TaskStatus::Failed
            || self == TaskStatus::Cancelled
    }

    /// Runtime test for a terminal status.
    pub fn is_terminal(&self) -> (r: bool)
        ensures
            r == self.spec_is_terminal(),
    {
        match self {
            TaskStatus::Success | TaskStatus::Failed | TaskStatus::Cancelled => true,
            TaskStatus::Pending | TaskStatus::Running => false,
        }
    }
}

/// The mathematical value of a task record.
pub ghost struct TaskView {
    pub id: Seq<char>,
    pub name: Seq<char>,
    pub command: Seq<char>,
    pub status: TaskStatus,
    pub output: Seq<char>,
    pub error: Seq<char>,
    pub start_time: Option<i64>,
    pub end_time: Option<i64>,
    pub env_vars: Seq<(Seq<char>, Seq<char>)>,
}

/// The environment overrides of a task as a sequence of name/value pairs.
pub open spec fn env_view(s: Seq<(String, String)>) -> Seq<(Seq<char>, Seq<char>)> {
    s.map_values(|p: (String, String)| (p.0@, p.1@))
}

/// The value of a task after its run starts at `now`.
pub open spec fn with_started(v: TaskView, now: i64) -> TaskView {
    TaskView {
        status: TaskStatus::Running,
        start_time: Some(now),
        id: v.id,
        name: v.name,
        command: v.command,
        output: v.output,
        error: v.error,
        end_time: v.end_time,
        env_vars: v.env_vars,
    }
}

/// The value of a task after its run ends at `now` with the given status
/// and materialized stream snapshots.
pub open spec fn with_finished(
    v: TaskView,
    status: TaskStatus,
    output: Seq<char>,
    error: Seq<char>,
    now: i64,
) -> TaskView {
    TaskView {
        status,
        output,
        error,
        end_time: Some(now),
        id: v.id,
        name: v.name,
        command: v.command,
        start_time: v.start_time,
        env_vars: v.env_vars,
    }
}

/// The value of a task after it is cancelled at `now`.
pub open spec fn with_cancelled(v: TaskView, now: i64) -> TaskView {
    TaskView {
        status: TaskStatus::Cancelled,
        end_time: Some(now),
        id: v.id,
        name: v.name,
        command: v.command,
        output: v.output,
        error: v.error,
        start_time: v.start_time,
        env_vars: v.env_vars,
    }
}

/// One tracked task: identity, the shell command it runs, its state
/// machine position, and the snapshots and timestamps its run fills in.
///
/// `output` and `error` are authoritative only once `end_time` is set.
pub struct Task {
    pub id: String,
    pub name: String,
    pub command: String,
    pub status: TaskStatus,
    pub output: String,
    pub error: String,
    pub start_time: Option<i64>,
    pub end_time: Option<i64>,
    pub env_vars: Vec<(String, String)>,
}

impl View for Task {
    type V = TaskView;

    open spec fn view(&self) -> TaskView {
        TaskView {
            id: self.id@,
            name: self.name@,
            command: self.command@,
            status: self.status,
            output: self.output@,
            error: self.error@,
            start_time: self.start_time,
            end_time: self.end_time,
            env_vars: env_view(self.env_vars@),
        }
    }
}

impl Task {
    /// An owned copy of this record with the same value.
    pub fn snapshot(&self) -> (r: Task)
        ensures
            r@ == self@,
    {
        let mut env: Vec<(String, String)> = Vec::new();
        let n = self.env_vars.len();
        let mut i: usize = 0;
        while i < n
            invariant
                i <= n,
                n == self.env_vars@.len(),
                env@.len() == i,
                forall|k: int|
                    0 <= k < i ==> (#[trigger] env@[k]).0@ == self.env_vars@[k].0@ && env@[k].1@
                        == self.env_vars@[k].1@,
            decreases n - i,
        {
            let pair = (self.env_vars[i].0.clone(), self.env_vars[i].1.clone());
            env.push(pair);
            i = i + 1;
        }
        proof {
            assert(env_view(env@) =~= env_view(self.env_vars@));
        }
        Task {
            id: self.id.clone(),
            name: self.name.clone(),
            command: self.command.clone(),
            status: self.status,
            output: self.output.clone(),
            error: self.error.clone(),
            start_time: self.start_time,
            end_time: self.end_time,
            env_vars: env,
        }
    }
}

/// The two capped stream buffers of one task's current run.
struct TaskBuffers {
    id: String,
    output: TaskOutput,
    error: TaskOutput,
}

/// The mathematical value of one task's stream buffers.
pub ghost struct BuffersView {
    pub id: Seq<char>,
    pub output: Seq<Seq<char>>,
    pub error: Seq<Seq<char>>,
}

/// The first position in `s` whose task carries `id`, or `-1`.
pub open spec fn task_index(s: Seq<TaskView>, id: Seq<char>) -> int
    decreases s.len(),
{
    if s.len() == 0 {
        -1
    } else if s[0].id == id {
        0
    } else {
        let r = task_index(s.drop_first(), id);
        if r < 0 {
            -1
        } else {
            r + 1
        }
    }
}

/// The first position in `s` whose buffers carry `id`, or `-1`.
pub open spec fn buffers_index(s: Seq<BuffersView>, id: Seq<char>) -> int
    decreases s.len(),
{
    if s.len() == 0 {
        -1
    } else if s[0].id == id {
        0
    } else {
        let r = buffers_index(s.drop_first(), id);
        if r < 0 {
            -1
        } else {
            r + 1
        }
    }
}

/// The first position of `id` in `s`, or `-1`.
pub open spec fn id_index(s: Seq<Seq<char>>, id: Seq<char>) -> int
    decreases s.len(),
{
    if s.len() == 0 {
        -1
    } else if s[0] == id {
        0
    } else {
        let r = id_index(s.drop_first(), id);
        if r < 0 {
            -1
        } else {
            r + 1
        }
    }
}

/// `task_index` finds exactly the first position carrying `id`.
pub proof fn lemma_task_index(s: Seq<TaskView>, id: Seq<char>)
    ensures
        task_index(s, id) < 0 ==> forall|k: int| 0 <= k < s.len() ==> (#[trigger] s[k]).id != id,
        task_index(s, id) >= 0 ==> {
            &&& task_index(s, id) < s.len()
            &&& s[task_index(s, id)].id == id
            &&& forall|k: int| 0 <= k < task_index(s, id) ==> (#[trigger] s[k]).id != id
        },
    decreases s.len(),
{
    if s.len() > 0 && s[0].id != id {
        lemma_task_index(s.drop_first(), id);
        assert forall|k: int| 1 <= k < s.len() implies s.drop_first()[k - 1] == s[k] by {}
    }
}

/// The converse: a first occurrence at `i` pins `task_index` to `i`, and
/// no occurrence pins it to `-1`.
pub proof fn lemma_task_index_of(s: Seq<TaskView>, id: Seq<char>, i: int)
    requires
        0 <= i <= s.len(),
        forall|k: int| 0 <= k < i ==> (#[trigger] s[k]).id != id,
    ensures
        0 <= i < s.len() && s[i].id == id ==> task_index(s, id) == i,
        (forall|k: int| 0 <= k < s.len() ==> (#[trigger] s[k]).id != id) ==> task_index(s, id)
            == -1,
    decreases s.len(),
{
    if s.len() > 0 && s[0].id != id {
        let j: int = if i == 0 { 0 } else { i - 1 };
        assert forall|k: int| 0 <= k < j implies (#[trigger] s.drop_first()[k]).id != id by {
            assert(s.drop_first()[k] == s[k + 1]);
        }
        lemma_task_index_of(s.drop_first(), id, j);
        if 0 <= i < s.len() && s[i].id == id {
            assert(s.drop_first()[i - 1] == s[i]);
        }
        if forall|k: int| 0 <= k < s.len() ==> (#[trigger] s[k]).id != id {
            assert forall|k: int| 0 <= k < s.drop_first().len() implies (#[trigger] s.drop_first()[k]).id
                != id by {
                assert(s.drop_first()[k] == s[k + 1]);
            }
        }
    }
}

/// `buffers_index` finds exactly the first position carrying `id`.
pub proof fn lemma_buffers_index(s: Seq<BuffersView>, id: Seq<char>)
    ensures
        buffers_index(s, id) < 0 ==> forall|k: int| 0 <= k < s.len() ==> (#[trigger] s[k]).id
            != id,
        buffers_index(s, id) >= 0 ==> {
            &&& buffers_index(s, id) < s.len()
            &&& s[buffers_index(s, id)].id == id
            &&& forall|k: int| 0 <= k < buffers_index(s, id) ==> (#[trigger] s[k]).id != id
        },
    decreases s.len(),
{
    if s.len() > 0 && s[0].id != id {
        lemma_buffers_index(s.drop_first(), id);
        assert forall|k: int| 1 <= k < s.len() implies s.drop_first()[k - 1] == s[k] by {}
    }
}

/// The converse characterisation of `buffers_index`.
pub proof fn lemma_buffers_index_of(s: Seq<BuffersView>, id: Seq<char>, i: int)
    requires
        0 <= i <= s.len(),
        forall|k: int| 0 <= k < i ==> (#[trigger] s[k]).id != id,
    ensures
        0 <= i < s.len() && s[i].id == id ==> buffers_index(s, id) == i,
        (forall|k: int| 0 <= k < s.len() ==> (#[trigger] s[k]).id != id) ==> buffers_index(s, id)
            == -1,
    decreases s.len(),
{
    if s.len() > 0 && s[0].id != id {
        let j: int = if i == 0 { 0 } else { i - 1 };
        assert forall|k: int| 0 <= k < j implies (#[trigger] s.drop_first()[k]).id != id by {
            assert(s.drop_first()[k] == s[k + 1]);
        }
        lemma_buffers_index_of(s.drop_first(), id, j);
        if 0 <= i < s.len() && s[i].id == id {
            assert(s.drop_first()[i - 1] == s[i]);
        }
        if forall|k: int| 0 <= k < s.len() ==> (#[trigger] s[k]).id != id {
            assert forall|k: int| 0 <= k < s.drop_first().len() implies (#[trigger] s.drop_first()[k]).id
                != id by {
                assert(s.drop_first()[k] == s[k + 1]);
            }
        }
    }
}

/// `id_index` finds exactly the first position equal to `id`.
pub proof fn lemma_id_index(s: Seq<Seq<char>>, id: Seq<char>)
    ensures
        id_index(s, id) < 0 ==> forall|k: int| 0 <= k < s.len() ==> s[k] != id,
        id_index(s, id) >= 0 ==> {
            &&& id_index(s, id) < s.len()
            &&& s[id_index(s, id)] == id
            &&& forall|k: int| 0 <= k < id_index(s, id) ==> s[k] != id
        },
    decreases s.len(),
{
    if s.len() > 0 && s[0] != id {
        lemma_id_index(s.drop_first(), id);
        assert forall|k: int| 1 <= k < s.len() implies s.drop_first()[k - 1] == s[k] by {}
    }
}

/// The converse characterisation of `id_index`.
pub proof fn lemma_id_index_of(s: Seq<Seq<char>>, id: Seq<char>, i: int)
    requires
        0 <= i <= s.len(),
        forall|k: int| 0 <= k < i ==> s[k] != id,
    ensures
        0 <= i < s.len() && s[i] == id ==> id_index(s, id) == i,
        (forall|k: int| 0 <= k < s.len() ==> s[k] != id) ==> id_index(s, id) == -1,
    decreases s.len(),
{
    if s.len() > 0 && s[0] != id {
        let j: int = if i == 0 { 0 } else { i - 1 };
        assert forall|k: int| 0 <= k < j implies s.drop_first()[k] != id by {
            assert(s.drop_first()[k] == s[k + 1]);
        }
        lemma_id_index_of(s.drop_first(), id, j);
        if 0 <= i < s.len() && s[i] == id {
            assert(s.drop_first()[i - 1] == s[i]);
        }
        if forall|k: int| 0 <= k < s.len() ==> s[k] != id {
            assert forall|k: int| 0 <= k < s.drop_first().len() implies s.drop_first()[k] != id by {
                assert(s.drop_first()[k] == s[k + 1]);
            }
        }
    }
}

/// The task scheduler: the registry of task records, the per-task stream
/// buffers of the current runs, the ids with an in-flight execution, and
/// the shared concurrency gate.
pub struct TaskManager {
    tasks: Vec<Task>,
    buffers: Vec<TaskBuffers>,
    handles: Vec<String>,
    gate: ConcurrencyGate,
}

impl TaskManager {
    /// The registered tasks, in registry order.
    pub closed spec fn tasks(&self) -> Seq<TaskView> {
        self.tasks@.map_values(|t: Task| t@)
    }

    /// The stream buffers, in registry order.
    pub closed spec fn buffers(&self) -> Seq<BuffersView> {
        self.buffers@.map_values(
            |b: TaskBuffers| BuffersView { id: b.id@, output: b.output@, error: b.error@ },
        )
    }

    /// The ids with an in-flight execution handle.
    pub closed spec fn handles(&self) -> Seq<Seq<char>> {
        self.handles@.map_values(|s: String| s@)
    }

    /// How many executions currently hold a gate slot.
    pub closed spec fn gate_active(&self) -> int {
        self.gate.active_count()
    }

    /// The registry invariant: ids are unique in each table, every buffer
    /// respects its cap, and the active count is within the capacity.
    pub open spec fn wf(&self) -> bool {
        &&& forall|i: int, j: int|
            0 <= i < j < self.tasks().len() ==> (#[trigger] self.tasks()[i]).id != (
            #[trigger] self.tasks()[j]).id
        &&& forall|i: int, j: int|
            0 <= i < j < self.buffers().len() ==> (#[trigger] self.buffers()[i]).id != (
            #[trigger] self.buffers()[j]).id
        &&& forall|i: int, j: int|
            0 <= i < j < self.handles().len() ==> (#[trigger] self.handles()[i]) != (
            #[trigger] self.handles()[j])
        &&& forall|i: int|
            0 <= i < self.buffers().len() ==> (#[trigger] self.buffers()[i]).output.len()
                <= crate::output::MAX_OUTPUT_LINES && self.buffers()[i].error.len()
                <= crate::output::MAX_OUTPUT_LINES
        &&& self.gate_active() <= MAX_CONCURRENT_TASKS
    }

    /// An empty scheduler with a free gate.
    pub fn new() -> (r: Self)
        ensures
            r.tasks() == Seq::<TaskView>::empty(),
            r.buffers() == Seq::<BuffersView>::empty(),
            r.handles() == Seq::<Seq<char>>::empty(),
            r.gate_active() == 0,
            r.wf(),
    {
        let r = TaskManager {
            tasks: Vec::new(),
            buffers: Vec::new(),
            handles: Vec::new(),
            gate: ConcurrencyGate::new(),
        };
        proof {
            assert(r.tasks() =~= Seq::<TaskView>::empty());
            assert(r.buffers() =~= Seq::<BuffersView>::empty());
            assert(r.handles() =~= Seq::<Seq<char>>::empty());
        }
        r
    }

    /// The position of `id` in the task registry.
    fn task_pos(tasks: &Vec<Task>, id: &String) -> (r: Option<usize>)
        ensures
            match r {
                Some(i) => i < tasks@.len() && task_index(
                    tasks@.map_values(|t: Task| t@),
                    id@,
                ) == i,
                None => task_index(tasks@.map_values(|t: Task| t@), id@) == -1,
            },
    {
        let ghost views = tasks@.map_values(|t: Task| t@);
        let n = tasks.len();
        let mut i: usize = 0;
        while i < n
            invariant
                i <= n,
                n == tasks@.len(),
                views == tasks@.map_values(|t: Task| t@),
                forall|k: int| 0 <= k < i ==> (#[trigger] views[k]).id != id@,
            decreases n - i,
        {
            if tasks[i].id == *id {
                proof {
                    lemma_task_index_of(views, id@, i as int);
                }
                return Some(i);
            }
            i = i + 1;
        }
        proof {
            lemma_task_index_of(views, id@, n as int);
        }
        None
    }

    /// The position of `id` in the buffer table.
    fn buffers_pos(buffers: &Vec<TaskBuffers>, id: &String) -> (r: Option<usize>)
        ensures
            match r {
                Some(i) => i < buffers@.len() && buffers_index(
                    buffers@.map_values(
                        |b: TaskBuffers| BuffersView {
                            id: b.id@,
                            output: b.output@,
                            error: b.error@,
                        },
                    ),
                    id@,
                ) == i,
                None => buffers_index(
                    buffers@.map_values(
                        |b: TaskBuffers| BuffersView {
                            id: b.id@,
                            output: b.output@,
                            error: b.error@,
                        },
                    ),
                    id@,
                ) == -1,
            },
    {
        let ghost views = buffers@.map_values(
            |b: TaskBuffers| BuffersView { id: b.id@, output: b.output@, error: b.error@ },
        );
        let n = buffers.len();
        let mut i: usize = 0;
        while i < n
            invariant
                i <= n,
                n == buffers@.len(),
                views == buffers@.map_values(
                    |b: TaskBuffers| BuffersView { id: b.id@, output: b.output@, error: b.error@ },
                ),
                forall|k: int| 0 <= k < i ==> (#[trigger] views[k]).id != id@,
            decreases n - i,
        {
            if buffers[i].id == *id {
                proof {
                    lemma_buffers_index_of(views, id@, i as int);
                }
                return Some(i);
            }
            i = i + 1;
        }
        proof {
            lemma_buffers_index_of(views, id@, n as int);
        }
        None
    }

    /// The position of `id` in the handle table.
    fn handle_pos(handles: &Vec<String>, id: &String) -> (r: Option<usize>)
        ensures
            match r {
                Some(i) => i < handles@.len() && id_index(
                    handles@.map_values(|s: String| s@),
                    id@,
                ) == i,
                None => id_index(handles@.map_values(|s: String| s@), id@) == -1,
            },
    {
        let ghost views = handles@.map_values(|s: String| s@);
        let n = handles.len();
        let mut i: usize = 0;
        while i < n
            invariant
                i <= n,
                n == handles@.len(),
                views == handles@.map_values(|s: String| s@),
                forall|k: int| 0 <= k < i ==> views[k] != id@,
            decreases n - i,
        {
            if handles[i] == *id {
                proof {
                    lemma_id_index_of(views, id@, i as int);
                }
                return Some(i);
            }
            i = i + 1;
        }
        proof {
            lemma_id_index_of(views, id@, n as int);
        }
        None
    }

    /// Registers a task under the caller-supplied id, in `Pending` state
    /// with empty output and no timestamps; a task already registered
    /// under the same id is replaced (last write wins). Never fails.
    pub fn create_task(
        &mut self,
        id: String,
        name: String,
        command: String,
        env_vars: Option<Vec<(String, String)>>,
    ) -> (r: Result<Task, CoreError>)
        requires
            old(self).wf(),
        ensures
            final(self).wf(),
            match r {
                Ok(t) => {
                    &&& t@.id == id@
                    &&& t@.name == name@
                    &&& t@.command == command@
                    &&& t@.status == TaskStatus::Pending
                    &&& t@.output == Seq::<char>::empty()
                    &&& t@.error == Seq::<char>::empty()
                    &&& t@.start_time.is_none()
                    &&& t@.end_time.is_none()
                    &&& t@.env_vars == (match env_vars {
                        Some(e) => env_view(e@),
                        None => Seq::<(Seq<char>, Seq<char>)>::empty(),
                    })
                    &&& {
                        let i = task_index(old(self).tasks(), id@);
                        if i < 0 {
                            final(self).tasks() == old(self).tasks().push(t@)
                        } else {
                            final(self).tasks() == old(self).tasks().update(i, t@)
                        }
                    }
                    &&& final(self).buffers() == old(self).buffers()
                    &&& final(self).handles() == old(self).handles()
                    &&& final(self).gate_active() == old(self).gate_active()
                },
                Err(_) => false,
            },
    {
        let env = match env_vars {
            Some(e) => e,
            None => Vec::new(),
        };
        let task = Task {
            id,
            name,
            command,
            status: TaskStatus::Pending,
            output: String::new(),
            error: String::new(),
            start_time: None,
            end_time: None,
            env_vars: env,
        };
        let snap = task.snapshot();
        let ghost pre = self.tasks();
        match Self::task_pos(&self.tasks, &task.id) {
            Some(i) => {
                proof {
                    lemma_task_index(pre, task.id@);
                }
                self.tasks.set(i, task);
                proof {
                    assert(self.tasks() =~= pre.update(i as int, snap@));
                    assert(snap@.id == pre[i as int].id);
                    assert forall|a: int, b: int|
                        0 <= a < b < self.tasks().len() implies (#[trigger] self.tasks()[a]).id
                        != (#[trigger] self.tasks()[b]).id by {
                        assert(pre[a].id != pre[b].id);
                    }
                }
            },
            None => {
                proof {
                    lemma_task_index(pre, task.id@);
                }
                self.tasks.push(task);
                proof {
                    assert(self.tasks() =~= pre.push(snap@));
                    assert forall|a: int, b: int|
                        0 <= a < b < self.tasks().len() implies (#[trigger] self.tasks()[a]).id
                        != (#[trigger] self.tasks()[b]).id by {
                        if b < pre.len() {
                            assert(pre[a].id != pre[b].id);
                        } else {
                            assert(pre[a].id != snap@.id);
                        }
                    }
                }
            },
        }
        proof {
            assert(self.buffers@ == old(self).buffers@);
            assert(self.buffers() == old(self).buffers());
            assert(self.handles() == old(self).handles());
            assert(self.gate_active() == old(self).gate_active());
        }
        Ok(snap)
    }

    /// A point-in-time copy of the task registered under `task_id`.
    pub fn get_task(&self, task_id: &String) -> (r: Option<Task>)
        ensures
            match r {
                Some(t) => task_index(self.tasks(), task_id@) >= 0 && t@ == self.tasks()[task_index(
                    self.tasks(),
                    task_id@,
                )],
                None => task_index(self.tasks(), task_id@) == -1,
            },
    {
        match Self::task_pos(&self.tasks, task_id) {
            Some(i) => Some(self.tasks[i].snapshot()),
            None => None,
        }
    }

    /// Point-in-time copies of every registered task, in registry order.
    pub fn get_all_tasks(&self) -> (r: Vec<Task>)
        ensures
            r@.map_values(|t: Task| t@) == self.tasks(),
    {
        let n = self.tasks.len();
        let mut r: Vec<Task> = Vec::new();
        let mut i: usize = 0;
        while i < n
            invariant
                i <= n,
                n == self.tasks@.len(),
                r@.len() == i,
                forall|k: int| 0 <= k < i ==> (#[trigger] r@[k])@ == self.tasks@[k]@,
            decreases n - i,
        {
            r.push(self.tasks[i].snapshot());
            i = i + 1;
        }
        proof {
            assert(r@.map_values(|t: Task| t@) =~= self.tasks());
        }
        r
    }

    /// The ids of every registered task, in registry order; `run_all`
    /// fans `run_task` out over exactly these.
    pub fn task_ids(&self) -> (r: Vec<String>)
        ensures
            r@.map_values(|s: String| s@) == self.tasks().map_values(|t: TaskView| t.id),
    {
        let n = self.tasks.len();
        let mut r: Vec<String> = Vec::new();
        let mut i: usize = 0;
        while i < n
            invariant
                i <= n,
                n == self.tasks@.len(),
                r@.len() == i,
                forall|k: int| 0 <= k < i ==> (#[trigger] r@[k])@ == self.tasks@[k].id@,
            decreases n - i,
        {
            r.push(self.tasks[i].id.clone());
            i = i + 1;
        }
        proof {
            assert(r@.map_values(|s: String| s@) =~= self.tasks().map_values(|t: TaskView| t.id));
        }
        r
    }

    /// Moves the task registered under `task_id` to `Running` with the
    /// given start time, gives it fresh stream buffers, and registers its
    /// execution handle; fails with `NotFound` for an unknown id.
    ///
    /// The caller then spawns the configured shell under the concurrency
    /// gate and feeds the line appends and `finish_task`.
    pub fn start_task(&mut self, task_id: &String, now: i64) -> (r: Result<Task, CoreError>)
        requires
            old(self).wf(),
        ensures
            final(self).wf(),
            match r {
                Err(CoreError::NotFound) => {
                    &&& task_index(old(self).tasks(), task_id@) == -1
                    &&& final(self).tasks() == old(self).tasks()
                    &&& final(self).buffers() == old(self).buffers()
                    &&& final(self).handles() == old(self).handles()
                    &&& final(self).gate_active() == old(self).gate_active()
                },
                Ok(t) => {
                    let i = task_index(old(self).tasks(), task_id@);
                    let b = buffers_index(old(self).buffers(), task_id@);
                    let h = id_index(old(self).handles(), task_id@);
                    let fresh = BuffersView {
                        id: task_id@,
                        output: Seq::empty(),
                        error: Seq::empty(),
                    };
                    &&& i >= 0
                    &&& t@ == with_started(old(self).tasks()[i], now)
                    &&& final(self).tasks() == old(self).tasks().update(i, t@)
                    &&& final(self).buffers() == if b < 0 {
                        old(self).buffers().push(fresh)
                    } else {
                        old(self).buffers().update(b, fresh)
                    }
                    &&& final(self).handles() == if h < 0 {
                        old(self).handles().push(task_id@)
                    } else {
                        old(self).handles()
                    }
                    &&& final(self).gate_active() == old(self).gate_active()
                },
                _ => false,
            },
    {
        let pos = match Self::task_pos(&self.tasks, task_id) {
            None => {
                return Err(CoreError::NotFound);
            },
            Some(i) => i,
        };
        let ghost pre_tasks = self.tasks();
        let ghost pre_buffers = self.buffers();
        let ghost pre_handles = self.handles();
        proof {
            lemma_task_index(pre_tasks, task_id@);
        }
        let mut t = self.tasks[pos].snapshot();
        t.status = TaskStatus::Running;
        t.start_time = Some(now);
        let snap = t.snapshot();
        self.tasks.set(pos, t);
        proof {
            assert(self.tasks() =~= pre_tasks.update(pos as int, snap@));
            assert(snap@.id == pre_tasks[pos as int].id);
            assert forall|a: int, b: int|
                0 <= a < b < self.tasks().len() implies (#[trigger] self.tasks()[a]).id != (
            #[trigger] self.tasks()[b]).id by {
                assert(pre_tasks[a].id != pre_tasks[b].id);
            }
        }
        let fresh = TaskBuffers {
            id: task_id.clone(),
            output: TaskOutput::new(),
            error: TaskOutput::new(),
        };
        match Self::buffers_pos(&self.buffers, task_id) {
            Some(b) => {
                proof {
                    lemma_buffers_index(pre_buffers, task_id@);
                }
                self.buffers.set(b, fresh);
                proof {
                    assert(self.buffers() =~= pre_buffers.update(
                        b as int,
                        BuffersView {
                            id: task_id@,
                            output: Seq::empty(),
                            error: Seq::empty(),
                        },
                    ));
                    assert forall|a: int, c: int|
                        0 <= a < c < self.buffers().len() implies (#[trigger] self.buffers()[a]).id
                        != (#[trigger] self.buffers()[c]).id by {
                        assert(pre_buffers[a].id != pre_buffers[c].id);
                    }
                }
            },
            None => {
                proof {
                    lemma_buffers_index(pre_buffers, task_id@);
                }
                self.buffers.push(fresh);
                proof {
                    assert(self.buffers() =~= pre_buffers.push(
                        BuffersView {
                            id: task_id@,
                            output: Seq::empty(),
                            error: Seq::empty(),
                        },
                    ));
                    assert forall|a: int, c: int|
                        0 <= a < c < self.buffers().len() implies (#[trigger] self.buffers()[a]).id
                        != (#[trigger] self.buffers()[c]).id by {
                        if c < pre_buffers.len() {
                            assert(pre_buffers[a].id != pre_buffers[c].id);
                        } else {
                            assert(pre_buffers[a].id != task_id@);
                        }
                    }
                }
            },
        }
        match Self::handle_pos(&self.handles, task_id) {
            Some(_) => {
            },
            None => {
                proof {
                    lemma_id_index(pre_handles, task_id@);
                }
                self.handles.push(task_id.clone());
                proof {
                    assert(self.handles() =~= pre_handles.push(task_id@));
                    assert forall|a: int, c: int|
                        0 <= a < c < self.handles().len() implies (#[trigger] self.handles()[a])
                        != (#[trigger] self.handles()[c]) by {
                        if c < pre_handles.len() {
                            assert(pre_handles[a] != pre_handles[c]);
                        } else {
                            assert(pre_handles[a] != task_id@);
                        }
                    }
                }
            },
        }
        proof {
            assert(self.gate_active() == old(self).gate_active());
        }
        Ok(snap)
    }

    /// As `start_task`, with the start time read from the system clock;
    /// the recorded timestamp is whatever the clock handed back.
    pub fn run_task(&mut self, task_id: &String) -> (r: Result<Task, CoreError>)
        requires
            old(self).wf(),
        ensures
            final(self).wf(),
            match r {
                Err(CoreError::NotFound) => {
                    &&& task_index(old(self).tasks(), task_id@) == -1
                    &&& final(self).tasks() == old(self).tasks()
                    &&& final(self).buffers() == old(self).buffers()
                    &&& final(self).handles() == old(self).handles()
                    &&& final(self).gate_active() == old(self).gate_active()
                },
                Ok(t) => {
                    let i = task_index(old(self).tasks(), task_id@);
                    let b = buffers_index(old(self).buffers(), task_id@);
                    let h = id_index(old(self).handles(), task_id@);
                    let fresh = BuffersView {
                        id: task_id@,
                        output: Seq::empty(),
                        error: Seq::empty(),
                    };
                    &&& i >= 0
                    &&& t@.start_time matches Some(_)
                    &&& t@ == with_started(old(self).tasks()[i], t@.start_time.unwrap())
                    &&& final(self).tasks() == old(self).tasks().update(i, t@)
                    &&& final(self).buffers() == if b < 0 {
                        old(self).buffers().push(fresh)
                    } else {
                        old(self).buffers().update(b, fresh)
                    }
                    &&& final(self).handles() == if h < 0 {
                        old(self).handles().push(task_id@)
                    } else {
                        old(self).handles()
                    }
                    &&& final(self).gate_active() == old(self).gate_active()
                },
                _ => false,
            },
    {
        let now = now_timestamp();
        self.start_task(task_id, now)
    }

    /// Appends one line of standard output to the task's capped buffer;
    /// hands back whether a buffer for `task_id` exists.
    pub fn append_output_line(&mut self, task_id: &String, line: String) -> (found: bool)
        requires
            old(self).wf(),
        ensures
            final(self).wf(),
            found == (buffers_index(old(self).buffers(), task_id@) >= 0),
            final(self).tasks() == old(self).tasks(),
            final(self).handles() == old(self).handles(),
            final(self).gate_active() == old(self).gate_active(),
            !found ==> final(self).buffers() == old(self).buffers(),
            found ==> {
                let b = buffers_index(old(self).buffers(), task_id@);
                let pre = old(self).buffers()[b];
                let appended = if pre.output.len() < crate::output::MAX_OUTPUT_LINES {
                    pre.output.push(line@)
                } else {
                    pre.output.drop_first().push(line@)
                };
                final(self).buffers() == old(self).buffers().update(
                    b,
                    BuffersView { id: pre.id, output: appended, error: pre.error },
                )
            },
    {
        let ghost pre_buffers = self.buffers();
        match Self::buffers_pos(&self.buffers, task_id) {
            None => false,
            Some(b) => {
                proof {
                    lemma_buffers_index(pre_buffers, task_id@);
                }
                self.buffers[b].output.append(line);
                proof {
                    assert(self.buffers() =~= pre_buffers.update(
                        b as int,
                        BuffersView {
                            id: pre_buffers[b as int].id,
                            output: self.buffers()[b as int].output,
                            error: pre_buffers[b as int].error,
                        },
                    ));
                    assert forall|a: int, c: int|
                        0 <= a < c < self.buffers().len() implies (#[trigger] self.buffers()[a]).id
                        != (#[trigger] self.buffers()[c]).id by {
                        assert(pre_buffers[a].id != pre_buffers[c].id);
                    }
                    assert(self.tasks() == old(self).tasks());
                    assert(self.handles() == old(self).handles());
                }
                true
            },
        }
    }

    /// Appends one line of standard error to the task's capped buffer;
    /// hands back whether a buffer for `task_id` exists.
    pub fn append_error_line(&mut self, task_id: &String, line: String) -> (found: bool)
        requires
            old(self).wf(),
        ensures
            final(self).wf(),
            found == (buffers_index(old(self).buffers(), task_id@) >= 0),
            final(self).tasks() == old(self).tasks(),
            final(self).handles() == old(self).handles(),
            final(self).gate_active() == old(self).gate_active(),
            !found ==> final(self).buffers() == old(self).buffers(),
            found ==> {
                let b = buffers_index(old(self).buffers(), task_id@);
                let pre = old(self).buffers()[b];
                let appended = if pre.error.len() < crate::output::MAX_OUTPUT_LINES {
                    pre.error.push(line@)
                } else {
                    pre.error.drop_first().push(line@)
                };
                final(self).buffers() == old(self).buffers().update(
                    b,
                    BuffersView { id: pre.id, output: pre.output, error: appended },
                )
            },
    {
        let ghost pre_buffers = self.buffers();
        match Self::buffers_pos(&self.buffers, task_id) {
            None => false,
            Some(b) => {
                proof {
                    lemma_buffers_index(pre_buffers, task_id@);
                }
                self.buffers[b].error.append(line);
                proof {
                    assert(self.buffers() =~= pre_buffers.update(
                        b as int,
                        BuffersView {
                            id: pre_buffers[b as int].id,
                            output: pre_buffers[b as int].output,
                            error: self.buffers()[b as int].error,
                        },
                    ));
                    assert forall|a: int, c: int|
                        0 <= a < c < self.buffers().len() implies (#[trigger] self.buffers()[a]).id
                        != (#[trigger] self.buffers()[c]).id by {
                        assert(pre_buffers[a].id != pre_buffers[c].id);
                    }
                    assert(self.tasks() == old(self).tasks());
                    assert(self.handles() == old(self).handles());
                }
                true
            },
        }
    }

    /// Records the end of a task's run at `now`: the stream buffers are
    /// materialized into the task's `output` and `error` snapshots, a
    /// failure message is appended to the error snapshot, and the status
    /// becomes `Success` or `Failed`; hands back whether the id is known.
    /// A task already in a terminal state, such as one cancelled while it
    /// ran, is left as it is: no transition leaves a terminal state.
    pub fn finish_task(&mut self, task_id: &String, failure: Option<String>, now: i64) -> (found:
        bool)
        requires
            old(self).wf(),
        ensures
            final(self).wf(),
            found == (task_index(old(self).tasks(), task_id@) >= 0),
            final(self).buffers() == old(self).buffers(),
            final(self).handles() == old(self).handles(),
            final(self).gate_active() == old(self).gate_active(),
            !found ==> final(self).tasks() == old(self).tasks(),
            found ==> {
                let i = task_index(old(self).tasks(), task_id@);
                let b = buffers_index(old(self).buffers(), task_id@);
                let out = if b >= 0 {
                    join_lines(old(self).buffers()[b].output)
                } else {
                    old(self).tasks()[i].output
                };
                let base = if b >= 0 {
                    join_lines(old(self).buffers()[b].error)
                } else {
                    old(self).tasks()[i].error
                };
                let err = match failure {
                    None => base,
                    Some(m) => base + "\nError: "@ + m@,
                };
                let status = if failure is None {
                    TaskStatus::Success
                } else {
                    TaskStatus::Failed
                };
                if old(self).tasks()[i].status.spec_is_terminal() {
                    final(self).tasks() == old(self).tasks()
                } else {
                    final(self).tasks() == old(self).tasks().update(
                        i,
                        with_finished(old(self).tasks()[i], status, out, err, now),
                    )
                }
            },
    {
        let pos = match Self::task_pos(&self.tasks, task_id) {
            None => {
                return false;
            },
            Some(i) => i,
        };
        let ghost pre_tasks = self.tasks();
        let ghost pre_buffers = self.buffers();
        proof {
            lemma_task_index(pre_tasks, task_id@);
        }
        if self.tasks[pos].status.is_terminal() {
            return true;
        }
        let mut t = self.tasks[pos].snapshot();
        match Self::buffers_pos(&self.buffers, task_id) {
            Some(b) => {
                t.output = self.buffers[b].output.to_string();
                t.error = self.buffers[b].error.to_string();
            },
            None => {
            },
        }
        match failure {
            None => {
                t.status = TaskStatus::Success;
            },
            Some(m) => {
                t.status = TaskStatus::Failed;
                t.error.append("\nError: ");
                t.error.append(m.as_str());
            },
        }
        t.end_time = Some(now);
        let ghost tv = t@;
        self.tasks.set(pos, t);
        proof {
            assert(self.tasks() =~= pre_tasks.update(pos as int, tv));
            assert(tv.id == pre_tasks[pos as int].id);
            assert forall|a: int, b: int|
                0 <= a < b < self.tasks().len() implies (#[trigger] self.tasks()[a]).id != (
            #[trigger] self.tasks()[b]).id by {
                assert(pre_tasks[a].id != pre_tasks[b].id);
            }
            assert(self.buffers() == old(self).buffers());
            assert(self.handles() == old(self).handles());
        }
        true
    }

    /// Cancels the task registered under `task_id` at time `now`: a
    /// pending or running task becomes `Cancelled` with its end time set,
    /// a task already in a terminal state keeps its status; hands back
    /// whether an in-flight execution handle existed, which the caller
    /// must then abort. Cancelling an unknown id changes nothing.
    pub fn cancel_task_at(&mut self, task_id: &String, now: i64) -> (abort: bool)
        requires
            old(self).wf(),
        ensures
            final(self).wf(),
            abort == (id_index(old(self).handles(), task_id@) >= 0),
            final(self).buffers() == old(self).buffers(),
            final(self).gate_active() == old(self).gate_active(),
            final(self).handles() == if abort {
                old(self).handles().remove(id_index(old(self).handles(), task_id@))
            } else {
                old(self).handles()
            },
            ({
                let i = task_index(old(self).tasks(), task_id@);
                if i < 0 || old(self).tasks()[i].status.spec_is_terminal() {
                    final(self).tasks() == old(self).tasks()
                } else {
                    final(self).tasks() == old(self).tasks().update(
                        i,
                        with_cancelled(old(self).tasks()[i], now),
                    )
                }
            }),
    {
        let ghost pre_tasks = self.tasks();
        let ghost pre_handles = self.handles();
        let abort = match Self::handle_pos(&self.handles, task_id) {
            Some(h) => {
                let _ = self.handles.remove(h);
                proof {
                    assert(self.handles() =~= pre_handles.remove(h as int));
                    assert forall|a: int, c: int|
                        0 <= a < c < self.handles().len() implies (#[trigger] self.handles()[a])
                        != (#[trigger] self.handles()[c]) by {
                        let a0 = if a < h { a } else { a + 1 };
                        let c0 = if c < h { c } else { c + 1 };
                        assert(self.handles()[a] == pre_handles[a0]);
                        assert(self.handles()[c] == pre_handles[c0]);
                        assert(pre_handles[a0] != pre_handles[c0]);
                    }
                }
                true
            },
            None => false,
        };
        match Self::task_pos(&self.tasks, task_id) {
            None => {
            },
            Some(i) => {
                proof {
                    lemma_task_index(pre_tasks, task_id@);
                }
                if !self.tasks[i].status.is_terminal() {
                    let mut t = self.tasks[i].snapshot();
                    t.status = TaskStatus::Cancelled;
                    t.end_time = Some(now);
                    let ghost tv = t@;
                    self.tasks.set(i, t);
                    proof {
                        assert(self.tasks() =~= pre_tasks.update(i as int, tv));
                        assert(tv.id == pre_tasks[i as int].id);
                        assert forall|a: int, b: int|
                            0 <= a < b < self.tasks().len() implies (#[trigger] self.tasks()[a]).id
                            != (#[trigger] self.tasks()[b]).id by {
                            assert(pre_tasks[a].id != pre_tasks[b].id);
                        }
                    }
                }
            },
        }
        proof {
            assert(self.buffers() == old(self).buffers());
            assert(self.gate_active() == old(self).gate_active());
        }
        abort
    }

    /// As `cancel_task_at`, with the end time read from the system clock.
    pub fn cancel_task(&mut self, task_id: &String) -> (abort: bool)
        requires
            old(self).wf(),
        ensures
            final(self).wf(),
            abort == (id_index(old(self).handles(), task_id@) >= 0),
            final(self).buffers() == old(self).buffers(),
            final(self).gate_active() == old(self).gate_active(),
            final(self).handles() == if abort {
                old(self).handles().remove(id_index(old(self).handles(), task_id@))
            } else {
                old(self).handles()
            },
            ({
                let i = task_index(old(self).tasks(), task_id@);
                if i < 0 || old(self).tasks()[i].status.spec_is_terminal() {
                    final(self).tasks() == old(self).tasks()
                } else {
                    &&& final(self).tasks().len() == old(self).tasks().len()
                    &&& final(self).tasks()[i].status == TaskStatus::Cancelled
                    &&& final(self).tasks()[i].end_time matches Some(_)
                    &&& final(self).tasks() == old(self).tasks().update(
                        i,
                        with_cancelled(
                            old(self).tasks()[i],
                            final(self).tasks()[i].end_time.unwrap(),
                        ),
                    )
                }
            }),
    {
        let now = now_timestamp();
        let abort = self.cancel_task_at(task_id, now);
        proof {
            lemma_task_index(old(self).tasks(), task_id@);
        }
        abort
    }

    /// Removes every task and empties the handle table; hands back the
    /// ids whose in-flight executions the caller must abort. The stream
    /// buffers of past runs are kept, as is the count of active slots.
    pub fn clear_tasks(&mut self) -> (aborted: Vec<String>)
        requires
            old(self).wf(),
        ensures
            final(self).wf(),
            final(self).tasks() == Seq::<TaskView>::empty(),
            final(self).handles() == Seq::<Seq<char>>::empty(),
            final(self).buffers() == old(self).buffers(),
            final(self).gate_active() == old(self).gate_active(),
            aborted@.map_values(|s: String| s@) == old(self).handles(),
    {
        self.tasks = Vec::new();
        let mut aborted: Vec<String> = Vec::new();
        core::mem::swap(&mut aborted, &mut self.handles);
        proof {
            assert(self.tasks() =~= Seq::<TaskView>::empty());
            assert(self.handles() =~= Seq::<Seq<char>>::empty());
            assert(self.buffers() == old(self).buffers());
            assert(self.gate_active() == old(self).gate_active());
        }
        aborted
    }

    /// Admits one execution when a gate slot is free; refuses at
    /// capacity. The registry itself is untouched.
    pub fn try_acquire_slot(&mut self) -> (ok: bool)
        requires
            old(self).wf(),
        ensures
            final(self).wf(),
            ok == (old(self).gate_active() < MAX_CONCURRENT_TASKS),
            ok ==> final(self).gate_active() == old(self).gate_active() + 1,
            !ok ==> final(self).gate_active() == old(self).gate_active(),
            final(self).tasks() == old(self).tasks(),
            final(self).buffers() == old(self).buffers(),
            final(self).handles() == old(self).handles(),
    {
        let ok = self.gate.try_acquire();
        proof {
            assert(self.tasks() == old(self).tasks());
            assert(self.buffers() == old(self).buffers());
            assert(self.handles() == old(self).handles());
        }
        ok
    }

    /// Returns one gate slot; releasing with no active execution is a
    /// no-op.
    pub fn release_slot(&mut self)
        requires
            old(self).wf(),
        ensures
            final(self).wf(),
            final(self).gate_active() == if old(self).gate_active() > 0 {
                old(self).gate_active() - 1
            } else {
                0
            },
            final(self).tasks() == old(self).tasks(),
            final(self).buffers() == old(self).buffers(),
            final(self).handles() == old(self).handles(),
    {
        self.gate.release();
        proof {
            assert(self.tasks() == old(self).tasks());
            assert(self.buffers() == old(self).buffers());
            assert(self.handles() == old(self).handles());
        }
    }

    /// How many executions currently hold a gate slot.
    pub fn active_slots(&self) -> (n: usize)
        ensures
            n == self.gate_active(),
    {
        self.gate.active()
    }
}

} // verus!
