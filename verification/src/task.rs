//! Tasks and the scheduler's run queues: one queue per run level, the
//! current task at the front of the queue of the current level.
use vstd::prelude::*;
use std::collections::BTreeMap;
use std::collections::VecDeque;
use crate::error::Code;
use crate::message::Message;
use crate::segment::{KERNEL_CS, KERNEL_SS};
use crate::collections::HashMap;
use crate::file::FileDescriptor;

verus! {

broadcast use vstd::std_specs::btree::group_btree_axioms, vstd::laws_cmp::group_laws_cmp;

/// The highest run level.
pub const MAX_RUN_LEVEL: i32 = 3;

/// The run level a new task gets.
pub const DEFAULT_LEVEL: i32 = 1;

/// Where an application's stack starts, by default 8 MiB.
pub const DEFAULT_APP_STACK_SIZE: u64 = 0x80_0000;

/// The end of the address range where files are mapped.
pub const FILE_MAP_END: u64 = 0xffff_c000_0000_0000;

/// The registers saved when a task is switched out.
#[derive(Clone, Copy, Debug, PartialEq, Eq, Structural)]
pub struct TaskContext {
    pub cr3: u64,
    pub rip: u64,
    pub rflags: u64,
    pub reserved1: u64,
    pub cs: u64,
    pub ss: u64,
    pub fs: u64,
    pub gs: u64,
    pub rax: u64,
    pub rbx: u64,
    pub rcx: u64,
    pub rdx: u64,
    pub rdi: u64,
    pub rsi: u64,
    pub rsp: u64,
    pub rbp: u64,
    pub r8: u64,
    pub r9: u64,
    pub r10: u64,
    pub r11: u64,
    pub r12: u64,
    pub r13: u64,
    pub r14: u64,
    pub r15: u64,
}

/// The context with every register 0.
pub open spec fn zero_context() -> TaskContext {
    TaskContext {
        cr3: 0, rip: 0, rflags: 0, reserved1: 0, cs: 0, ss: 0, fs: 0, gs: 0,
        rax: 0, rbx: 0, rcx: 0, rdx: 0, rdi: 0, rsi: 0, rsp: 0, rbp: 0,
        r8: 0, r9: 0, r10: 0, r11: 0, r12: 0, r13: 0, r14: 0, r15: 0,
    }
}

impl TaskContext {
    /// Every register 0.
    pub fn new() -> (r: Self)
        ensures
            r == zero_context(),
    {
        TaskContext {
            cr3: 0, rip: 0, rflags: 0, reserved1: 0, cs: 0, ss: 0, fs: 0, gs: 0,
            rax: 0, rbx: 0, rcx: 0, rdx: 0, rdi: 0, rsi: 0, rsp: 0, rbp: 0,
            r8: 0, r9: 0, r10: 0, r11: 0, r12: 0, r13: 0, r14: 0, r15: 0,
        }
    }
}

/// A file mapped into a task's address space.
#[derive(Clone, Copy, Debug, PartialEq, Eq, Structural)]
pub struct FileMapping {
    pub fd: i32,
    pub vaddr_begin: u64,
    pub vaddr_end: u64,
}

/// A task: its saved registers, messages, run level and the address-space
/// bookkeeping of the application it runs.
pub struct Task {
    id: u64,
    context: TaskContext,
    msgs: VecDeque<Message>,
    level: i32,
    running: bool,
    os_stack_ptr: u64,
    dpaging_begin: u64,
    dpaging_end: u64,
    app_stack_size: u64,
    file_map_end: u64,
    file_maps: Vec<FileMapping>,
    files: HashMap<i32, FileDescriptor>,
}

impl Task {
    pub closed spec fn id_spec(&self) -> u64 {
        self.id
    }

    pub closed spec fn context_spec(&self) -> TaskContext {
        self.context
    }

    pub closed spec fn msgs_spec(&self) -> Seq<Message> {
        self.msgs@
    }

    pub closed spec fn level_spec(&self) -> i32 {
        self.level
    }

    pub closed spec fn running_spec(&self) -> bool {
        self.running
    }

    pub closed spec fn os_stack_ptr_spec(&self) -> u64 {
        self.os_stack_ptr
    }

    pub closed spec fn dpaging_begin_spec(&self) -> u64 {
        self.dpaging_begin
    }

    pub closed spec fn dpaging_end_spec(&self) -> u64 {
        self.dpaging_end
    }

    pub closed spec fn app_stack_size_spec(&self) -> u64 {
        self.app_stack_size
    }

    pub closed spec fn file_map_end_spec(&self) -> u64 {
        self.file_map_end
    }

    pub closed spec fn file_maps_spec(&self) -> Seq<FileMapping> {
        self.file_maps@
    }

    /// The task's open files, by descriptor number.
    pub closed spec fn files_spec(&self) -> HashMap<i32, FileDescriptor> {
        self.files
    }

    /// The task with its table of open files replaced by `files`.
    pub closed spec fn with_files(&self, files: HashMap<i32, FileDescriptor>) -> Task {
        Task { files, ..*self }
    }

    /// The task's open files.
    pub fn files(&self) -> (r: &HashMap<i32, FileDescriptor>)
        ensures
            *r == self.files_spec(),
    {
        &self.files
    }

    /// The task's open files, to change in place; the rest of the task
    /// stays as it is.
    pub fn files_mut(&mut self) -> (r: &mut HashMap<i32, FileDescriptor>)
        ensures
            *r == old(self).files_spec(),
            *final(self) == old(self).with_files(*final(r)),
    {
        &mut self.files
    }

    /// The task with `level` and `running` changed.
    pub closed spec fn with_state(&self, level: i32, running: bool) -> Task {
        Task { level, running, ..*self }
    }

    /// A sleeping task of the default level whose stack ends at
    /// `stack_end`, an end aligned to 16 bytes: its saved stack pointer is
    /// 8 bytes below that end, as a call leaves it (8 modulo 16).
    pub fn new(id: u64, stack_end: u64) -> (r: Self)
        requires
            stack_end >= 16,
            stack_end % 16 == 0,
        ensures
            r.id_spec() == id,
            r.context_spec().rsp % 16 == 8,
            r.context_spec() == (TaskContext { rsp: (stack_end - 8) as u64, ..zero_context() }),
            r.msgs_spec() == Seq::<Message>::empty(),
            r.level_spec() == DEFAULT_LEVEL,
            !r.running_spec(),
            r.os_stack_ptr_spec() == 0,
            r.dpaging_begin_spec() == 0,
            r.dpaging_end_spec() == 0,
            r.app_stack_size_spec() == DEFAULT_APP_STACK_SIZE,
            r.file_map_end_spec() == FILE_MAP_END,
            r.file_maps_spec() == Seq::<FileMapping>::empty(),
            r.files_spec().wf(),
            r.files_spec()@ == Map::<i32, FileDescriptor>::empty(),
    {
        let mut context = TaskContext::new();
        context.rsp = stack_end - 8;
        Task {
            id,
            context,
            msgs: VecDeque::new(),
            level: DEFAULT_LEVEL,
            running: false,
            os_stack_ptr: 0,
            dpaging_begin: 0,
            dpaging_end: 0,
            app_stack_size: DEFAULT_APP_STACK_SIZE,
            file_map_end: FILE_MAP_END,
            file_maps: Vec::new(),
            files: HashMap::new(),
        }
    }

    /// Prepares the task to start at `entry` with page table `cr3`: the
    /// first three arguments are the task's id, `data` and `layer_id`.
    pub fn init_context(&mut self, entry: u64, cr3: u64, data: i64, layer_id: u32)
        ensures
            final(self).context_spec() == (TaskContext {
                cr3,
                rflags: 0x202,
                cs: KERNEL_CS as u64,
                ss: KERNEL_SS as u64,
                rip: entry,
                rdi: old(self).id_spec(),
                rsi: data as u64,
                rdx: layer_id as u64,
                ..old(self).context_spec()
            }),
            final(self).id_spec() == old(self).id_spec(),
            final(self).level_spec() == old(self).level_spec(),
            final(self).running_spec() == old(self).running_spec(),
            final(self).msgs_spec() == old(self).msgs_spec(),
    {
        self.context.cr3 = cr3;
        self.context.rflags = 0x202;
        self.context.cs = KERNEL_CS as u64;
        self.context.ss = KERNEL_SS as u64;
        self.context.rip = entry;
        self.context.rdi = self.id;
        self.context.rsi = data as u64;
        self.context.rdx = layer_id as u64;
    }

    pub fn context(&self) -> (r: &TaskContext)
        ensures
            *r == self.context_spec(),
    {
        &self.context
    }

    pub fn id(&self) -> (r: u64)
        ensures
            r == self.id_spec(),
    {
        self.id
    }

    /// Queues `msg` for the task.
    pub fn send_message(&mut self, msg: Message)
        ensures
            final(self).msgs_spec() == old(self).msgs_spec().push(msg),
            final(self).context_spec() == old(self).context_spec(),
            final(self).id_spec() == old(self).id_spec(),
            final(self).level_spec() == old(self).level_spec(),
            final(self).running_spec() == old(self).running_spec(),
    {
        self.msgs.push_back(msg);
    }

    /// Takes the oldest queued message.
    pub fn receive_message(&mut self) -> (r: Option<Message>)
        ensures
            r == if old(self).msgs_spec().len() > 0 { Some(old(self).msgs_spec()[0]) } else { None },
            final(self).msgs_spec() == if old(self).msgs_spec().len() > 0 { old(self).msgs_spec().drop_first() } else { old(self).msgs_spec() },
            final(self).id_spec() == old(self).id_spec(),
            final(self).level_spec() == old(self).level_spec(),
            final(self).running_spec() == old(self).running_spec(),
    {
        self.msgs.pop_front()
    }

    pub fn os_stack_ptr(&self) -> (r: &u64)
        ensures
            *r == self.os_stack_ptr_spec(),
    {
        &self.os_stack_ptr
    }

    pub fn run_level(&self) -> (r: i32)
        ensures
            r == self.level_spec(),
    {
        self.level
    }

    pub fn dpaging_begin(&self) -> (r: u64)
        ensures
            r == self.dpaging_begin_spec(),
    {
        self.dpaging_begin
    }

    pub fn set_dpaging_begin(&mut self, value: u64)
        ensures
            final(self).dpaging_begin_spec() == value,
            final(self).id_spec() == old(self).id_spec(),
            final(self).level_spec() == old(self).level_spec(),
            final(self).running_spec() == old(self).running_spec(),
    {
        self.dpaging_begin = value;
    }

    pub fn dpaging_end(&self) -> (r: u64)
        ensures
            r == self.dpaging_end_spec(),
    {
        self.dpaging_end
    }

    pub fn set_dpaging_end(&mut self, value: u64)
        ensures
            final(self).dpaging_end_spec() == value,
            final(self).id_spec() == old(self).id_spec(),
            final(self).level_spec() == old(self).level_spec(),
            final(self).running_spec() == old(self).running_spec(),
    {
        self.dpaging_end = value;
    }

    pub fn app_stack_size(&self) -> (r: u64)
        ensures
            r == self.app_stack_size_spec(),
    {
        self.app_stack_size
    }

    pub fn set_app_stack_size(&mut self, value: u64)
        ensures
            final(self).app_stack_size_spec() == value,
            final(self).id_spec() == old(self).id_spec(),
            final(self).level_spec() == old(self).level_spec(),
            final(self).running_spec() == old(self).running_spec(),
    {
        self.app_stack_size = value;
    }

    pub fn file_map_end(&self) -> (r: u64)
        ensures
            r == self.file_map_end_spec(),
    {
        self.file_map_end
    }

    pub fn set_file_map_end(&mut self, value: u64)
        ensures
            final(self).file_map_end_spec() == value,
            final(self).id_spec() == old(self).id_spec(),
            final(self).level_spec() == old(self).level_spec(),
            final(self).running_spec() == old(self).running_spec(),
    {
        self.file_map_end = value;
    }

    /// The files mapped into the task's address space.
    pub fn file_maps(&self) -> (r: &Vec<FileMapping>)
        ensures
            r@ == self.file_maps_spec(),
    {
        &self.file_maps
    }

    /// Records one more mapped file.
    pub fn add_file_map(&mut self, m: FileMapping)
        ensures
            final(self).file_maps_spec() == old(self).file_maps_spec().push(m),
            final(self).id_spec() == old(self).id_spec(),
            final(self).level_spec() == old(self).level_spec(),
            final(self).running_spec() == old(self).running_spec(),
    {
        self.file_maps.push(m);
    }
}


/// The position of the task `id` in `tasks`, or -1 when there is none.
pub open spec fn task_index(tasks: Seq<Task>, id: u64) -> int {
    if exists|i: int| 0 <= i < tasks.len() && tasks[i].id_spec() == id {
        choose|i: int| 0 <= i < tasks.len() && tasks[i].id_spec() == id
    } else {
        -1
    }
}

/// No two tasks share an id.
pub open spec fn ids_distinct(tasks: Seq<Task>) -> bool {
    forall|i: int, j: int| 0 <= i < j < tasks.len() ==> tasks[i].id_spec() != tasks[j].id_spec()
}

/// In tasks of distinct ids, the task at `i` is found at `i`.
pub proof fn lemma_task_index(tasks: Seq<Task>, i: int)
    requires
        ids_distinct(tasks),
        0 <= i < tasks.len(),
    ensures
        task_index(tasks, tasks[i].id_spec()) == i,
{
    let id = tasks[i].id_spec();
    assert(exists|k: int| 0 <= k < tasks.len() && tasks[k].id_spec() == id);
    let k = choose|k: int| 0 <= k < tasks.len() && tasks[k].id_spec() == id;
    if k < i {
        assert(tasks[k].id_spec() != tasks[i].id_spec());
    } else if k > i {
        assert(tasks[i].id_spec() != tasks[k].id_spec());
    }
}

/// Replacing a task by one of the same id finds every id where it was.
proof fn lemma_index_update(tasks: Seq<Task>, i: int, t: Task)
    requires
        ids_distinct(tasks),
        0 <= i < tasks.len(),
        t.id_spec() == tasks[i].id_spec(),
    ensures
        ids_distinct(tasks.update(i, t)),
        forall|id: u64| #[trigger] task_index(tasks.update(i, t), id) == task_index(tasks, id),
{
    let nt = tasks.update(i, t);
    assert forall|a: int, b: int| 0 <= a < b < nt.len() implies nt[a].id_spec() != nt[b].id_spec() by {
        assert(tasks[a].id_spec() != tasks[b].id_spec());
    }
    assert forall|id: u64| #[trigger] task_index(nt, id) == task_index(tasks, id) by {
        if exists|k: int| 0 <= k < tasks.len() && tasks[k].id_spec() == id {
            let k = choose|k: int| 0 <= k < tasks.len() && tasks[k].id_spec() == id;
            lemma_task_index(tasks, k);
            assert(nt[k].id_spec() == id);
            lemma_task_index(nt, k);
        } else {
            if exists|k: int| 0 <= k < nt.len() && nt[k].id_spec() == id {
                let k = choose|k: int| 0 <= k < nt.len() && nt[k].id_spec() == id;
                assert(tasks[k].id_spec() == id);
            }
        }
    }
}

/// Removing the task at `i` keeps every other id, where it was or one
/// place earlier.
proof fn lemma_index_remove(tasks: Seq<Task>, i: int)
    requires
        ids_distinct(tasks),
        0 <= i < tasks.len(),
    ensures
        ids_distinct(tasks.remove(i)),
        task_index(tasks.remove(i), tasks[i].id_spec()) == -1,
        forall|id: u64| id != tasks[i].id_spec() ==> (#[trigger] task_index(tasks.remove(i), id) >= 0) == (task_index(tasks, id) >= 0),
        forall|id: u64| id != tasks[i].id_spec() && task_index(tasks, id) >= 0 ==>
            tasks.remove(i)[#[trigger] task_index(tasks.remove(i), id)] == tasks[task_index(tasks, id)],
{
    let nt = tasks.remove(i);
    assert forall|a: int, b: int| 0 <= a < b < nt.len() implies nt[a].id_spec() != nt[b].id_spec() by {
        let aa = if a < i { a } else { a + 1 };
        let bb = if b < i { b } else { b + 1 };
        assert(tasks[aa].id_spec() != tasks[bb].id_spec());
    }
    let id0 = tasks[i].id_spec();
    if exists|k: int| 0 <= k < nt.len() && nt[k].id_spec() == id0 {
        let k = choose|k: int| 0 <= k < nt.len() && nt[k].id_spec() == id0;
        let kk = if k < i { k } else { k + 1 };
        assert(tasks[kk].id_spec() == id0);
        if kk < i { assert(tasks[kk].id_spec() != tasks[i].id_spec()); } else { assert(tasks[i].id_spec() != tasks[kk].id_spec()); }
    }
    assert forall|id: u64| id != id0 implies (#[trigger] task_index(nt, id) >= 0) == (task_index(tasks, id) >= 0)
        && (task_index(tasks, id) >= 0 ==> nt[task_index(nt, id)] == tasks[task_index(tasks, id)]) by {
        if exists|k: int| 0 <= k < tasks.len() && tasks[k].id_spec() == id {
            let k = choose|k: int| 0 <= k < tasks.len() && tasks[k].id_spec() == id;
            lemma_task_index(tasks, k);
            assert(k != i);
            let kk = if k < i { k } else { k - 1 };
            assert(nt[kk] == tasks[k]);
            lemma_task_index(nt, kk);
        } else {
            if exists|k: int| 0 <= k < nt.len() && nt[k].id_spec() == id {
                let k = choose|k: int| 0 <= k < nt.len() && nt[k].id_spec() == id;
                let kk = if k < i { k } else { k + 1 };
                assert(tasks[kk].id_spec() == id);
            }
        }
    }
}

/// `q` without its first `id`, or `q` itself when `id` is not there.
pub open spec fn erased(q: Seq<u64>, id: u64) -> Seq<u64> {
    if exists|i: int| 0 <= i < q.len() && q[i] == id {
        q.remove(first_index(q, id))
    } else {
        q
    }
}

/// The first position of `id` in `q`.
pub open spec fn first_index(q: Seq<u64>, id: u64) -> int {
    choose|i: int| 0 <= i < q.len() && q[i] == id && forall|j: int| 0 <= j < i ==> q[j] != id
}

/// In a queue without repeats, erasing `id` keeps every other id, drops
/// `id`, and adds no repeats.
proof fn lemma_erased(q: Seq<u64>, id: u64)
    requires
        forall|a: int, b: int| 0 <= a < b < q.len() ==> q[a] != q[b],
    ensures
        forall|a: int, b: int| 0 <= a < b < erased(q, id).len() ==> erased(q, id)[a] != erased(q, id)[b],
        forall|k: int| 0 <= k < erased(q, id).len() ==> q.contains(#[trigger] erased(q, id)[k]) && erased(q, id)[k] != id,
        forall|x: u64| x != id && #[trigger] q.contains(x) ==> erased(q, id).contains(x),
        erased(q, id).len() <= q.len(),
{
    let e = erased(q, id);
    if exists|i: int| 0 <= i < q.len() && q[i] == id {
        let w = choose|i: int| 0 <= i < q.len() && q[i] == id;
        assert(exists|i: int| 0 <= i < q.len() && q[i] == id && forall|j: int| 0 <= j < i ==> q[j] != id) by {
            if exists|j: int| 0 <= j < w && q[j] == id {
                let j = choose|j: int| 0 <= j < w && q[j] == id;
                assert(q[j] != q[w]);
            }
            assert(0 <= w < q.len() && q[w] == id && forall|j: int| 0 <= j < w ==> q[j] != id);
        }
        let f = first_index(q, id);
        assert(e == q.remove(f));
        assert forall|a: int, b: int| 0 <= a < b < e.len() implies e[a] != e[b] by {
            let aa = if a < f { a } else { a + 1 };
            let bb = if b < f { b } else { b + 1 };
            assert(q[aa] != q[bb]);
        }
        assert forall|k: int| 0 <= k < e.len() implies q.contains(#[trigger] e[k]) && e[k] != id by {
            let kk = if k < f { k } else { k + 1 };
            assert(e[k] == q[kk]);
            if kk != f {
                assert(q[kk] != q[f]) by {
                    if kk < f { assert(q[kk] != q[f]); } else { assert(q[f] != q[kk]); }
                }
            }
        }
        assert forall|x: u64| x != id && #[trigger] q.contains(x) implies e.contains(x) by {
            let k = choose|k: int| 0 <= k < q.len() && q[k] == x;
            let kk = if k < f { k } else { k - 1 };
            assert(k != f);
            assert(e[kk] == x);
        }
    } else {
        assert forall|k: int| 0 <= k < e.len() implies q.contains(#[trigger] e[k]) && e[k] != id by {
            assert(q[k] == e[k]);
        }
    }
}

/// Removes the first `id` from `que`; nothing happens when there is none.
pub fn erase(que: &mut VecDeque<u64>, id: u64)
    ensures
        final(que)@ == erased(old(que)@, id),
{
    let mut i: usize = 0;
    while i < que.len()
        invariant
            que@ == old(que)@,
            i <= que@.len(),
            forall|j: int| 0 <= j < i ==> que@[j] != id,
        decreases que@.len() - i,
    {
        if que[i] == id {
            proof {
                let f = first_index(que@, id);
                assert(0 <= i < que@.len() && que@[i as int] == id && forall|j: int| 0 <= j < i ==> que@[j] != id);
                assert(0 <= f < que@.len() && que@[f] == id && forall|j: int| 0 <= j < f ==> que@[j] != id);
                if f < i {
                    assert(que@[f] != id);
                } else if f > i {
                    assert(que@[i as int] != id);
                }
            }
            que.remove(i);
            return;
        }
        i = i + 1;
    }
}

/// The highest level whose queue is not empty, or `default` when all are.
pub open spec fn top_level(q: Seq<Seq<u64>>, default: i32) -> i32 {
    if q[3].len() > 0 {
        3
    } else if q[2].len() > 0 {
        2
    } else if q[1].len() > 0 {
        1
    } else if q[0].len() > 0 {
        0
    } else {
        default
    }
}

/// The run queues of the four levels.
pub open spec fn queues_of(running: Seq<VecDeque<u64>>) -> Seq<Seq<u64>> {
    Seq::new(4, |lv: int| running[lv]@)
}

/// The tasks, their run queues, and the tasks that finished or wait for
/// another to finish.
pub struct TaskManager {
    tasks: Vec<Task>,
    latest_id: u64,
    running: Vec<VecDeque<u64>>,
    current_level: i32,
    level_changed: bool,
    finish_waiter: BTreeMap<u64, u64>,
    finish_tasks: BTreeMap<u64, i32>,
}

impl TaskManager {
    pub closed spec fn tasks_spec(&self) -> Seq<Task> {
        self.tasks@
    }

    /// The run queue of each level, its front first.
    pub closed spec fn queues(&self) -> Seq<Seq<u64>> {
        queues_of(self.running@)
    }

    pub closed spec fn latest_spec(&self) -> u64 {
        self.latest_id
    }

    pub closed spec fn current_level_spec(&self) -> i32 {
        self.current_level
    }

    pub closed spec fn level_changed_spec(&self) -> bool {
        self.level_changed
    }

    /// Which task waits for which one to finish.
    pub closed spec fn waiters(&self) -> Map<u64, u64> {
        self.finish_waiter@
    }

    /// The exit codes of finished tasks not yet collected.
    pub closed spec fn finished(&self) -> Map<u64, i32> {
        self.finish_tasks@
    }

    /// The task with id `id` (meaningful when there is one).
    pub open spec fn task(&self, id: u64) -> Task {
        self.tasks_spec()[task_index(self.tasks_spec(), id)]
    }

    /// Whether there is a task with id `id`.
    pub open spec fn has_task(&self, id: u64) -> bool {
        task_index(self.tasks_spec(), id) >= 0
    }

    /// The queue of the current level.
    pub open spec fn current_queue(&self) -> Seq<u64> {
        self.queues()[self.current_level_spec() as int]
    }

    /// The scheduler's invariant: four queues and a current level among
    /// them; tasks of distinct ids up to the latest, each of a level from 0
    /// to `MAX_RUN_LEVEL`; a task is in a queue exactly when it runs, then
    /// once, in the queue of its level.
    pub closed spec fn wf(&self) -> bool {
        &&& self.running@.len() == 4
        &&& 0 <= self.current_level <= MAX_RUN_LEVEL
        &&& ids_distinct(self.tasks@)
        &&& forall|i: int| 0 <= i < self.tasks@.len() ==> 0 < #[trigger] self.tasks@[i].id_spec() <= self.latest_id
            && 0 <= self.tasks@[i].level_spec() <= MAX_RUN_LEVEL
        &&& forall|lv: int, k: int| 0 <= lv < 4 && 0 <= k < self.running@[lv]@.len() ==> {
            let id = #[trigger] self.running@[lv]@[k];
            &&& task_index(self.tasks@, id) >= 0
            &&& self.tasks@[task_index(self.tasks@, id)].level_spec() == lv
            &&& self.tasks@[task_index(self.tasks@, id)].running_spec()
        }
        &&& forall|lv: int, k1: int, k2: int| 0 <= lv < 4 && 0 <= k1 < k2 < self.running@[lv]@.len()
            ==> #[trigger] self.running@[lv]@[k1] != #[trigger] self.running@[lv]@[k2]
        &&& forall|i: int| 0 <= i < self.tasks@.len() && #[trigger] self.tasks@[i].running_spec()
            ==> self.running@[self.tasks@[i].level_spec() as int]@.contains(self.tasks@[i].id_spec())
    }

    /// No tasks, empty queues, at the highest level.
    pub fn new() -> (r: Self)
        ensures
            r.wf(),
            r.tasks_spec() == Seq::<Task>::empty(),
            r.latest_spec() == 0,
            r.current_level_spec() == MAX_RUN_LEVEL,
            !r.level_changed_spec(),
            forall|lv: int| 0 <= lv < 4 ==> #[trigger] r.queues()[lv] == Seq::<u64>::empty(),
            r.waiters() == Map::<u64, u64>::empty(),
            r.finished() == Map::<u64, i32>::empty(),
    {
        let mut running: Vec<VecDeque<u64>> = Vec::new();
        running.push(VecDeque::new());
        running.push(VecDeque::new());
        running.push(VecDeque::new());
        running.push(VecDeque::new());
        TaskManager {
            tasks: Vec::new(),
            latest_id: 0,
            running,
            current_level: MAX_RUN_LEVEL,
            level_changed: false,
            finish_waiter: BTreeMap::new(),
            finish_tasks: BTreeMap::new(),
        }
    }

    /// Adds a sleeping task under the next id, its stack ending at
    /// `stack_end`, and returns that id.
    pub fn new_task(&mut self, stack_end: u64) -> (r: u64)
        requires
            old(self).wf(),
            old(self).latest_spec() < u64::MAX,
            stack_end >= 16,
            stack_end % 16 == 0,
        ensures
            final(self).wf(),
            r == old(self).latest_spec() + 1,
            final(self).latest_spec() == r,
            final(self).tasks_spec().len() == old(self).tasks_spec().len() + 1,
            final(self).tasks_spec().drop_last() == old(self).tasks_spec(),
            final(self).tasks_spec().last().id_spec() == r,
            final(self).tasks_spec().last().context_spec() == (TaskContext { rsp: (stack_end - 8) as u64, ..zero_context() }),
            final(self).tasks_spec().last().level_spec() == DEFAULT_LEVEL,
            !final(self).tasks_spec().last().running_spec(),
            final(self).tasks_spec().last().msgs_spec() == Seq::<Message>::empty(),
            final(self).queues() == old(self).queues(),
            final(self).current_level_spec() == old(self).current_level_spec(),
            final(self).level_changed_spec() == old(self).level_changed_spec(),
            final(self).waiters() == old(self).waiters(),
            final(self).finished() == old(self).finished(),
    {
        self.latest_id = self.latest_id + 1;
        let t = Task::new(self.latest_id, stack_end);
        let ghost old_tasks = self.tasks@;
        self.tasks.push(t);
        proof {
            assert(self.tasks@.drop_last() =~= old_tasks);
            assert forall|lv: int, k: int| 0 <= lv < 4 && 0 <= k < self.running@[lv]@.len() implies {
                let id = #[trigger] self.running@[lv]@[k];
                &&& task_index(self.tasks@, id) >= 0
                &&& self.tasks@[task_index(self.tasks@, id)].level_spec() == lv
                &&& self.tasks@[task_index(self.tasks@, id)].running_spec()
            } by {
                let id = self.running@[lv]@[k];
                let i = task_index(old_tasks, id);
                assert(old_tasks[i] == self.tasks@[i]);
                lemma_task_index(self.tasks@, i);
            }
            assert forall|i: int| 0 <= i < self.tasks@.len() && #[trigger] self.tasks@[i].running_spec()
                implies self.running@[self.tasks@[i].level_spec() as int]@.contains(self.tasks@[i].id_spec()) by {
                assert(old_tasks[i] == self.tasks@[i]);
            }
        }
        self.latest_id
    }

    /// The position of task `id`, if there is one.
    fn find_task_by_id(&self, id: u64) -> (r: Option<usize>)
        requires
            self.wf(),
        ensures
            r is Some <==> self.has_task(id),
            r matches Some(i) ==> i == task_index(self.tasks_spec(), id) && i < self.tasks_spec().len(),
    {
        let mut i: usize = 0;
        while i < self.tasks.len()
            invariant
                self.wf(),
                i <= self.tasks@.len(),
                forall|j: int| 0 <= j < i ==> self.tasks@[j].id_spec() != id,
            decreases self.tasks@.len() - i,
        {
            if self.tasks[i].id == id {
                proof { lemma_task_index(self.tasks@, i as int); }
                return Some(i);
            }
            i = i + 1;
        }
        None
    }

    /// The task that runs: the front of the current queue.
    pub fn current_task(&self) -> (r: u64)
        requires
            self.wf(),
            self.current_queue().len() > 0,
        ensures
            r == self.current_queue()[0],
    {
        let q = &self.running[self.current_level as usize];
        q[0]
    }

    /// The task that runs, if any does.
    pub fn current_task_checked(&self) -> (r: Option<u64>)
        requires
            self.wf(),
        ensures
            r == if self.current_queue().len() > 0 { Some(self.current_queue()[0]) } else { None },
    {
        let q = &self.running[self.current_level as usize];
        if q.len() > 0 {
            Some(q[0])
        } else {
            None
        }
    }

    /// The queues after the current task leaves the front of the current
    /// queue, going to its back unless it sleeps.
    pub open spec fn rotated_queues(qs: Seq<Seq<u64>>, cl: i32, sleep: bool) -> Seq<Seq<u64>> {
        let q = qs[cl as int];
        qs.update(cl as int, if sleep { q.drop_first() } else { q.drop_first().push(q[0]) })
    }

    /// The current level after such a rotation: the highest level with a
    /// task when the levels were marked for review or the current queue ran
    /// empty, else unchanged.
    pub open spec fn rotated_level(qs: Seq<Seq<u64>>, cl: i32, changed: bool, sleep: bool) -> i32 {
        let nq = Self::rotated_queues(qs, cl, sleep);
        if changed || nq[cl as int].len() == 0 {
            top_level(nq, cl)
        } else {
            cl
        }
    }

    /// Takes the queue of level `lv` out, leaving an empty one.
    fn take_queue(&mut self, lv: usize) -> (r: VecDeque<u64>)
        requires
            lv < old(self).running@.len(),
        ensures
            r@ == old(self).running@[lv as int]@,
            final(self).running@.len() == old(self).running@.len(),
            forall|k: int| 0 <= k < old(self).running@.len() && k != lv ==> #[trigger] final(self).running@[k] == old(self).running@[k],
            final(self).running@[lv as int]@ == Seq::<u64>::empty(),
            final(self).tasks == old(self).tasks,
            final(self).latest_id == old(self).latest_id,
            final(self).current_level == old(self).current_level,
            final(self).level_changed == old(self).level_changed,
            final(self).finish_waiter == old(self).finish_waiter,
            final(self).finish_tasks == old(self).finish_tasks,
    {
        let mut q: VecDeque<u64> = VecDeque::new();
        self.running.set_and_swap(lv, &mut q);
        q
    }

    /// Puts `q` back as the queue of level `lv`.
    fn put_queue(&mut self, lv: usize, q: VecDeque<u64>)
        requires
            lv < old(self).running@.len(),
        ensures
            final(self).running@ == old(self).running@.update(lv as int, q),
            final(self).tasks == old(self).tasks,
            final(self).latest_id == old(self).latest_id,
            final(self).current_level == old(self).current_level,
            final(self).level_changed == old(self).level_changed,
            final(self).finish_waiter == old(self).finish_waiter,
            final(self).finish_tasks == old(self).finish_tasks,
    {
        let mut q = q;
        self.running.set_and_swap(lv, &mut q);
    }

    /// Replaces the task at `i` by `t`.
    fn put_task(&mut self, i: usize, t: Task)
        requires
            i < old(self).tasks@.len(),
        ensures
            final(self).tasks@ == old(self).tasks@.update(i as int, t),
            final(self).running == old(self).running,
            final(self).latest_id == old(self).latest_id,
            final(self).current_level == old(self).current_level,
            final(self).level_changed == old(self).level_changed,
            final(self).finish_waiter == old(self).finish_waiter,
            final(self).finish_tasks == old(self).finish_tasks,
    {
        let mut t = t;
        self.tasks.set_and_swap(i, &mut t);
    }

    /// Sets the level and running flag of the task at `i`.
    fn set_task_state(&mut self, i: usize, level: i32, running: bool)
        requires
            i < old(self).tasks@.len(),
        ensures
            final(self).tasks@ == old(self).tasks@.update(i as int, old(self).tasks@[i as int].with_state(level, running)),
            final(self).running == old(self).running,
            final(self).latest_id == old(self).latest_id,
            final(self).current_level == old(self).current_level,
            final(self).level_changed == old(self).level_changed,
            final(self).finish_waiter == old(self).finish_waiter,
            final(self).finish_tasks == old(self).finish_tasks,
    {
        let mut t = Task::new(0, 16);
        self.tasks.set_and_swap(i, &mut t);
        t.level = level;
        t.running = running;
        self.tasks.set_and_swap(i, &mut t);
    }

    /// Moves the current task off the front of the current queue (to its
    /// back unless `current_sleep`), then reviews the current level when it
    /// was marked for review or the queue ran empty. Returns the task that
    /// was current.
    fn rotate_current_run_queue(&mut self, current_sleep: bool) -> (r: u64)
        requires
            old(self).running@.len() == 4,
            0 <= old(self).current_level <= MAX_RUN_LEVEL,
            old(self).current_queue().len() > 0,
        ensures
            r == old(self).current_queue()[0],
            final(self).running@.len() == 4,
            final(self).queues() == Self::rotated_queues(old(self).queues(), old(self).current_level, current_sleep),
            final(self).current_level == Self::rotated_level(old(self).queues(), old(self).current_level, old(self).level_changed, current_sleep),
            !final(self).level_changed,
            final(self).tasks == old(self).tasks,
            final(self).latest_id == old(self).latest_id,
            final(self).finish_waiter == old(self).finish_waiter,
            final(self).finish_tasks == old(self).finish_tasks,
    {
        let cl = self.current_level as usize;
        let mut q = self.take_queue(cl);
        let cur = match q.pop_front() {
            Some(c) => c,
            None => vstd::pervasive::unreached(),
        };
        if !current_sleep {
            q.push_back(cur);
        }
        let empty = q.len() == 0;
        self.put_queue(cl, q);
        proof {
            assert(self.queues() =~= Self::rotated_queues(old(self).queues(), old(self).current_level, current_sleep));
        }
        if empty {
            self.level_changed = true;
        }
        if self.level_changed {
            self.level_changed = false;
            if self.running[3].len() > 0 {
                self.current_level = 3;
            } else if self.running[2].len() > 0 {
                self.current_level = 2;
            } else if self.running[1].len() > 0 {
                self.current_level = 1;
            } else if self.running[0].len() > 0 {
                self.current_level = 0;
            }
        }
        cur
    }

    /// After the current task at `i` stops running and the queues rotate
    /// without it, the invariant holds again.
    proof fn lemma_after_sleep_rotate(&self, old_m: Self, i: int)
        requires
            old_m.wf(),
            0 <= i < old_m.tasks@.len(),
            old_m.current_queue().len() > 0,
            old_m.tasks@[i].id_spec() == old_m.current_queue()[0],
            self.tasks@ == old_m.tasks@.update(i, old_m.tasks@[i].with_state(old_m.tasks@[i].level_spec(), false)),
            self.running@.len() == 4,
            self.queues() == Self::rotated_queues(old_m.queues(), old_m.current_level, true),
            self.current_level == Self::rotated_level(old_m.queues(), old_m.current_level, old_m.level_changed, true),
            self.latest_id == old_m.latest_id,
        ensures
            self.wf(),
    {
        let t = old_m.tasks@[i];
        let cur = t.id_spec();
        let cl = old_m.current_level as int;
        lemma_index_update(old_m.tasks@, i, t.with_state(t.level_spec(), false));
        lemma_task_index(old_m.tasks@, i);
        assert(old_m.running@[cl]@[0] == cur);
        assert(t.level_spec() == cl);
        assert forall|lv: int| 0 <= lv < 4 implies #[trigger] self.running@[lv]@ == (if lv == cl { old_m.running@[cl]@.drop_first() } else { old_m.running@[lv]@ }) by {
            assert(self.queues()[lv] == self.running@[lv]@);
            assert(old_m.queues()[lv] == old_m.running@[lv]@);
        }
        assert forall|lv: int, k: int| 0 <= lv < 4 && 0 <= k < self.running@[lv]@.len() implies {
            let id = #[trigger] self.running@[lv]@[k];
            &&& task_index(self.tasks@, id) >= 0
            &&& self.tasks@[task_index(self.tasks@, id)].level_spec() == lv
            &&& self.tasks@[task_index(self.tasks@, id)].running_spec()
        } by {
            let id = self.running@[lv]@[k];
            let ok = if lv == cl { k + 1 } else { k };
            assert(old_m.running@[lv]@[ok] == id);
            let j = task_index(old_m.tasks@, id);
            if j == i {
                if lv == cl {
                    assert(old_m.running@[cl]@[0] != old_m.running@[cl]@[ok]);
                }
            }
        }
        assert forall|lv: int, k1: int, k2: int| 0 <= lv < 4 && 0 <= k1 < k2 < self.running@[lv]@.len()
            implies #[trigger] self.running@[lv]@[k1] != #[trigger] self.running@[lv]@[k2] by {
            if lv == cl {
                assert(old_m.running@[lv]@[k1 + 1] != old_m.running@[lv]@[k2 + 1]);
            } else {
                assert(old_m.running@[lv]@[k1] != old_m.running@[lv]@[k2]);
            }
        }
        assert forall|j: int| 0 <= j < self.tasks@.len() && #[trigger] self.tasks@[j].running_spec()
            implies self.running@[self.tasks@[j].level_spec() as int]@.contains(self.tasks@[j].id_spec()) by {
            assert(j != i);
            let tj = old_m.tasks@[j];
            assert(old_m.tasks@[j].running_spec());
            let lv = tj.level_spec() as int;
            assert(old_m.running@[lv]@.contains(tj.id_spec()));
            if lv == cl {
                let k = choose|k: int| 0 <= k < old_m.running@[lv]@.len() && old_m.running@[lv]@[k] == tj.id_spec();
                assert(tj.id_spec() != cur) by {
                    assert(old_m.tasks@[i].id_spec() != old_m.tasks@[j].id_spec()) by {
                        if i < j { } else { }
                    }
                }
                assert(k != 0);
                assert(self.running@[lv]@[k - 1] == tj.id_spec());
            }
        }
    }

    /// After task `i`, not the current one, stops running and leaves the
    /// queue of its level, the invariant holds again.
    proof fn lemma_after_erase(&self, old_m: Self, i: int)
        requires
            old_m.wf(),
            0 <= i < old_m.tasks@.len(),
            self.tasks@ == old_m.tasks@.update(i, old_m.tasks@[i].with_state(old_m.tasks@[i].level_spec(), false)),
            self.running@.len() == 4,
            self.queues() == old_m.queues().update(old_m.tasks@[i].level_spec() as int,
                erased(old_m.queues()[old_m.tasks@[i].level_spec() as int], old_m.tasks@[i].id_spec())),
            self.current_level == old_m.current_level,
            self.latest_id == old_m.latest_id,
        ensures
            self.wf(),
    {
        let t = old_m.tasks@[i];
        let id0 = t.id_spec();
        let l0 = t.level_spec() as int;
        lemma_index_update(old_m.tasks@, i, t.with_state(t.level_spec(), false));
        lemma_task_index(old_m.tasks@, i);
        assert forall|lv: int| 0 <= lv < 4 implies #[trigger] self.running@[lv]@ == (if lv == l0 { erased(old_m.running@[l0]@, id0) } else { old_m.running@[lv]@ }) by {
            assert(self.queues()[lv] == self.running@[lv]@);
            assert(old_m.queues()[lv] == old_m.running@[lv]@);
        }
        let oq = old_m.running@[l0]@;
        assert forall|a: int, b: int| 0 <= a < b < oq.len() implies oq[a] != oq[b] by {
            assert(old_m.running@[l0]@[a] != old_m.running@[l0]@[b]);
        }
        lemma_erased(oq, id0);
        assert forall|lv: int, k: int| 0 <= lv < 4 && 0 <= k < self.running@[lv]@.len() implies {
            let id = #[trigger] self.running@[lv]@[k];
            &&& task_index(self.tasks@, id) >= 0
            &&& self.tasks@[task_index(self.tasks@, id)].level_spec() == lv
            &&& self.tasks@[task_index(self.tasks@, id)].running_spec()
        } by {
            let id = self.running@[lv]@[k];
            if lv == l0 {
                assert(oq.contains(erased(oq, id0)[k]));
                let ok = choose|ok: int| 0 <= ok < oq.len() && oq[ok] == id;
                assert(old_m.running@[l0]@[ok] == id);
                assert(id != id0);
            } else {
                assert(old_m.running@[lv]@[k] == id);
                let j = task_index(old_m.tasks@, id);
                if j == i {
                    assert(old_m.tasks@[j].level_spec() == lv);
                }
            }
        }
        assert forall|lv: int, k1: int, k2: int| 0 <= lv < 4 && 0 <= k1 < k2 < self.running@[lv]@.len()
            implies #[trigger] self.running@[lv]@[k1] != #[trigger] self.running@[lv]@[k2] by {
            if lv != l0 {
                assert(old_m.running@[lv]@[k1] != old_m.running@[lv]@[k2]);
            }
        }
        assert forall|j: int| 0 <= j < self.tasks@.len() && #[trigger] self.tasks@[j].running_spec()
            implies self.running@[self.tasks@[j].level_spec() as int]@.contains(self.tasks@[j].id_spec()) by {
            assert(j != i);
            let tj = old_m.tasks@[j];
            assert(old_m.tasks@[j].running_spec());
            assert(old_m.running@[tj.level_spec() as int]@.contains(tj.id_spec()));
            if tj.level_spec() as int == l0 {
                assert(tj.id_spec() != id0) by {
                    if i < j { } else { }
                }
            }
        }
    }

    /// The invariant holds again after task `i` gets level `lv` and running
    /// flag `run`, and the queues change only by dropping its id and, when
    /// it runs, holding it at level `lv`, without repeats.
    proof fn lemma_wf_by_membership(&self, old_m: Self, i: int, lv: int, run: bool, nt: Task)
        requires
            old_m.wf(),
            0 <= i < old_m.tasks@.len(),
            0 <= lv <= MAX_RUN_LEVEL,
            nt.id_spec() == old_m.tasks@[i].id_spec(),
            nt.level_spec() == lv,
            nt.running_spec() == run,
            self.tasks@ == old_m.tasks@.update(i, nt),
            self.running@.len() == 4,
            0 <= self.current_level <= MAX_RUN_LEVEL,
            self.latest_id == old_m.latest_id,
            forall|l: int, x: u64| 0 <= l < 4 ==> (#[trigger] self.running@[l]@.contains(x) <==>
                ((x != old_m.tasks@[i].id_spec() && old_m.running@[l]@.contains(x)) || (run && x == old_m.tasks@[i].id_spec() && l == lv))),
            forall|l: int, k1: int, k2: int| 0 <= l < 4 && 0 <= k1 < k2 < self.running@[l]@.len()
                ==> #[trigger] self.running@[l]@[k1] != #[trigger] self.running@[l]@[k2],
        ensures
            self.wf(),
    {
        let t = old_m.tasks@[i];
        let id0 = t.id_spec();
        lemma_index_update(old_m.tasks@, i, nt);
        lemma_task_index(old_m.tasks@, i);
        assert forall|l: int, k: int| 0 <= l < 4 && 0 <= k < self.running@[l]@.len() implies {
            let id = #[trigger] self.running@[l]@[k];
            &&& task_index(self.tasks@, id) >= 0
            &&& self.tasks@[task_index(self.tasks@, id)].level_spec() == l
            &&& self.tasks@[task_index(self.tasks@, id)].running_spec()
        } by {
            let id = self.running@[l]@[k];
            assert(self.running@[l]@.contains(id));
            if id != id0 {
                assert(old_m.running@[l]@.contains(id));
                let ok = choose|ok: int| 0 <= ok < old_m.running@[l]@.len() && old_m.running@[l]@[ok] == id;
                assert(old_m.running@[l]@[ok] == id);
                let j = task_index(old_m.tasks@, id);
                assert(j != i);
            }
        }
        assert forall|j: int| 0 <= j < self.tasks@.len() && #[trigger] self.tasks@[j].running_spec()
            implies self.running@[self.tasks@[j].level_spec() as int]@.contains(self.tasks@[j].id_spec()) by {
            if j == i {
                assert(self.running@[lv]@.contains(id0));
            } else {
                let tj = old_m.tasks@[j];
                assert(old_m.tasks@[j].running_spec());
                assert(old_m.running@[tj.level_spec() as int]@.contains(tj.id_spec()));
                assert(tj.id_spec() != id0) by {
                    if i < j { } else { }
                }
                assert(self.running@[tj.level_spec() as int]@.contains(tj.id_spec()));
            }
        }
    }

    /// `new` is `self` after `change_level_running(id, level)`.
    pub open spec fn changed_level(self, new: Self, id: u64, level: i32) -> bool {
        let i = task_index(self.tasks_spec(), id);
        let t = self.task(id);
        let l0 = t.level_spec() as int;
        let cl = self.current_level_spec();
        let qs = self.queues();
        if level < 0 || level == t.level_spec() {
            new == self
        } else if id != self.current_queue()[0] {
            &&& new.tasks_spec() == self.tasks_spec().update(i, t.with_state(level, true))
            &&& new.queues() == qs.update(l0, erased(qs[l0], id)).update(level as int, qs.update(l0, erased(qs[l0], id))[level as int].push(id))
            &&& new.current_level_spec() == cl
            &&& new.level_changed_spec() == (self.level_changed_spec() || level > cl)
            &&& new.latest_spec() == self.latest_spec()
            &&& new.waiters() == self.waiters()
            &&& new.finished() == self.finished()
        } else {
            &&& new.tasks_spec() == self.tasks_spec().update(i, t.with_state(level, true))
            &&& new.queues() == qs.update(cl as int, qs[cl as int].drop_first()).update(level as int, seq![id] + qs.update(cl as int, qs[cl as int].drop_first())[level as int])
            &&& new.current_level_spec() == level
            &&& new.level_changed_spec() == (self.level_changed_spec() || level < cl)
            &&& new.latest_spec() == self.latest_spec()
            &&& new.waiters() == self.waiters()
            &&& new.finished() == self.finished()
        }
    }

    /// Changes the level of running task `id` to `level` (nothing happens
    /// for a negative level or its own). A task other than the current one
    /// moves to the back of the new level's queue, marking the levels for
    /// review when the new level is above the current one. The current task
    /// moves to the front of the new level's queue, which becomes the
    /// current level, marked for review when it went down.
    pub fn change_level_running(&mut self, id: u64, level: i32)
        requires
            old(self).wf(),
            old(self).has_task(id),
            old(self).task(id).running_spec(),
            level <= MAX_RUN_LEVEL,
            level >= 0 && level != old(self).task(id).level_spec() ==> old(self).current_queue().len() > 0,
        ensures
            final(self).wf(),
            old(self).changed_level(*final(self), id, level),
    {
        let i = match self.find_task_by_id(id) {
            Some(i) => i,
            None => vstd::pervasive::unreached(),
        };
        let task_level = self.tasks[i].level;
        if level < 0 || level == task_level {
            return;
        }
        proof {
            lemma_task_index(self.tasks@, i as int);
            assert(self.running@[task_level as int]@.contains(id));
            let k = choose|k: int| 0 <= k < self.running@[task_level as int]@.len() && self.running@[task_level as int]@[k] == id;
            assert(self.running@[task_level as int]@[k] == id);
        }
        let ghost old_m = *self;
        let ghost qs = self.queues();
        let cl = self.current_level;
        let front_is_task = {
            let q = &self.running[cl as usize];
            q.len() > 0 && q[0] == id
        };
        if !front_is_task {
            let mut q0 = self.take_queue(task_level as usize);
            erase(&mut q0, id);
            self.put_queue(task_level as usize, q0);
            let mut q1 = self.take_queue(level as usize);
            q1.push_back(id);
            self.put_queue(level as usize, q1);
            self.set_task_state(i, level, true);
            if level > self.current_level {
                self.level_changed = true;
            }
            proof {
                let oq = old_m.running@[task_level as int]@;
                assert forall|a: int, b: int| 0 <= a < b < oq.len() implies oq[a] != oq[b] by {
                    assert(old_m.running@[task_level as int]@[a] != old_m.running@[task_level as int]@[b]);
                }
                lemma_erased(oq, id);
                let e = erased(oq, id);
                assert forall|l: int| 0 <= l < 4 implies #[trigger] self.running@[l]@ == (
                    if l == level { (if l == task_level { e } else { old_m.running@[l]@ }).push(id) }
                    else if l == task_level { e } else { old_m.running@[l]@ }) by {
                }
                assert(self.queues() =~= qs.update(task_level as int, erased(qs[task_level as int], id)).update(level as int,
                    qs.update(task_level as int, erased(qs[task_level as int], id))[level as int].push(id)));
                assert forall|l: int, x: u64| 0 <= l < 4 implies (#[trigger] self.running@[l]@.contains(x) <==>
                    ((x != id && old_m.running@[l]@.contains(x)) || (x == id && l == level))) by {
                    if l == level {
                        let base = if l == task_level { e } else { old_m.running@[l]@ };
                        if self.running@[l]@.contains(x) && x != id {
                            let k = choose|k: int| 0 <= k < self.running@[l]@.len() && self.running@[l]@[k] == x;
                            assert(base[k] == x);
                            assert(base.contains(x));
                        }
                        if x != id && old_m.running@[l]@.contains(x) {
                            assert(base.contains(x));
                            let k = choose|k: int| 0 <= k < base.len() && base[k] == x;
                            assert(self.running@[l]@[k] == x);
                        }
                        if x == id {
                            assert(self.running@[l]@[base.len() as int] == id);
                        }
                    } else if l == task_level {
                        if e.contains(x) {
                            let k = choose|k: int| 0 <= k < e.len() && e[k] == x;
                            assert(oq.contains(e[k]));
                        }
                    } else {
                        if old_m.running@[l]@.contains(id) {
                            let k = choose|k: int| 0 <= k < old_m.running@[l]@.len() && old_m.running@[l]@[k] == id;
                            assert(old_m.running@[l]@[k] == id);
                        }
                    }
                }
                assert forall|l: int, k1: int, k2: int| 0 <= l < 4 && 0 <= k1 < k2 < self.running@[l]@.len()
                    implies #[trigger] self.running@[l]@[k1] != #[trigger] self.running@[l]@[k2] by {
                    let base = if l == task_level { e } else { old_m.running@[l]@ };
                    if l == level {
                        if k2 == base.len() {
                            if l == task_level {
                                assert(e[k1] != id);
                            } else {
                                if old_m.running@[l]@[k1] == id {
                                    assert(old_m.running@[l]@.contains(id));
                                }
                            }
                        } else if l != task_level {
                            assert(old_m.running@[l]@[k1] != old_m.running@[l]@[k2]);
                        }
                    } else if l != task_level {
                        assert(old_m.running@[l]@[k1] != old_m.running@[l]@[k2]);
                    }
                }
                self.lemma_wf_by_membership(old_m, i as int, level as int, true, old_m.tasks@[i as int].with_state(level, true));
            }
            return;
        }
        let mut q0 = self.take_queue(cl as usize);
        let _ = q0.pop_front();
        self.put_queue(cl as usize, q0);
        let mut q1 = self.take_queue(level as usize);
        q1.push_front(id);
        self.put_queue(level as usize, q1);
        self.set_task_state(i, level, true);
        if level >= self.current_level {
            self.current_level = level;
        } else {
            self.current_level = level;
            self.level_changed = true;
        }
        proof {
            lemma_task_index(old_m.tasks@, i as int);
            assert(task_level == cl);
            let oq = old_m.running@[cl as int]@;
            let d = oq.drop_first();
            assert forall|l: int| 0 <= l < 4 implies #[trigger] self.running@[l]@ == (
                if l == level { seq![id] + (if l == cl { d } else { old_m.running@[l]@ }) }
                else if l == cl { d } else { old_m.running@[l]@ }) by {
            }
            assert(self.queues() =~= qs.update(cl as int, qs[cl as int].drop_first()).update(level as int,
                seq![id] + qs.update(cl as int, qs[cl as int].drop_first())[level as int]));
            assert forall|l: int, x: u64| 0 <= l < 4 implies (#[trigger] self.running@[l]@.contains(x) <==>
                ((x != id && old_m.running@[l]@.contains(x)) || (x == id && l == level))) by {
                if l == cl {
                    if d.contains(x) {
                        let k = choose|k: int| 0 <= k < d.len() && d[k] == x;
                        assert(oq[k + 1] == x);
                        assert(oq[0] != oq[k + 1]);
                    }
                    if x != id && oq.contains(x) {
                        let k = choose|k: int| 0 <= k < oq.len() && oq[k] == x;
                        assert(k != 0);
                        assert(d[k - 1] == x);
                    }
                }
                if l == level {
                    let base = if l == cl { d } else { old_m.running@[l]@ };
                    assert(self.running@[l]@[0] == id);
                    if self.running@[l]@.contains(x) && x != id {
                        let k = choose|k: int| 0 <= k < self.running@[l]@.len() && self.running@[l]@[k] == x;
                        assert(base[k - 1] == x);
                    }
                    if x != id && base.contains(x) {
                        let k = choose|k: int| 0 <= k < base.len() && base[k] == x;
                        assert(self.running@[l]@[k + 1] == x);
                    }
                }
                if l != cl && l != level {
                    if old_m.running@[l]@.contains(id) {
                        let k = choose|k: int| 0 <= k < old_m.running@[l]@.len() && old_m.running@[l]@[k] == id;
                        assert(old_m.running@[l]@[k] == id);
                    }
                }
            }
            assert forall|l: int, k1: int, k2: int| 0 <= l < 4 && 0 <= k1 < k2 < self.running@[l]@.len()
                implies #[trigger] self.running@[l]@[k1] != #[trigger] self.running@[l]@[k2] by {
                if l == level {
                    if k1 == 0 {
                        if old_m.running@[l]@[k2 - 1] == id {
                            assert(old_m.running@[l]@.contains(id));
                        }
                    } else {
                        assert(old_m.running@[l]@[k1 - 1] != old_m.running@[l]@[k2 - 1]);
                    }
                } else if l == cl {
                    assert(oq[k1 + 1] != oq[k2 + 1]);
                } else {
                    assert(old_m.running@[l]@[k1] != old_m.running@[l]@[k2]);
                }
            }
            self.lemma_wf_by_membership(old_m, i as int, level as int, true, old_m.tasks@[i as int].with_state(level, true));
        }
    }

    /// Task `id` stops running: when it is the current task the queues
    /// rotate without it and `Ok(Some(id))` tells the caller to switch away
    /// from it; otherwise it leaves its queue and the result is `Ok(None)`.
    /// Fails with `NoSuchTask` when there is no such task.
    pub fn sleep(&mut self, id: u64) -> (r: Result<Option<u64>, Code>)
        requires
            old(self).wf(),
            old(self).has_task(id) ==> old(self).current_queue().len() > 0,
        ensures
            final(self).wf(),
            r is Err <==> !old(self).has_task(id),
            r matches Err(c) ==> c == Code::NoSuchTask && *final(self) == *old(self),
            r is Ok ==> {
                let i = task_index(old(self).tasks_spec(), id);
                let t = old(self).task(id);
                &&& final(self).tasks_spec() == old(self).tasks_spec().update(i, t.with_state(t.level_spec(), false))
                &&& final(self).latest_spec() == old(self).latest_spec()
                &&& final(self).waiters() == old(self).waiters()
                &&& final(self).finished() == old(self).finished()
                &&& if id == old(self).current_queue()[0] {
                    &&& r == Ok::<Option<u64>, Code>(Some(id))
                    &&& final(self).queues() == Self::rotated_queues(old(self).queues(), old(self).current_level_spec(), true)
                    &&& final(self).current_level_spec() == Self::rotated_level(old(self).queues(), old(self).current_level_spec(), old(self).level_changed_spec(), true)
                    &&& !final(self).level_changed_spec()
                } else {
                    &&& r == Ok::<Option<u64>, Code>(None)
                    &&& final(self).queues() == old(self).queues().update(t.level_spec() as int, erased(old(self).queues()[t.level_spec() as int], id))
                    &&& final(self).current_level_spec() == old(self).current_level_spec()
                    &&& final(self).level_changed_spec() == old(self).level_changed_spec()
                }
            },
    {
        let i = match self.find_task_by_id(id) {
            Some(i) => i,
            None => return Err(Code::NoSuchTask),
        };
        let level = self.tasks[i].level;
        let cur = self.current_task();
        self.set_task_state(i, level, false);
        if cur == id {
            let prev = self.rotate_current_run_queue(true);
            proof {
                self.lemma_after_sleep_rotate(*old(self), i as int);
            }
            return Ok(Some(prev));
        }
        let mut q = self.take_queue(level as usize);
        erase(&mut q, id);
        self.put_queue(level as usize, q);
        proof {
            assert(self.queues() =~= old(self).queues().update(level as int, erased(old(self).queues()[level as int], id)));
            self.lemma_after_erase(*old(self), i as int);
        }
        Ok(None)
    }

    /// `new` is `self` after `wake_up(id, level)` found task `id`: a
    /// running task changes level as `change_level_running` does; a sleeping
    /// one runs again at `level` (its old level when `level` is negative), at
    /// the back of that level's queue, marking the levels for review when
    /// that level is above the current one.
    pub open spec fn woke(self, new: Self, id: u64, level: i32) -> bool {
        let i = task_index(self.tasks_spec(), id);
        let t = self.task(id);
        let lv = if level < 0 { t.level_spec() } else { level };
        if t.running_spec() {
            self.changed_level(new, id, level)
        } else {
            &&& new.tasks_spec() == self.tasks_spec().update(i, t.with_state(lv, true))
            &&& new.queues() == self.queues().update(lv as int, self.queues()[lv as int].push(id))
            &&& new.current_level_spec() == self.current_level_spec()
            &&& new.level_changed_spec() == (self.level_changed_spec() || lv > self.current_level_spec())
            &&& new.latest_spec() == self.latest_spec()
            &&& new.waiters() == self.waiters()
            &&& new.finished() == self.finished()
        }
    }

    /// Wakes task `id` up as `woke` says; fails with `NoSuchTask` when there
    /// is no such task.
    pub fn wake_up(&mut self, id: u64, level: i32) -> (r: Result<(), Code>)
        requires
            old(self).wf(),
            level <= MAX_RUN_LEVEL,
            old(self).has_task(id) && old(self).task(id).running_spec() && level >= 0 && level != old(self).task(id).level_spec()
                ==> old(self).current_queue().len() > 0,
        ensures
            final(self).wf(),
            r is Err <==> !old(self).has_task(id),
            r matches Err(c) ==> c == Code::NoSuchTask && *final(self) == *old(self),
            r is Ok ==> old(self).woke(*final(self), id, level),
    {
        let i = match self.find_task_by_id(id) {
            Some(i) => i,
            None => return Err(Code::NoSuchTask),
        };
        if self.tasks[i].running {
            self.change_level_running(id, level);
            return Ok(());
        }
        let lv = if level < 0 { self.tasks[i].level } else { level };
        let ghost old_m = *self;
        proof {
            lemma_task_index(self.tasks@, i as int);
            assert forall|l: int| 0 <= l < 4 implies !(#[trigger] self.running@[l]@.contains(id)) by {
                if self.running@[l]@.contains(id) {
                    let k = choose|k: int| 0 <= k < self.running@[l]@.len() && self.running@[l]@[k] == id;
                    assert(self.running@[l]@[k] == id);
                }
            }
        }
        let mut q = self.take_queue(lv as usize);
        q.push_back(id);
        self.put_queue(lv as usize, q);
        self.set_task_state(i, lv, true);
        if lv > self.current_level {
            self.level_changed = true;
        }
        proof {
            assert(self.queues() =~= old_m.queues().update(lv as int, old_m.queues()[lv as int].push(id)));
            assert forall|l: int| 0 <= l < 4 implies #[trigger] self.running@[l]@ == (
                if l == lv { old_m.running@[l]@.push(id) } else { old_m.running@[l]@ }) by {
            }
            assert forall|l: int, x: u64| 0 <= l < 4 implies (#[trigger] self.running@[l]@.contains(x) <==>
                ((x != id && old_m.running@[l]@.contains(x)) || (x == id && l == lv))) by {
                if l == lv {
                    let o = old_m.running@[l]@;
                    if self.running@[l]@.contains(x) && x != id {
                        let k = choose|k: int| 0 <= k < self.running@[l]@.len() && self.running@[l]@[k] == x;
                        assert(o[k] == x);
                    }
                    if x != id && o.contains(x) {
                        let k = choose|k: int| 0 <= k < o.len() && o[k] == x;
                        assert(self.running@[l]@[k] == x);
                    }
                    if x == id {
                        assert(self.running@[l]@[o.len() as int] == id);
                    }
                }
            }
            assert forall|l: int, k1: int, k2: int| 0 <= l < 4 && 0 <= k1 < k2 < self.running@[l]@.len()
                implies #[trigger] self.running@[l]@[k1] != #[trigger] self.running@[l]@[k2] by {
                let o = old_m.running@[l]@;
                if l == lv && k2 == o.len() {
                    if o[k1] == id {
                        assert(o.contains(id));
                    }
                } else {
                    assert(o[k1] != o[k2]);
                }
            }
            self.lemma_wf_by_membership(old_m, i as int, lv as int, true, old_m.tasks@[i as int].with_state(lv, true));
        }
        Ok(())
    }

    /// `new` is this manager after `msg` was queued for task `id` and the
    /// task woken up at its level.
    pub open spec fn delivered(self, new: Self, id: u64, msg: Message) -> bool {
        let i = task_index(self.tasks_spec(), id);
        let t = self.task(id);
        let nt = new.tasks_spec()[i];
        &&& new.tasks_spec().len() == self.tasks_spec().len()
        &&& forall|j: int| 0 <= j < self.tasks_spec().len() && j != i ==> #[trigger] new.tasks_spec()[j] == self.tasks_spec()[j]
        &&& nt.id_spec() == id
        &&& nt.msgs_spec() == t.msgs_spec().push(msg)
        &&& nt.level_spec() == t.level_spec()
        &&& nt.running_spec()
        &&& nt.context_spec() == t.context_spec()
        &&& new.queues() == if t.running_spec() { self.queues() } else {
            self.queues().update(t.level_spec() as int, self.queues()[t.level_spec() as int].push(id))
        }
        &&& new.current_level_spec() == self.current_level_spec()
        &&& new.level_changed_spec() == (self.level_changed_spec() || (!t.running_spec() && t.level_spec() > self.current_level_spec()))
        &&& new.latest_spec() == self.latest_spec()
        &&& new.waiters() == self.waiters()
        &&& new.finished() == self.finished()
    }

    /// Delivering a message keeps the set of tasks and can only lengthen
    /// the current queue.
    pub proof fn lemma_delivered_keeps(self, new: Self, id: u64, msg: Message)
        requires
            self.wf(),
            self.has_task(id),
            self.delivered(new, id, msg),
        ensures
            forall|id2: u64| #[trigger] new.has_task(id2) == self.has_task(id2),
            new.current_queue().len() >= self.current_queue().len(),
    {
        let i = task_index(self.tasks_spec(), id);
        let nt = new.tasks_spec()[i];
        lemma_task_index(self.tasks_spec(), i);
        assert(new.tasks_spec() =~= self.tasks_spec().update(i, nt));
        lemma_index_update(self.tasks_spec(), i, nt);
    }

    /// Queues `msg` for task `id` and wakes it up at its level; fails with
    /// `NoSuchTask` when there is no such task.
    pub fn send_message(&mut self, id: u64, msg: Message) -> (r: Result<(), Code>)
        requires
            old(self).wf(),
        ensures
            final(self).wf(),
            r is Err <==> !old(self).has_task(id),
            r matches Err(c) ==> c == Code::NoSuchTask && *final(self) == *old(self),
            r is Ok ==> old(self).delivered(*final(self), id, msg),
    {
        let i = match self.find_task_by_id(id) {
            Some(i) => i,
            None => return Err(Code::NoSuchTask),
        };
        let ghost old_m = *self;
        let mut t = Task::new(0, 16);
        self.tasks.set_and_swap(i, &mut t);
        let ghost t0 = t;
        t.send_message(msg);
        self.tasks.set_and_swap(i, &mut t);
        proof {
            assert(self.tasks@ =~= old_m.tasks@.update(i as int, self.tasks@[i as int]));
            self.lemma_wf_by_membership(old_m, i as int, t0.level_spec() as int, t0.running_spec(), self.tasks@[i as int]);
            lemma_task_index(old_m.tasks@, i as int);
            lemma_index_update(old_m.tasks@, i as int, self.tasks@[i as int]);
        }
        let ghost mid = *self;
        let _ = self.wake_up(id, -1);
        proof {
            assert(task_index(mid.tasks@, id) == i);
            if !t0.running_spec() {
                assert(self.tasks@ == mid.tasks@.update(i as int, mid.tasks@[i as int].with_state(t0.level_spec(), true)));
                assert(self.tasks@[i as int].msgs_spec() == mid.tasks@[i as int].msgs_spec());
            } else {
                assert(*self == mid);
            }
        }
        Ok(())
    }

    /// Takes the oldest message queued for task `id`; `None` when there is
    /// no such task or no message.
    pub fn receive_message(&mut self, id: u64) -> (r: Option<Message>)
        requires
            old(self).wf(),
        ensures
            final(self).wf(),
            !old(self).has_task(id) ==> r is None && *final(self) == *old(self),
            old(self).has_task(id) ==> {
                let i = task_index(old(self).tasks_spec(), id);
                let t = old(self).task(id);
                let nt = final(self).tasks_spec()[i];
                &&& r == if t.msgs_spec().len() > 0 { Some(t.msgs_spec()[0]) } else { None }
                &&& nt.msgs_spec() == if t.msgs_spec().len() > 0 { t.msgs_spec().drop_first() } else { t.msgs_spec() }
                &&& nt.id_spec() == id
                &&& nt.level_spec() == t.level_spec()
                &&& nt.running_spec() == t.running_spec()
                &&& final(self).tasks_spec().len() == old(self).tasks_spec().len()
                &&& forall|j: int| 0 <= j < old(self).tasks_spec().len() && j != i ==> #[trigger] final(self).tasks_spec()[j] == old(self).tasks_spec()[j]
                &&& final(self).queues() == old(self).queues()
                &&& final(self).current_level_spec() == old(self).current_level_spec()
                &&& final(self).level_changed_spec() == old(self).level_changed_spec()
                &&& final(self).latest_spec() == old(self).latest_spec()
                &&& final(self).waiters() == old(self).waiters()
                &&& final(self).finished() == old(self).finished()
            },
    {
        let i = match self.find_task_by_id(id) {
            Some(i) => i,
            None => return None,
        };
        let ghost old_m = *self;
        let mut t = Task::new(0, 16);
        self.tasks.set_and_swap(i, &mut t);
        let ghost t0 = t;
        let m = t.receive_message();
        self.tasks.set_and_swap(i, &mut t);
        proof {
            lemma_task_index(old_m.tasks@, i as int);
            assert forall|l: int, x: u64| 0 <= l < 4 implies (#[trigger] self.running@[l]@.contains(x) <==>
                ((x != id && old_m.running@[l]@.contains(x)) || (t0.running_spec() && x == id && l == t0.level_spec()))) by {
                if old_m.running@[l]@.contains(id) {
                    let k = choose|k: int| 0 <= k < old_m.running@[l]@.len() && old_m.running@[l]@[k] == id;
                    assert(old_m.running@[l]@[k] == id);
                }
            }
            assert(self.tasks@ =~= old_m.tasks@.update(i as int, self.tasks@[i as int]));
            self.lemma_wf_by_membership(old_m, i as int, t0.level_spec() as int, t0.running_spec(), self.tasks@[i as int]);
        }
        m
    }

    /// Switches tasks on a timer: the current task, whose registers were
    /// `current_ctx`, goes to the back of its queue with them saved. Returns
    /// the task switched away from and the task to run now.
    pub fn switch_task(&mut self, current_ctx: &TaskContext) -> (r: (u64, u64))
        requires
            old(self).wf(),
            old(self).current_queue().len() > 0,
        ensures
            final(self).wf(),
            r.0 == old(self).current_queue()[0],
            final(self).queues() == Self::rotated_queues(old(self).queues(), old(self).current_level_spec(), false),
            final(self).current_level_spec() == Self::rotated_level(old(self).queues(), old(self).current_level_spec(), old(self).level_changed_spec(), false),
            !final(self).level_changed_spec(),
            final(self).current_queue().len() > 0,
            r.1 == final(self).current_queue()[0],
            final(self).task(r.0).context_spec() == *current_ctx,
            final(self).tasks_spec().len() == old(self).tasks_spec().len(),
            forall|j: int| 0 <= j < old(self).tasks_spec().len() && j != task_index(old(self).tasks_spec(), r.0)
                ==> #[trigger] final(self).tasks_spec()[j] == old(self).tasks_spec()[j],
            final(self).latest_spec() == old(self).latest_spec(),
            final(self).waiters() == old(self).waiters(),
            final(self).finished() == old(self).finished(),
    {
        let ghost old_m = *self;
        let ghost cl = self.current_level as int;
        proof {
            let id = self.running@[cl]@[0];
            assert(self.running@[cl]@[0] == id);
        }
        let prev = self.rotate_current_run_queue(false);
        let i = match self.find_task_by_id_raw(prev) {
            Some(i) => i,
            None => vstd::pervasive::unreached(),
        };
        let mut t = Task::new(0, 16);
        self.tasks.set_and_swap(i, &mut t);
        t.context = *current_ctx;
        self.tasks.set_and_swap(i, &mut t);
        proof {
            let oq = old_m.running@[cl]@;
            assert forall|l: int| 0 <= l < 4 implies #[trigger] self.running@[l]@ == (
                if l == cl { oq.drop_first().push(oq[0]) } else { old_m.running@[l]@ }) by {
                assert(self.queues()[l] == self.running@[l]@);
                assert(old_m.queues()[l] == old_m.running@[l]@);
            }
            let ti = old_m.tasks@[i as int];
            assert(ti.running_spec() && ti.level_spec() == cl);
            assert forall|l: int, x: u64| 0 <= l < 4 implies (#[trigger] self.running@[l]@.contains(x) <==>
                ((x != prev && old_m.running@[l]@.contains(x)) || (x == prev && l == cl))) by {
                if l == cl {
                    let n = self.running@[l]@;
                    if n.contains(x) {
                        let k = choose|k: int| 0 <= k < n.len() && n[k] == x;
                        if k < n.len() - 1 {
                            assert(oq[k + 1] == x);
                        }
                    }
                    if x != prev && oq.contains(x) {
                        let k = choose|k: int| 0 <= k < oq.len() && oq[k] == x;
                        assert(n[k - 1] == x);
                    }
                    if x == prev {
                        assert(n[n.len() - 1] == prev);
                    }
                } else if old_m.running@[l]@.contains(prev) {
                    let k = choose|k: int| 0 <= k < old_m.running@[l]@.len() && old_m.running@[l]@[k] == prev;
                    assert(old_m.running@[l]@[k] == prev);
                }
            }
            assert forall|l: int, k1: int, k2: int| 0 <= l < 4 && 0 <= k1 < k2 < self.running@[l]@.len()
                implies #[trigger] self.running@[l]@[k1] != #[trigger] self.running@[l]@[k2] by {
                if l == cl {
                    if k2 == self.running@[l]@.len() - 1 {
                        assert(oq[k1 + 1] != oq[0]);
                    } else {
                        assert(oq[k1 + 1] != oq[k2 + 1]);
                    }
                } else {
                    assert(old_m.running@[l]@[k1] != old_m.running@[l]@[k2]);
                }
            }
            assert(self.tasks@ =~= old_m.tasks@.update(i as int, self.tasks@[i as int]));
            self.lemma_wf_by_membership(old_m, i as int, cl, true, self.tasks@[i as int]);
            lemma_task_index(self.tasks@, i as int);
            assert(self.running@[self.current_level as int]@.len() > 0);
        }
        let next = self.current_task();
        (prev, next)
    }

    /// `new` is `self` once its current task, `id`, finished with
    /// `exit_code`, before any waiter is woken: the task is gone, the
    /// queues rotated without it, its exit code kept and its waiter
    /// forgotten.
    pub open spec fn removed(self, new: Self, id: u64, exit_code: i32) -> bool {
        &&& new.tasks_spec() == self.tasks_spec().remove(task_index(self.tasks_spec(), id))
        &&& new.queues() == Self::rotated_queues(self.queues(), self.current_level_spec(), true)
        &&& new.current_level_spec() == Self::rotated_level(self.queues(), self.current_level_spec(), self.level_changed_spec(), true)
        &&& !new.level_changed_spec()
        &&& new.latest_spec() == self.latest_spec()
        &&& new.finished() == self.finished().insert(id, exit_code)
        &&& new.waiters() == self.waiters().remove(id)
    }

    /// The current task finishes with `exit_code`: it leaves the queues and
    /// the tasks, its exit code is kept for `wait_finish`, and the task
    /// waiting for it, if any, is woken up. Returns the finished task's id;
    /// the caller goes on with the task now current.
    pub fn finish(&mut self, exit_code: i32) -> (r: u64)
        requires
            old(self).wf(),
            old(self).current_queue().len() > 0,
        ensures
            final(self).wf(),
            r == old(self).current_queue()[0],
            !final(self).has_task(r),
            final(self).finished() == old(self).finished().insert(r, exit_code),
            final(self).waiters() == old(self).waiters().remove(r),
            old(self).waiters().contains_key(r) ==> exists|mid: Self| #[trigger] old(self).removed(mid, r, exit_code) && mid.wf() && {
                let w = old(self).waiters()[r];
                &&& mid.has_task(w) ==> mid.woke(*final(self), w, -1i32)
                &&& !mid.has_task(w) ==> *final(self) == mid
            },
            !old(self).waiters().contains_key(r) ==> old(self).removed(*final(self), r, exit_code),
    {
        let ghost old_m = *self;
        let ghost cl = self.current_level as int;
        let cur = self.rotate_current_run_queue(true);
        let i = match self.find_task_by_id_raw(cur) {
            Some(i) => i,
            None => vstd::pervasive::unreached(),
        };
        proof {
            assert(old_m.running@[cl]@[0] == cur);
            lemma_task_index(old_m.tasks@, i as int);
        }
        let ghost before_remove = self.tasks@;
        self.tasks.remove(i);
        proof {
            lemma_index_remove(before_remove, i as int);
            self.lemma_after_finish(old_m, i as int);
        }
        self.finish_tasks.insert(cur, exit_code);
        let waiter = self.finish_waiter.remove(&cur);
        let ghost mid = *self;
        proof {
            assert(old_m.removed(mid, cur, exit_code));
        }
        match waiter {
            Some(w) => {
                let _ = self.wake_up(w, -1);
                proof {
                    assert(old_m.removed(mid, cur, exit_code) && mid.wf());
                }
            },
            None => {},
        }
        cur
    }

    /// After the current task at `i` is removed and the queues rotated
    /// without it, the invariant holds again.
    proof fn lemma_after_finish(&self, old_m: Self, i: int)
        requires
            old_m.wf(),
            0 <= i < old_m.tasks@.len(),
            old_m.current_queue().len() > 0,
            old_m.tasks@[i].id_spec() == old_m.current_queue()[0],
            self.tasks@ == old_m.tasks@.remove(i),
            self.running@.len() == 4,
            self.queues() == Self::rotated_queues(old_m.queues(), old_m.current_level, true),
            self.current_level == Self::rotated_level(old_m.queues(), old_m.current_level, old_m.level_changed, true),
            self.latest_id == old_m.latest_id,
        ensures
            self.wf(),
    {
        let cur = old_m.tasks@[i].id_spec();
        let cl = old_m.current_level as int;
        lemma_index_remove(old_m.tasks@, i);
        lemma_task_index(old_m.tasks@, i);
        assert(old_m.running@[cl]@[0] == cur);
        assert forall|lv: int| 0 <= lv < 4 implies #[trigger] self.running@[lv]@ == (if lv == cl { old_m.running@[cl]@.drop_first() } else { old_m.running@[lv]@ }) by {
            assert(self.queues()[lv] == self.running@[lv]@);
            assert(old_m.queues()[lv] == old_m.running@[lv]@);
        }
        assert forall|j: int| 0 <= j < self.tasks@.len() implies 0 < #[trigger] self.tasks@[j].id_spec() <= self.latest_id
            && 0 <= self.tasks@[j].level_spec() <= MAX_RUN_LEVEL by {
            let jj = if j < i { j } else { j + 1 };
            assert(self.tasks@[j] == old_m.tasks@[jj]);
        }
        assert forall|lv: int, k: int| 0 <= lv < 4 && 0 <= k < self.running@[lv]@.len() implies {
            let id = #[trigger] self.running@[lv]@[k];
            &&& task_index(self.tasks@, id) >= 0
            &&& self.tasks@[task_index(self.tasks@, id)].level_spec() == lv
            &&& self.tasks@[task_index(self.tasks@, id)].running_spec()
        } by {
            let id = self.running@[lv]@[k];
            let ok = if lv == cl { k + 1 } else { k };
            assert(old_m.running@[lv]@[ok] == id);
            if id == cur {
                if lv == cl {
                    assert(old_m.running@[cl]@[0] != old_m.running@[cl]@[ok]);
                } else {
                    assert(old_m.tasks@[i].level_spec() == lv);
                }
            }
        }
        assert forall|lv: int, k1: int, k2: int| 0 <= lv < 4 && 0 <= k1 < k2 < self.running@[lv]@.len()
            implies #[trigger] self.running@[lv]@[k1] != #[trigger] self.running@[lv]@[k2] by {
            if lv == cl {
                assert(old_m.running@[lv]@[k1 + 1] != old_m.running@[lv]@[k2 + 1]);
            } else {
                assert(old_m.running@[lv]@[k1] != old_m.running@[lv]@[k2]);
            }
        }
        assert forall|j: int| 0 <= j < self.tasks@.len() && #[trigger] self.tasks@[j].running_spec()
            implies self.running@[self.tasks@[j].level_spec() as int]@.contains(self.tasks@[j].id_spec()) by {
            let jj = if j < i { j } else { j + 1 };
            let tj = old_m.tasks@[jj];
            assert(self.tasks@[j] == tj);
            assert(old_m.tasks@[jj].running_spec());
            let lv = tj.level_spec() as int;
            assert(old_m.running@[lv]@.contains(tj.id_spec()));
            assert(tj.id_spec() != cur) by {
                if i < jj { assert(old_m.tasks@[i].id_spec() != old_m.tasks@[jj].id_spec()); }
                else { assert(old_m.tasks@[jj].id_spec() != old_m.tasks@[i].id_spec()); }
            }
            if lv == cl {
                let k = choose|k: int| 0 <= k < old_m.running@[lv]@.len() && old_m.running@[lv]@[k] == tj.id_spec();
                assert(k != 0);
                assert(self.running@[lv]@[k - 1] == tj.id_spec());
            }
        }
    }

    /// Waits for task `task_id` to finish: its exit code when it has
    /// (forgetting it), else `Err(id)` after the current task `id` is
    /// recorded as its waiter and put to sleep; the caller then switches away
    /// from `id` and asks again once woken.
    pub fn wait_finish(&mut self, task_id: u64) -> (r: Result<i32, u64>)
        requires
            old(self).wf(),
            old(self).current_queue().len() > 0,
        ensures
            final(self).wf(),
            old(self).finished().contains_key(task_id) ==> {
                &&& r == Ok::<i32, u64>(old(self).finished()[task_id])
                &&& final(self).finished() == old(self).finished().remove(task_id)
                &&& final(self).tasks_spec() == old(self).tasks_spec()
                &&& final(self).queues() == old(self).queues()
                &&& final(self).current_level_spec() == old(self).current_level_spec()
                &&& final(self).level_changed_spec() == old(self).level_changed_spec()
                &&& final(self).waiters() == old(self).waiters()
            },
            !old(self).finished().contains_key(task_id) ==> {
                let cur = old(self).current_queue()[0];
                let t = old(self).task(cur);
                &&& r == Err::<i32, u64>(cur)
                &&& final(self).waiters() == old(self).waiters().insert(task_id, cur)
                &&& final(self).finished() == old(self).finished()
                &&& final(self).tasks_spec() == old(self).tasks_spec().update(task_index(old(self).tasks_spec(), cur), t.with_state(t.level_spec(), false))
                &&& final(self).queues() == Self::rotated_queues(old(self).queues(), old(self).current_level_spec(), true)
                &&& final(self).current_level_spec() == Self::rotated_level(old(self).queues(), old(self).current_level_spec(), old(self).level_changed_spec(), true)
            },
            final(self).latest_spec() == old(self).latest_spec(),
    {
        let cur = self.current_task();
        match self.finish_tasks.remove(&task_id) {
            Some(code) => {
                return Ok(code);
            },
            None => {},
        }
        self.finish_waiter.insert(task_id, cur);
        proof {
            let cl = self.current_level as int;
            assert(self.running@[cl]@[0] == cur);
            let i = task_index(self.tasks@, cur);
            assert(i >= 0);
        }
        let _ = self.sleep(cur);
        Err(cur)
    }

    /// The position of task `id`, without the invariant.
    fn find_task_by_id_raw(&self, id: u64) -> (r: Option<usize>)
        requires
            ids_distinct(self.tasks@),
        ensures
            r is Some <==> task_index(self.tasks@, id) >= 0,
            r matches Some(i) ==> i == task_index(self.tasks@, id) && i < self.tasks@.len(),
    {
        let mut i: usize = 0;
        while i < self.tasks.len()
            invariant
                ids_distinct(self.tasks@),
                i <= self.tasks@.len(),
                forall|j: int| 0 <= j < i ==> self.tasks@[j].id_spec() != id,
            decreases self.tasks@.len() - i,
        {
            if self.tasks[i].id == id {
                proof { lemma_task_index(self.tasks@, i as int); }
                return Some(i);
            }
            i = i + 1;
        }
        None
    }

    /// The task with id `task_id`, if there is one.
    pub fn get_task(&self, task_id: u64) -> (r: Option<&Task>)
        requires
            self.wf(),
        ensures
            r is Some <==> self.has_task(task_id),
            r matches Some(t) ==> *t == self.task(task_id),
    {
        match self.find_task_by_id(task_id) {
            Some(i) => Some(&self.tasks[i]),
            None => None,
        }
    }
}

/// The exit code a task finishes with is what waiting for it gives: after
/// `finish` records task `id` with `code`, `wait_finish(id)` finds it.
pub proof fn lemma_finish_then_wait(before: TaskManager, after: TaskManager, id: u64, code: i32)
    requires
        after.finished() == before.finished().insert(id, code),
    ensures
        after.finished().contains_key(id),
        after.finished()[id] == code,
{
}

} // verus!
