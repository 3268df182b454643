//! Tasks and their bookkeeping: a task carries an identifier, a name, a
//! status, a priority and free-form metadata; a manager holds a list of
//! tasks and supports adding, looking up, updating, filtering and deleting
//! them; a processor renders tasks as string maps.

use std::sync::Arc;

use vstd::prelude::*;

use crate::decimal::{dec_str, int_dec_str, i32_to_dec, u64_to_dec};
use crate::shims::{now_millis, str_eq};
use crate::strmap::StringMap;

verus! {

/// The states a task can be in.
#[derive(Clone, Copy, Debug, PartialEq, Eq, Structural)]
pub enum Status {
    Pending,
    Active,
    Completed,
    Failed,
}

/// A task entity.
#[derive(Debug)]
pub struct Task {
    pub id: String,
    pub name: String,
    pub status: Status,
    pub priority: i32,
    pub metadata: StringMap,
}

/// What a task says in the abstract: its fields, with the strings read as
/// character sequences and the metadata read as a map.
pub struct TaskView {
    pub id: Seq<char>,
    pub name: Seq<char>,
    pub status: Status,
    pub priority: int,
    pub metadata: Map<Seq<char>, String>,
}

impl View for Task {
    type V = TaskView;

    open spec fn view(&self) -> TaskView {
        TaskView {
            id: self.id@,
            name: self.name@,
            status: self.status,
            priority: self.priority as int,
            metadata: self.metadata@,
        }
    }
}

impl Task {
    /// A new task with the given identifier and name, pending, at priority
    /// one, with no metadata.
    pub fn new(id: String, name: String) -> (r: Self)
        ensures
            r@ == (TaskView {
                id: id@,
                name: name@,
                status: Status::Pending,
                priority: 1,
                metadata: Map::<Seq<char>, String>::empty(),
            }),
    {
        Task { id, name, status: Status::Pending, priority: 1, metadata: StringMap::new() }
    }

    /// The same task at the given priority.
    pub fn with_priority(self, priority: i32) -> (r: Self)
        ensures
            r@ == (TaskView { priority: priority as int, ..self@ }),
    {
        Task {
            id: self.id,
            name: self.name,
            status: self.status,
            priority,
            metadata: self.metadata,
        }
    }

    /// The same task in the given status.
    pub fn with_status(self, status: Status) -> (r: Self)
        ensures
            r@ == (TaskView { status: status, ..self@ }),
    {
        Task {
            id: self.id,
            name: self.name,
            status,
            priority: self.priority,
            metadata: self.metadata,
        }
    }

    /// Whether the task has completed.
    pub fn is_complete(&self) -> (r: bool)
        ensures
            r == (self.status == Status::Completed),
    {
        self.status == Status::Completed
    }
}

impl Clone for Task {
    /// A field-for-field copy, with the same abstract reading.
    fn clone(&self) -> (r: Self)
        ensures
            r@ == self@,
    {
        Task {
            id: self.id.clone(),
            name: self.name.clone(),
            status: self.status,
            priority: self.priority,
            metadata: self.metadata.clone(),
        }
    }
}

/// Entities that carry an identifier.
pub trait Entity {
    /// The identifier, in the abstract.
    spec fn entity_id(&self) -> Seq<char>;

    /// The identifier of this entity.
    fn get_id(&self) -> (r: &str)
        ensures
            r@ == self.entity_id(),
    ;
}

impl Entity for Task {
    open spec fn entity_id(&self) -> Seq<char> {
        self.id@
    }

    fn get_id(&self) -> (r: &str) {
        self.id.as_str()
    }
}

/// The tasks of the sequence whose status is the given one, in order.
pub open spec fn kept_by_status(s: Seq<Task>, status: Status) -> Seq<Task>
    decreases s.len(),
{
    if s.len() == 0 {
        Seq::empty()
    } else if s.last().status == status {
        kept_by_status(s.drop_last(), status).push(s.last())
    } else {
        kept_by_status(s.drop_last(), status)
    }
}

/// The tasks of the sequence whose priority is at least the given one, in
/// order.
pub open spec fn kept_by_priority(s: Seq<Task>, min_priority: i32) -> Seq<Task>
    decreases s.len(),
{
    if s.len() == 0 {
        Seq::empty()
    } else if s.last().priority >= min_priority {
        kept_by_priority(s.drop_last(), min_priority).push(s.last())
    } else {
        kept_by_priority(s.drop_last(), min_priority)
    }
}

/// The tasks kept by a sequence of per-task decisions, in order.
pub open spec fn mask_keep(s: Seq<Task>, dec: Seq<bool>) -> Seq<Task>
    decreases s.len(),
{
    if s.len() == 0 || dec.len() != s.len() {
        Seq::empty()
    } else if dec.last() {
        mask_keep(s.drop_last(), dec.drop_last()).push(s.last())
    } else {
        mask_keep(s.drop_last(), dec.drop_last())
    }
}

/// The tasks of the sequence without those carrying the given identifier,
/// in order.
pub open spec fn without_id(s: Seq<Task>, id: Seq<char>) -> Seq<Task>
    decreases s.len(),
{
    if s.len() == 0 {
        Seq::empty()
    } else if s.last().id@ == id {
        without_id(s.drop_last(), id)
    } else {
        without_id(s.drop_last(), id).push(s.last())
    }
}

/// Deleting by identifier shortens the sequence exactly when some task
/// carries that identifier.
proof fn lemma_without_id_len(s: Seq<Task>, id: Seq<char>)
    ensures
        without_id(s, id).len() <= s.len(),
        (without_id(s, id).len() < s.len()) <==> exists|i: int|
            0 <= i < s.len() && s[i].id@ == id,
    decreases s.len(),
{
    if s.len() > 0 {
        lemma_without_id_len(s.drop_last(), id);
        if s.last().id@ == id {
            assert(s[s.len() - 1].id@ == id);
        } else {
            if exists|i: int| 0 <= i < s.len() && s[i].id@ == id {
                let i = choose|i: int| 0 <= i < s.len() && s[i].id@ == id;
                assert(s.drop_last()[i].id@ == id);
            }
            if exists|i: int| 0 <= i < s.drop_last().len() && s.drop_last()[i].id@ == id {
                let i = choose|i: int|
                    0 <= i < s.drop_last().len() && s.drop_last()[i].id@ == id;
                assert(s[i].id@ == id);
            }
        }
    }
}

/// A manager owning a list of tasks.  The same identifier may occur more
/// than once; lookups find the first occurrence.
pub struct TaskManager {
    tasks: Vec<Task>,
}

impl View for TaskManager {
    type V = Seq<Task>;

    closed spec fn view(&self) -> Seq<Task> {
        self.tasks@
    }
}

impl TaskManager {
    /// A new manager holding no tasks.
    pub fn new() -> (r: Self)
        ensures
            r@ == Seq::<Task>::empty(),
    {
        TaskManager { tasks: Vec::new() }
    }

    /// Appends the task if it is valid — its identifier and name are both
    /// non-empty — and otherwise leaves the list unchanged and reports which
    /// requirement failed.
    pub fn add_task(&mut self, task: Task) -> (r: Result<(), String>)
        ensures
            task.id@.len() > 0 && task.name@.len() > 0 ==> r is Ok && final(self)@ == old(
                self,
            )@.push(task),
            task.id@.len() == 0 ==> final(self)@ == old(self)@ && (r matches Err(m) && m@
                == "Task ID is required"@),
            task.id@.len() > 0 && task.name@.len() == 0 ==> final(self)@ == old(self)@ && (
            r matches Err(m) && m@ == "Task name is required"@),
    {
        match validate_task(&task) {
            Ok(()) => {
                self.tasks.push(task);
                Ok(())
            },
            Err(e) => Err(e),
        }
    }

    /// A copy of the first task carrying the identifier, if any does.
    pub fn get_task(&self, id: &str) -> (r: Option<Task>)
        ensures
            match r {
                Some(t) => exists|i: int|
                    0 <= i < self@.len() && #[trigger] self@[i].id@ == id@ && t@ == self@[i]@ && (
                    forall|j: int| 0 <= j < i ==> self@[j].id@ != id@),
                None => forall|i: int| 0 <= i < self@.len() ==> self@[i].id@ != id@,
            },
    {
        let mut i: usize = 0;
        while i < self.tasks.len()
            invariant
                i <= self.tasks@.len(),
                forall|j: int| 0 <= j < i ==> self.tasks@[j].id@ != id@,
            decreases self.tasks@.len() - i,
        {
            if str_eq(self.tasks[i].id.as_str(), id) {
                return Some(self.tasks[i].clone());
            }
            i = i + 1;
        }
        None
    }

    /// Copies of the tasks, all of them or those a filter keeps.  The
    /// result reads as the input list masked by one yes/no decision of the
    /// filter per task, in order.
    pub fn get_tasks<F: Fn(&Task) -> bool>(&self, filter: Option<F>) -> (r: Vec<Task>)
        requires
            filter matches Some(f) ==> forall|t: &Task| #[trigger] call_requires(f, (t,)),
        ensures
            filter is None ==> r@.len() == self@.len() && (forall|i: int|
                0 <= i < r@.len() ==> #[trigger] r@[i]@ == self@[i]@),
            filter matches Some(f) ==> exists|dec: Seq<bool>|
                #![trigger mask_keep(self@, dec)]
                dec.len() == self@.len() && (forall|i: int|
                    0 <= i < dec.len() ==> call_ensures(f, (&self@[i],), #[trigger] dec[i]))
                    && r@.len() == mask_keep(self@, dec).len() && (forall|i: int|
                    0 <= i < r@.len() ==> #[trigger] r@[i]@ == mask_keep(self@, dec)[i]@),
    {
        let mut out: Vec<Task> = Vec::new();
        match filter {
            Some(f) => {
                let ghost mut dec: Seq<bool> = Seq::empty();
                let mut i: usize = 0;
                while i < self.tasks.len()
                    invariant
                        forall|t: &Task| #[trigger] call_requires(f, (t,)),
                        i <= self.tasks@.len(),
                        dec.len() == i,
                        forall|j: int|
                            0 <= j < i ==> call_ensures(f, (&self.tasks@[j],), #[trigger] dec[j]),
                        out@.len() == mask_keep(self.tasks@.take(i as int), dec).len(),
                        forall|j: int|
                            0 <= j < out@.len() ==> #[trigger] out@[j]@ == mask_keep(
                                self.tasks@.take(i as int),
                                dec,
                            )[j]@,
                    decreases self.tasks@.len() - i,
                {
                    let keep = f(&self.tasks[i]);
                    let ghost prefix = self.tasks@.take(i as int);
                    proof {
                        assert(self.tasks@.take(i + 1).drop_last() =~= prefix);
                        assert(self.tasks@.take(i + 1).last() == self.tasks@[i as int]);
                        assert(dec.push(keep).drop_last() =~= dec);
                        dec = dec.push(keep);
                        assert(mask_keep(self.tasks@.take(i + 1), dec) == if keep {
                            mask_keep(prefix, dec.drop_last()).push(self.tasks@[i as int])
                        } else {
                            mask_keep(prefix, dec.drop_last())
                        });
                    }
                    if keep {
                        out.push(self.tasks[i].clone());
                    }
                    i = i + 1;
                }
                proof {
                    assert(self.tasks@.take(self.tasks@.len() as int) =~= self.tasks@);
                    assert(dec.len() == self@.len());
                    assert(out@.len() == mask_keep(self@, dec).len());
                }
                out
            },
            None => {
                let mut i: usize = 0;
                while i < self.tasks.len()
                    invariant
                        i <= self.tasks@.len(),
                        out@.len() == i,
                        forall|j: int| 0 <= j < i ==> #[trigger] out@[j]@ == self.tasks@[j]@,
                    decreases self.tasks@.len() - i,
                {
                    out.push(self.tasks[i].clone());
                    i = i + 1;
                }
                out
            },
        }
    }

    /// Replaces the name and status of the first task carrying the
    /// identifier with those given, where given, and returns a copy of the
    /// changed task; changes nothing if no task carries the identifier.
    pub fn update_task(&mut self, id: &str, name: Option<String>, status: Option<Status>) -> (r:
        Option<Task>)
        ensures
            match r {
                Some(t) => exists|i: int|
                    0 <= i < old(self)@.len() && #[trigger] old(self)@[i].id@ == id@ && (forall|
                        j: int,
                    |
                        0 <= j < i ==> old(self)@[j].id@ != id@) && final(self)@ == old(
                        self,
                    )@.update(i, patched(old(self)@[i], name, status)) && t@ == patched(
                        old(self)@[i],
                        name,
                        status,
                    )@,
                None => final(self)@ == old(self)@ && forall|i: int|
                    0 <= i < old(self)@.len() ==> old(self)@[i].id@ != id@,
            },
    {
        let ghost orig = self.tasks@;
        let mut i: usize = 0;
        while i < self.tasks.len()
            invariant
                old(self)@ == orig,
                self.tasks@ == orig,
                i <= orig.len(),
                forall|j: int| 0 <= j < i ==> orig[j].id@ != id@,
            decreases orig.len() - i,
        {
            if str_eq(self.tasks[i].id.as_str(), id) {
                let mut t = self.tasks.remove(i);
                match name {
                    Some(n) => {
                        t.name = n;
                    },
                    None => {},
                }
                match status {
                    Some(s) => {
                        t.status = s;
                    },
                    None => {},
                }
                let copy = t.clone();
                self.tasks.insert(i, t);
                proof {
                    assert(self.tasks@ =~= orig.update(
                        i as int,
                        patched(orig[i as int], name, status),
                    ));
                    let wi = i as int;
                    assert(0 <= wi < old(self)@.len());
                    assert(old(self)@[wi].id@ == id@);
                    assert(forall|j: int| 0 <= j < wi ==> old(self)@[j].id@ != id@);
                    assert(self.tasks@ == old(self)@.update(
                        wi,
                        patched(old(self)@[wi], name, status),
                    ));
                    assert(copy@ == patched(old(self)@[wi], name, status)@);
                }
                return Some(copy);
            }
            i = i + 1;
        }
        None
    }

    /// Removes every task carrying the identifier and reports whether any
    /// was removed.
    pub fn delete_task(&mut self, id: &str) -> (r: bool)
        ensures
            final(self)@ == without_id(old(self)@, id@),
            r == (final(self)@.len() < old(self)@.len()),
            r == (exists|i: int| 0 <= i < old(self)@.len() && old(self)@[i].id@ == id@),
    {
        let ghost orig = self.tasks@;
        let n = self.tasks.len();
        let mut kept: Vec<Task> = Vec::new();
        let ghost mut i: int = 0;
        while self.tasks.len() > 0
            invariant
                0 <= i <= n,
                n == orig.len(),
                self.tasks@ == orig.subrange(i, n as int),
                kept@ == without_id(orig.take(i), id@),
            decreases self.tasks@.len(),
        {
            let t = self.tasks.remove(0);
            proof {
                assert(t == orig[i]);
                assert(self.tasks@ =~= orig.subrange(i + 1, n as int));
                assert(orig.take(i + 1).drop_last() =~= orig.take(i));
                assert(orig.take(i + 1).last() == orig[i]);
            }
            if !str_eq(t.id.as_str(), id) {
                kept.push(t);
            }
            proof {
                i = i + 1;
            }
        }
        proof {
            assert(orig.take(n as int) =~= orig);
            lemma_without_id_len(orig, id@);
        }
        let removed = kept.len() < n;
        self.tasks = kept;
        removed
    }

    /// The number of tasks held.
    pub fn count(&self) -> (r: usize)
        ensures
            r == self@.len(),
    {
        self.tasks.len()
    }
}

impl Default for TaskManager {
    /// The same as a new manager: no tasks.
    fn default() -> (r: Self)
        ensures
            r@ == Seq::<Task>::empty(),
    {
        Self::new()
    }
}

/// The task with its name and status replaced by those given, where given.
pub open spec fn patched(t: Task, name: Option<String>, status: Option<Status>) -> Task {
    Task {
        name: match name {
            Some(n) => n,
            None => t.name,
        },
        status: match status {
            Some(s) => s,
            None => t.status,
        },
        ..t
    }
}

/// A task is valid when its identifier and its name are both non-empty;
/// the error says which requirement failed, identifier first.
pub fn validate_task(task: &Task) -> (r: Result<(), String>)
    ensures
        task.id@.len() == 0 ==> (r matches Err(m) && m@ == "Task ID is required"@),
        task.id@.len() > 0 && task.name@.len() == 0 ==> (r matches Err(m) && m@
            == "Task name is required"@),
        task.id@.len() > 0 && task.name@.len() > 0 ==> r is Ok,
{
    if task.id.as_str().is_empty() {
        Err("Task ID is required".to_owned())
    } else if task.name.as_str().is_empty() {
        Err("Task name is required".to_owned())
    } else {
        Ok(())
    }
}

/// A fresh, non-empty task identifier: a fixed prefix followed by a decimal
/// reading of the wall clock.  Two readings of one millisecond give the
/// same identifier, so distinctness is not promised.
fn generate_id() -> (r: String)
    ensures
        r@.len() > 0,
        exists|t: u64| #![trigger dec_str(t as int)] r@ == "task-"@ + dec_str(t as int),
{
    let n = now_millis();
    let digits = u64_to_dec(n);
    let prefix = "task-".to_owned();
    let r = prefix.concat(digits.as_str());
    proof {
        reveal_strlit("task-");
        assert(dec_str(n as int).len() >= 1);
        assert(r@ == "task-"@ + dec_str(n as int));
    }
    r
}

/// A new pending task with a freshly generated identifier, the given name
/// and the given priority.
pub fn create_task(name: &str, priority: i32) -> (r: Task)
    ensures
        r.id@.len() > 0,
        exists|t: u64| #![trigger dec_str(t as int)] r.id@ == "task-"@ + dec_str(t as int),
        r.name@ == name@,
        r.priority == priority,
        r.status == Status::Pending,
        r@.metadata == Map::<Seq<char>, String>::empty(),
{
    let id = generate_id();
    let task = Task::new(id, name.to_owned()).with_priority(priority);
    proof {
        let t0 = choose|t: u64| #![trigger dec_str(t as int)] id@ == "task-"@ + dec_str(t as int);
        assert(task.id@ == "task-"@ + dec_str(t0 as int));
    }
    task
}

/// Copies of the tasks whose status is the given one, in order.
pub fn filter_by_status(tasks: &[Task], status: Status) -> (r: Vec<Task>)
    ensures
        r@.len() == kept_by_status(tasks@, status).len(),
        forall|i: int|
            0 <= i < r@.len() ==> #[trigger] r@[i]@ == kept_by_status(tasks@, status)[i]@,
{
    let mut out: Vec<Task> = Vec::new();
    let mut i: usize = 0;
    while i < tasks.len()
        invariant
            i <= tasks@.len(),
            out@.len() == kept_by_status(tasks@.take(i as int), status).len(),
            forall|j: int|
                0 <= j < out@.len() ==> #[trigger] out@[j]@ == kept_by_status(
                    tasks@.take(i as int),
                    status,
                )[j]@,
        decreases tasks@.len() - i,
    {
        proof {
            assert(tasks@.take(i + 1).drop_last() =~= tasks@.take(i as int));
            assert(tasks@.take(i + 1).last() == tasks@[i as int]);
        }
        if tasks[i].status == status {
            out.push(tasks[i].clone());
        }
        i = i + 1;
    }
    proof {
        assert(tasks@.take(tasks@.len() as int) =~= tasks@);
    }
    out
}

/// Copies of the tasks whose priority is at least the given one, in order.
pub fn filter_by_priority(tasks: &[Task], min_priority: i32) -> (r: Vec<Task>)
    ensures
        r@.len() == kept_by_priority(tasks@, min_priority).len(),
        forall|i: int|
            0 <= i < r@.len() ==> #[trigger] r@[i]@ == kept_by_priority(
                tasks@,
                min_priority,
            )[i]@,
{
    let mut out: Vec<Task> = Vec::new();
    let mut i: usize = 0;
    while i < tasks.len()
        invariant
            i <= tasks@.len(),
            out@.len() == kept_by_priority(tasks@.take(i as int), min_priority).len(),
            forall|j: int|
                0 <= j < out@.len() ==> #[trigger] out@[j]@ == kept_by_priority(
                    tasks@.take(i as int),
                    min_priority,
                )[j]@,
        decreases tasks@.len() - i,
    {
        proof {
            assert(tasks@.take(i + 1).drop_last() =~= tasks@.take(i as int));
            assert(tasks@.take(i + 1).last() == tasks@[i as int]);
        }
        if tasks[i].priority >= min_priority {
            out.push(tasks[i].clone());
        }
        i = i + 1;
    }
    proof {
        assert(tasks@.take(tasks@.len() as int) =~= tasks@);
    }
    out
}

/// The name under which a status is rendered.
pub open spec fn status_name(s: Status) -> Seq<char> {
    match s {
        Status::Pending => "Pending"@,
        Status::Active => "Active"@,
        Status::Completed => "Completed"@,
        Status::Failed => "Failed"@,
    }
}

/// The name under which this status is rendered.
pub fn status_label(s: &Status) -> (r: String)
    ensures
        r@ == status_name(*s),
{
    match s {
        Status::Pending => "Pending".to_owned(),
        Status::Active => "Active".to_owned(),
        Status::Completed => "Completed".to_owned(),
        Status::Failed => "Failed".to_owned(),
    }
}

/// What the rendering of a task as a string map says: exactly the four
/// fields, under their field names.
pub open spec fn is_format_of(m: Map<Seq<char>, String>, t: TaskView) -> bool {
    &&& m.dom() == set!["id"@, "name"@, "status"@, "priority"@]
    &&& m["id"@]@ == t.id
    &&& m["name"@]@ == t.name
    &&& m["status"@]@ == status_name(t.status)
    &&& m["priority"@]@ == int_dec_str(t.priority)
}

/// Renders a task as a string map holding its identifier, name, status and
/// priority.
pub fn format_task(task: &Task) -> (r: StringMap)
    ensures
        r.wf(),
        is_format_of(r@, task@),
{
    let mut map = StringMap::new();
    map.insert("id".to_owned(), task.id.clone());
    map.insert("name".to_owned(), task.name.clone());
    map.insert("status".to_owned(), status_label(&task.status));
    map.insert("priority".to_owned(), i32_to_dec(task.priority));
    proof {
        reveal_strlit("id");
        reveal_strlit("name");
        reveal_strlit("status");
        reveal_strlit("priority");
        assert("id"@.len() == 2 && "name"@.len() == 4 && "status"@.len() == 6 && "priority"@.len()
            == 8);
        assert("id"@ != "name"@ && "id"@ != "status"@ && "id"@ != "priority"@ && "name"@
            != "status"@ && "name"@ != "priority"@ && "status"@ != "priority"@);
        assert(map@.dom() =~= set!["id"@, "name"@, "status"@, "priority"@]);
    }
    map
}

/// Renders tasks held by a shared manager.
pub struct TaskProcessor {
    manager: Arc<TaskManager>,
}

impl TaskProcessor {
    /// The tasks of the manager this processor renders.
    pub closed spec fn spec_tasks(&self) -> Seq<Task> {
        self.manager@
    }

    /// A processor over the given manager.
    pub fn new(manager: Arc<TaskManager>) -> (r: Self)
        ensures
            r.spec_tasks() == manager@,
    {
        TaskProcessor { manager }
    }

    /// Renders every task of the manager, in order.
    pub fn process_all(&self) -> (r: Vec<StringMap>)
        ensures
            r@.len() == self.spec_tasks().len(),
            forall|i: int|
                0 <= i < r@.len() ==> (#[trigger] r@[i]).wf() && is_format_of(
                    r@[i]@,
                    self.spec_tasks()[i]@,
                ),
    {
        let mut filter = Some(|_t: &Task| -> bool { true });
        filter = None;
        let tasks = self.manager.get_tasks(filter);
        let mut out: Vec<StringMap> = Vec::new();
        let mut i: usize = 0;
        while i < tasks.len()
            invariant
                tasks@.len() == self.spec_tasks().len(),
                forall|j: int|
                    0 <= j < tasks@.len() ==> #[trigger] tasks@[j]@ == self.spec_tasks()[j]@,
                i <= tasks@.len(),
                out@.len() == i,
                forall|j: int|
                    0 <= j < i ==> (#[trigger] out@[j]).wf() && is_format_of(
                        out@[j]@,
                        self.spec_tasks()[j]@,
                    ),
            decreases tasks@.len() - i,
        {
            out.push(self.process_task(&tasks[i]));
            i = i + 1;
        }
        out
    }

    /// Renders the pending tasks of the manager, in order.
    pub fn process_pending(&self) -> (r: Vec<StringMap>)
        ensures
            r@.len() == kept_by_status(self.spec_tasks(), Status::Pending).len(),
            forall|i: int|
                0 <= i < r@.len() ==> (#[trigger] r@[i]).wf() && is_format_of(
                    r@[i]@,
                    kept_by_status(self.spec_tasks(), Status::Pending)[i]@,
                ),
    {
        let pending = |t: &Task| -> (b: bool)
            ensures
                b == (t.status == Status::Pending),
            { t.status == Status::Pending };
        let tasks = self.manager.get_tasks(Some(pending));
        proof {
            let dec = choose|dec: Seq<bool>|
                #![trigger mask_keep(self.spec_tasks(), dec)]
                dec.len() == self.spec_tasks().len() && (forall|i: int|
                    0 <= i < dec.len() ==> call_ensures(
                        pending,
                        (&self.spec_tasks()[i],),
                        #[trigger] dec[i],
                    )) && tasks@.len() == mask_keep(self.spec_tasks(), dec).len() && (forall|
                    i: int,
                |
                    0 <= i < tasks@.len() ==> #[trigger] tasks@[i]@ == mask_keep(
                        self.spec_tasks(),
                        dec,
                    )[i]@);
            assert forall|i: int| 0 <= i < self.spec_tasks().len() implies #[trigger] dec[i] == (
            self.spec_tasks()[i].status == Status::Pending) by {
                assert(call_ensures(pending, (&self.spec_tasks()[i],), dec[i]));
            }
            lemma_mask_is_status(self.spec_tasks(), dec, Status::Pending);
        }
        let mut out: Vec<StringMap> = Vec::new();
        let mut i: usize = 0;
        while i < tasks.len()
            invariant
                tasks@.len() == kept_by_status(self.spec_tasks(), Status::Pending).len(),
                forall|j: int|
                    0 <= j < tasks@.len() ==> #[trigger] tasks@[j]@ == kept_by_status(
                        self.spec_tasks(),
                        Status::Pending,
                    )[j]@,
                i <= tasks@.len(),
                out@.len() == i,
                forall|j: int|
                    0 <= j < i ==> (#[trigger] out@[j]).wf() && is_format_of(
                        out@[j]@,
                        kept_by_status(self.spec_tasks(), Status::Pending)[j]@,
                    ),
            decreases tasks@.len() - i,
        {
            out.push(self.process_task(&tasks[i]));
            i = i + 1;
        }
        out
    }

    /// Renders one task.
    fn process_task(&self, task: &Task) -> (r: StringMap)
        ensures
            r.wf(),
            is_format_of(r@, task@),
    {
        format_task(task)
    }
}

/// Masking by the decisions "status equals the given one" keeps exactly the
/// tasks of that status.
proof fn lemma_mask_is_status(s: Seq<Task>, dec: Seq<bool>, status: Status)
    requires
        dec.len() == s.len(),
        forall|i: int| 0 <= i < s.len() ==> #[trigger] dec[i] == (s[i].status == status),
    ensures
        mask_keep(s, dec) == kept_by_status(s, status),
    decreases s.len(),
{
    if s.len() > 0 {
        lemma_mask_is_status(s.drop_last(), dec.drop_last(), status);
        assert(dec.last() == (s.last().status == status));
    }
}

} // verus!
