//! Task list management

use crate::agent::{Agent, ChatListener, Tool};
use crate::clock::{local_now, tells_time};
use crate::line_format::ChatMessage;
use crate::string_map::{zipped, StringMap};
use crate::text::{
    debug_list, has_string, is_part_of, join, joins_hold_their_parts, lemma_part,
    lemma_part_of_part, lemma_part_of_sum, push_debug_strings, push_joined, push_shortened_quoted,
    quoted_all, shortened_quoted, texts, with_id,
};
use vstd::prelude::*;

verus! {

/// Task list; `P` is where it is stored
#[derive(Debug)]
pub struct TaskFile<P> {
    /// Path where to load/store the content
    path: P,
    /// Content of the list
    content: StringMap<Task>,
}

/// A task
#[derive(Debug)]
pub struct Task {
    /// LLM-settable fields
    pub settable: TaskSettable,
    /// When the task was first created
    pub created_at: String,
    /// When the task was last updated
    pub updated_at: String,
}

/// The part of a task that is LLM-settable
#[derive(Debug)]
pub struct TaskSettable {
    /// Task status
    pub status: TaskStatus,
    /// Task priority
    pub priority: TaskPriority,
    /// Ticket URLs
    pub tickets: StringMap<String>,
    /// What there is to do, keyed by keywords (to allow information to be added over time)
    pub description: StringMap<String>,
}

/// The task's status
#[derive(Clone, Copy, Debug, PartialEq, Eq, Structural)]
pub enum TaskStatus {
    /// Not currently active, but planned for later, at some point
    Backlog,
    /// Completely new on the list, needs triaging first
    NotYetTriaged,
    /// Currently being worked on
    InProgress,
    /// Used to be worked on, but currently blocked by something (reason goes into the description)
    Blocked,
}

/// The task's priority
#[derive(Clone, Copy, Debug, PartialEq, Eq, Structural)]
pub enum TaskPriority {
    /// Somewhere in the background, if there is time
    Low,
    /// Normal task priority
    Normal,
    /// Elevated priority, is needed soon
    High,
    /// Absolutely critical priority, trounces everything else
    Critical,
}

/// Add a task to the task list
#[derive(Debug)]
pub struct TaskAddParams {
    /// Meaningful ID to distinguish from other tasks
    pub id: String,
    /// Task to add
    pub task: TaskSettable,
}

/// Result of adding a new task
#[derive(Debug)]
pub struct TaskAddResult {
    /// ID of the new task
    pub id: String,
}

/// Remove a task from the task list
#[derive(Debug)]
pub struct TaskRemoveParams {
    /// ID of the task to remove
    pub id: String,
}

/// Result of removing a task
#[derive(Debug)]
pub struct TaskRemoveResult {
    /// ID of the removed task
    pub id: String,
}

/// Update/edit an existing task on the task list
#[derive(Debug)]
pub struct TaskUpdateParams {
    /// ID of the existing task on the list
    pub id: String,
    /// New task status; default is no change
    pub status: Option<TaskStatus>,
    /// New task priority; default is no change
    pub priority: Option<TaskPriority>,
    /// Tickets to add to the task (or specify nil to remove a ticket)
    pub tickets: StringMap<Option<String>>,
    /// Information to add to the task (or specify nil to remove a keyword)
    pub description: StringMap<Option<String>>,
}

/// Result of updating a task
#[derive(Debug)]
pub struct TaskUpdateResult {
    /// ID of the task that has been updated
    pub id: String,
}

/// Query tasks from the list of *all* tasks
#[derive(Debug)]
pub struct TaskQueryParams {
    /// Query specific task IDs
    pub ids: Option<Vec<String>>,
    /// List only tasks with one of these statuses
    pub status: Option<Vec<TaskStatus>>,
    /// List only tasks with at least this priority
    pub min_priority: Option<TaskPriority>,
}

/// Tasks on the task list, as requested
#[derive(Debug)]
pub struct TaskQueryResult<'a> {
    /// Matching tasks from the task list, with their IDs
    pub list: Vec<(&'a String, &'a Task)>,
}

/// The tool that adds tasks
#[derive(Clone, Copy, Debug)]
pub struct TaskAdd {}

/// The tool that removes tasks
#[derive(Clone, Copy, Debug)]
pub struct TaskRemove {}

/// The tool that updates tasks
#[derive(Clone, Copy, Debug)]
pub struct TaskUpdate {}

/// The tool that queries tasks
#[derive(Clone, Copy, Debug)]
pub struct TaskQuery {}

impl Default for TaskPriority {
    fn default() -> (r: Self)
        ensures
            r == TaskPriority::Normal,
    {
        TaskPriority::Normal
    }
}

/// The name of a status.
pub open spec fn status_text(status: TaskStatus) -> Seq<char> {
    match status {
        TaskStatus::Backlog => "Backlog"@,
        TaskStatus::NotYetTriaged => "NotYetTriaged"@,
        TaskStatus::InProgress => "InProgress"@,
        TaskStatus::Blocked => "Blocked"@,
    }
}

/// The name of a priority.
pub open spec fn priority_text(priority: TaskPriority) -> Seq<char> {
    match priority {
        TaskPriority::Low => "Low"@,
        TaskPriority::Normal => "Normal"@,
        TaskPriority::High => "High"@,
        TaskPriority::Critical => "Critical"@,
    }
}

/// The rank of a priority.
pub open spec fn rank_of(priority: TaskPriority) -> nat {
    match priority {
        TaskPriority::Low => 0,
        TaskPriority::Normal => 1,
        TaskPriority::High => 2,
        TaskPriority::Critical => 3,
    }
}

/// What is said of an ID that is taken.
pub open spec fn exists_text(id: Seq<char>) -> Seq<char> {
    "Task with ID "@ + id + " already exists in the task list"@
}

/// What is said of an ID that is not there.
pub open spec fn missing_text(id: Seq<char>) -> Seq<char> {
    "Task with ID "@ + id + " does not exist in the task list"@
}

/// Whether a task is active: not in the backlog, or critical.
pub open spec fn is_active(task: Task) -> bool {
    task.settable.status != TaskStatus::Backlog || task.settable.priority
        == TaskPriority::Critical
}

/// The entries of a list, one per line.
pub open spec fn list_lines(keys: Seq<Seq<char>>, values: Seq<String>) -> Seq<char>
    decreases keys.len(),
{
    if keys.len() == 0 {
        seq![]
    } else {
        list_lines(keys.drop_last(), values.drop_last()) + "    - "@ + keys.last() + ": "@
            + values.last()@ + "\n"@
    }
}

/// A list under its header, or a note that there is none.
pub open spec fn list_section(
    list: StringMap<String>,
    header: Seq<char>,
    inline_name: Seq<char>,
) -> Seq<char> {
    if list.keys().len() == 0 {
        "  - (does not have any "@ + inline_name + " yet)\n"@
    } else {
        "  - "@ + header + ":\n"@ + list_lines(list.keys(), list.values())
    }
}

/// A task in the list of active tasks.
pub open spec fn active_section(id: Seq<char>, task: Task) -> Seq<char> {
    "\n- '"@ + id + "' ("@ + status_text(task.settable.status) + ", "@ + priority_text(
        task.settable.priority,
    ) + " priority):\n"@ + list_section(
        task.settable.description,
        "Description"@,
        "description"@,
    ) + list_section(task.settable.tickets, "Tickets"@, "public tickets"@) + "  - Created: "@
        + task.created_at@ + "\n  - Last updated: "@ + task.updated_at@
}

/// The active tasks, one after the other.
pub open spec fn active_sections(ids: Seq<Seq<char>>, tasks: Seq<Task>) -> Seq<char>
    decreases ids.len(),
{
    if ids.len() == 0 {
        seq![]
    } else {
        active_sections(ids.drop_last(), tasks.drop_last()) + (if is_active(tasks.last()) {
            active_section(ids.last(), tasks.last())
        } else {
            seq![]
        })
    }
}

/// Whether any task is active.
pub open spec fn any_active(tasks: Seq<Task>) -> bool {
    exists|i: int| 0 <= i < tasks.len() && is_active(#[trigger] tasks[i])
}

/// What the model is told of the active tasks.
pub open spec fn active_text(ids: Seq<Seq<char>>, tasks: Seq<Task>) -> Seq<char> {
    if any_active(tasks) {
        "List of active tasks:"@ + active_sections(ids, tasks)
    } else {
        "(There are no active tasks.)"@
    }
}

/// A list after it was amended: keys with a value are set to it, keys without one are removed.
pub open spec fn amended(
    list: Map<Seq<char>, String>,
    amendment: Map<Seq<char>, Option<String>>,
) -> Map<Seq<char>, String> {
    Map::new(
        |k: Seq<char>|
            if amendment.contains_key(k) {
                amendment[k] is Some
            } else {
                list.contains_key(k)
            },
        |k: Seq<char>|
            if amendment.contains_key(k) {
                amendment[k].unwrap()
            } else {
                list[k]
            },
    )
}

/// Whether a task is as asked after an update, at whatever time that was.
pub open spec fn updated(before: Task, params: TaskUpdateParams, after: Task) -> bool {
    &&& after.settable.status == match params.status {
        Some(status) => status,
        None => before.settable.status,
    }
    &&& after.settable.priority == match params.priority {
        Some(priority) => priority,
        None => before.settable.priority,
    }
    &&& after.settable.tickets@ == amended(before.settable.tickets@, params.tickets@)
    &&& after.settable.description@ == amended(before.settable.description@, params.description@)
    &&& after.created_at == before.created_at
}

/// Whether a task is among the ones asked for.
pub open spec fn asked_for(params: TaskQueryParams, id: Seq<char>, task: Task) -> bool {
    &&& params.ids matches Some(ids) ==> texts(ids@).contains(id)
    &&& params.status matches Some(status) ==> status@.contains(task.settable.status)
    &&& params.min_priority matches Some(least) ==> rank_of(task.settable.priority) >= rank_of(
        least,
    )
}

/// The tasks that were asked for, with their IDs.
pub open spec fn matching(
    params: TaskQueryParams,
    ids: Seq<Seq<char>>,
    tasks: Seq<Task>,
) -> Seq<(Seq<char>, Task)>
    decreases ids.len(),
{
    if ids.len() == 0 {
        seq![]
    } else {
        let before = matching(params, ids.drop_last(), tasks.drop_last());
        if asked_for(params, ids.last(), tasks.last()) {
            before.push((ids.last(), tasks.last()))
        } else {
            before
        }
    }
}

/// The view of a list of tasks with their IDs.
pub open spec fn found_view<'a>(list: Seq<(&'a String, &'a Task)>) -> Seq<(Seq<char>, Task)> {
    Seq::new(list.len(), |i: int| (list[i].0@, *list[i].1))
}

/// A list of texts with their keys, as it is shown.
pub open spec fn pair_texts(keys: Seq<Seq<char>>, values: Seq<String>) -> Seq<Seq<char>> {
    Seq::new(keys.len(), |i: int| keys[i] + "="@ + shortened_quoted(values[i]@))
}

/// A list under its title, as it is shown.
pub open spec fn titled_list(title: Seq<char>, list: StringMap<String>) -> Seq<char> {
    " "@ + title + "=["@ + join(pair_texts(list.keys(), list.values()), ", "@) + "]"@
}

/// The settable part of a task, as it is shown.
pub open spec fn settable_text(task: TaskSettable) -> Seq<char> {
    "status="@ + status_text(task.status) + " prio="@ + priority_text(task.priority)
        + titled_list("tickets"@, task.tickets) + titled_list("desc"@, task.description)
}

/// A task, as it is shown.
pub open spec fn task_text(task: Task) -> Seq<char> {
    settable_text(task.settable) + " created_at="@ + task.created_at@ + " updated_at="@
        + task.updated_at@
}

/// The entries of an amendment, as they are shown. Nothing separates a key that is removed from
/// what follows.
pub open spec fn amendment_texts(keys: Seq<Seq<char>>, values: Seq<Option<String>>, last: int) -> Seq<
    char,
>
    decreases keys.len(),
{
    if keys.len() == 0 {
        seq![]
    } else {
        let i = keys.len() - 1;
        amendment_texts(keys.drop_last(), values.drop_last(), last) + keys.last() + "="@ + (
        match values.last() {
            Some(value) => shortened_quoted(value@) + (if i == last {
                seq![]
            } else {
                ", "@
            }),
            None => "nil"@,
        })
    }
}

/// An amendment under its title, as it is shown.
pub open spec fn titled_amendment(title: Seq<char>, list: StringMap<Option<String>>) -> Seq<char> {
    if list.keys().len() == 0 {
        seq![]
    } else {
        " "@ + title + "=["@ + amendment_texts(list.keys(), list.values(), list.keys().len() - 1)
            + "]"@
    }
}

/// The names of statuses.
pub open spec fn status_texts(status: Seq<TaskStatus>) -> Seq<Seq<char>> {
    status.map_values(|s: TaskStatus| status_text(s))
}

/// The conditions of a query, as they are shown.
pub open spec fn condition_texts(params: TaskQueryParams) -> Seq<Seq<char>> {
    (match params.ids {
        Some(ids) => seq!["id in "@ + debug_list(quoted_all(texts(ids@)))],
        None => seq![],
    }) + (match params.status {
        Some(status) => seq!["status in "@ + debug_list(status_texts(status@))],
        None => seq![],
    }) + (match params.min_priority {
        Some(least) => seq!["priority >= "@ + priority_text(least)],
        None => seq![],
    })
}

/// The tasks that were found, as they are shown.
pub open spec fn found_texts(list: Seq<(Seq<char>, Task)>) -> Seq<Seq<char>> {
    list.map_values(|t: (Seq<char>, Task)| t.0 + "={"@ + task_text(t.1) + "}"@)
}

impl TaskStatus {
    /// The name.
    pub fn name(&self) -> (r: &'static str)
        ensures
            r@ == status_text(*self),
    {
        match self {
            TaskStatus::Backlog => "Backlog",
            TaskStatus::NotYetTriaged => "NotYetTriaged",
            TaskStatus::InProgress => "InProgress",
            TaskStatus::Blocked => "Blocked",
        }
    }
}

impl TaskPriority {
    /// The name.
    pub fn name(&self) -> (r: &'static str)
        ensures
            r@ == priority_text(*self),
    {
        match self {
            TaskPriority::Low => "Low",
            TaskPriority::Normal => "Normal",
            TaskPriority::High => "High",
            TaskPriority::Critical => "Critical",
        }
    }

    /// The rank among the priorities.
    pub fn rank(&self) -> (r: u8)
        ensures
            r == rank_of(*self),
    {
        match self {
            TaskPriority::Low => 0,
            TaskPriority::Normal => 1,
            TaskPriority::High => 2,
            TaskPriority::Critical => 3,
        }
    }
}

/// Appends a list under its header.
fn push_section(out: &mut String, list: &StringMap<String>, header: &str, inline_name: &str)
    ensures
        final(out)@ == old(out)@ + list_section(*list, header@, inline_name@),
{
    let ghost start = out@;
    let count: usize = list.len();
    if count == 0 {
        out.append("  - (does not have any ");
        out.append(inline_name);
        out.append(" yet)\n");
        assert(out@ =~= start + list_section(*list, header@, inline_name@));
        return;
    }
    out.append("  - ");
    out.append(header);
    out.append(":\n");
    let ghost head = out@;
    let ghost keys = list.keys();
    let ghost values = list.values();
    proof {
        assert(head =~= start + ("  - "@ + header@ + ":\n"@));
        assert(keys.take(0) =~= seq![]);
        assert(out@ =~= head + list_lines(keys.take(0), values.take(0)));
    }
    for i in 0..count
        invariant
            count == keys.len(),
            keys == list.keys(),
            values == list.values(),
            values.len() == keys.len(),
            out@ == head + list_lines(keys.take(i as int), values.take(i as int)),
    {
        proof {
            assert(keys.take(i + 1).drop_last() =~= keys.take(i as int));
            assert(values.take(i + 1).drop_last() =~= values.take(i as int));
        }
        out.append("    - ");
        out.append(list.key_at(i).as_str());
        out.append(": ");
        out.append(list.value_at(i).as_str());
        out.append("\n");
        assert(out@ =~= head + list_lines(keys.take(i + 1), values.take(i + 1)));
    }
    proof {
        assert(keys.take(keys.len() as int) =~= keys);
        assert(values.take(values.len() as int) =~= values);
        assert(out@ =~= start + list_section(*list, header@, inline_name@));
    }
}

/// Appends a task of the list of active tasks.
fn push_active(out: &mut String, id: &str, task: &Task)
    ensures
        final(out)@ == old(out)@ + active_section(id@, *task),
{
    let ghost start = out@;
    out.append("\n- '");
    out.append(id);
    out.append("' (");
    out.append(task.settable.status.name());
    out.append(", ");
    out.append(task.settable.priority.name());
    out.append(" priority):\n");
    push_section(out, &task.settable.description, "Description", "description");
    push_section(out, &task.settable.tickets, "Tickets", "public tickets");
    out.append("  - Created: ");
    out.append(task.created_at.as_str());
    out.append("\n  - Last updated: ");
    out.append(task.updated_at.as_str());
    assert(out@ =~= start + active_section(id@, *task));
}

/// Amends a list.
fn amend(list: &mut StringMap<String>, amendment: StringMap<Option<String>>)
    ensures
        final(list)@ == amended(old(list)@, amendment@),
{
    let ghost start = list@;
    let ghost given = amendment@;
    let mut amendment = amendment;
    while amendment.len() > 0
        invariant
            forall|k: Seq<char>| #[trigger]
                amendment@.contains_key(k) ==> given.contains_key(k) && given[k] == amendment@[k],
            forall|k: Seq<char>| #[trigger]
                list@.contains_key(k) == (if given.contains_key(k) && !amendment@.contains_key(k) {
                    given[k] is Some
                } else {
                    start.contains_key(k)
                }),
            forall|k: Seq<char>| #[trigger]
                list@.contains_key(k) ==> list@[k] == (if given.contains_key(k)
                    && !amendment@.contains_key(k) {
                    given[k].unwrap()
                } else {
                    start[k]
                }),
        decreases amendment.keys().len(),
    {
        let key = amendment.key_at(0).clone();
        proof {
            assert(amendment.keys().contains(key@)) by {
                assert(amendment.keys()[0] == key@);
            }
        }
        match amendment.remove(key.as_str()) {
            Some(Some(value)) => {
                list.insert(key, value);
            },
            Some(None) => {
                list.remove(key.as_str());
            },
            None => {},
        }
    }
    proof {
        assert forall|k: Seq<char>| !(#[trigger] amendment@.contains_key(k)) by {
            if amendment.keys().contains(k) {
                let i = amendment.keys().index_of(k);
            }
        }
        assert(list@ =~= amended(start, given));
    }
}

impl<P> TaskFile<P> {
    /// The tasks by ID.
    pub closed spec fn tasks(&self) -> Map<Seq<char>, Task> {
        self.content@
    }

    /// The IDs, in the order in which the tasks were added.
    pub closed spec fn ids(&self) -> Seq<Seq<char>> {
        self.content.keys()
    }

    /// The tasks, in the order of their IDs.
    pub closed spec fn listed(&self) -> Seq<Task> {
        self.content.values()
    }

    /// Where the list is stored.
    pub closed spec fn place(&self) -> P {
        self.path
    }

    /// The task list with the given content, stored at `path`.
    pub fn open(path: P, content: StringMap<Task>) -> (r: Self)
        ensures
            r.place() == path,
            r.tasks() == content@,
            r.ids() == content.keys(),
            r.listed() == content.values(),
    {
        TaskFile { path, content }
    }

    /// Where the list is stored.
    pub fn path(&self) -> (r: &P)
        ensures
            *r == self.place(),
    {
        &self.path
    }

    /// What is to be stored.
    pub fn content(&self) -> (r: &StringMap<Task>)
        ensures
            r@ == self.tasks(),
            r.keys() == self.ids(),
            r.values() == self.listed(),
    {
        &self.content
    }

    /// Inject the list of active tasks as a system message
    ///
    /// This also includes critical backlog items.
    pub fn inject_active_tasks<L: ChatListener, T: Tool>(&self, agent: &mut Agent<L, T>)
        ensures
            final(agent).messages().len() == old(agent).messages().len() + 1,
            final(agent).messages().drop_last() == old(agent).messages(),
            final(agent).messages().last() matches ChatMessage::System(message)
                && message.content@ == active_text(self.ids(), self.listed()),
            L::heard(
                old(agent).listener(),
                final(agent).messages().last(),
                final(agent).listener(),
            ),
            final(agent).same_but_history(old(agent)),
    {
        let message = self.active_message();
        agent.push_system(message);
        assert(agent.messages().drop_last() =~= old(agent).messages());
    }

    /// What the model is told of the active tasks.
    #[verifier::spinoff_prover]
    fn active_message(&self) -> (r: String)
        ensures
            r@ == active_text(self.ids(), self.listed()),
    {
        let ghost ids = self.ids();
        let ghost tasks = self.listed();
        let mut message = String::new();
        message.append("List of active tasks:");
        let mut any = false;
        let count: usize = self.content.len();
        proof {
            assert(ids.take(0) =~= seq![]);
            assert(tasks.take(0) =~= seq![]);
            assert(message@ =~= "List of active tasks:"@ + active_sections(
                ids.take(0),
                tasks.take(0),
            ));
        }
        for i in 0..count
            invariant
                count == ids.len(),
                ids == self.content.keys(),
                tasks == self.content.values(),
                tasks.len() == ids.len(),
                any == any_active(tasks.take(i as int)),
                message@ == "List of active tasks:"@ + active_sections(
                    ids.take(i as int),
                    tasks.take(i as int),
                ),
        {
            let task = self.content.value_at(i);
            let ghost before = message@;
            proof {
                assert(ids.take(i + 1).drop_last() =~= ids.take(i as int));
                assert(tasks.take(i + 1).drop_last() =~= tasks.take(i as int));
                assert(tasks.take(i + 1).last() == *task);
            }
            let active = task.settable.status != TaskStatus::Backlog || task.settable.priority
                == TaskPriority::Critical;
            if active {
                push_active(&mut message, self.content.key_at(i).as_str(), task);
                any = true;
            }
            proof {
                if active {
                    assert(is_active(tasks.take(i + 1)[i as int]));
                } else if any_active(tasks.take(i + 1)) {
                    let j = choose|j: int|
                        0 <= j < tasks.take(i + 1).len() && is_active(
                            #[trigger] tasks.take(i + 1)[j],
                        );
                    assert(tasks.take(i as int)[j] == tasks.take(i + 1)[j]);
                }
                if any_active(tasks.take(i as int)) {
                    let j = choose|j: int|
                        0 <= j < tasks.take(i as int).len() && is_active(
                            #[trigger] tasks.take(i as int)[j],
                        );
                    assert(tasks.take(i + 1)[j] == tasks.take(i as int)[j]);
                }
                assert(message@ =~= "List of active tasks:"@ + active_sections(
                    ids.take(i + 1),
                    tasks.take(i + 1),
                ));
            }
        }
        proof {
            assert(ids.take(ids.len() as int) =~= ids);
            assert(tasks.take(tasks.len() as int) =~= tasks);
        }
        if any {
            message
        } else {
            "(There are no active tasks.)".to_string()
        }
    }
}

impl TaskAdd {
    /// Create a task_add tool.
    pub fn new() -> (r: Self)
        ensures
            r == (TaskAdd {  }),
    {
        TaskAdd {  }
    }

    /// Adds a task now, unless its ID is taken.
    pub fn execute<P>(&self, file: &mut TaskFile<P>, params: TaskAddParams) -> (r: Result<
        TaskAddResult,
        String,
    >)
        ensures
            final(file).place() == old(file).place(),
            if old(file).tasks().contains_key(params.id@) {
                &&& r matches Err(error) && error@ == exists_text(params.id@)
                &&& *final(file) == *old(file)
            } else {
                let task = final(file).tasks()[params.id@];
                &&& r == Ok::<TaskAddResult, String>(TaskAddResult { id: params.id })
                &&& final(file).tasks().contains_key(params.id@)
                &&& final(file).tasks().remove(params.id@) == old(file).tasks()
                &&& final(file).ids() == old(file).ids().push(params.id@)
                &&& task.settable == params.task
                &&& task.created_at@ == task.updated_at@
                &&& tells_time(task.created_at@)
            },
    {
        let now = local_now();
        self.execute_at(file, params, now.text.as_str())
    }

    /// Adds a task, unless its ID is taken. `now` is when that is.
    pub fn execute_at<P>(&self, file: &mut TaskFile<P>, params: TaskAddParams, now: &str) -> (r:
        Result<TaskAddResult, String>)
        ensures
            final(file).place() == old(file).place(),
            if old(file).tasks().contains_key(params.id@) {
                &&& r matches Err(error) && error@ == exists_text(params.id@)
                &&& *final(file) == *old(file)
            } else {
                &&& r == Ok::<TaskAddResult, String>(TaskAddResult { id: params.id })
                &&& final(file).tasks().contains_key(params.id@)
                &&& final(file).tasks().remove(params.id@) == old(file).tasks()
                &&& final(file).ids() == old(file).ids().push(params.id@)
                &&& final(file).tasks()[params.id@].settable == params.task
                &&& final(file).tasks()[params.id@].created_at@ == now@
                &&& final(file).tasks()[params.id@].updated_at@ == now@
            },
    {
        if file.content.contains_key(params.id.as_str()) {
            return Err(
                with_id(
                    "Task with ID ",
                    params.id.as_str(),
                    " already exists in the task list",
                ),
            );
        }
        let task = Task {
            settable: params.task,
            created_at: now.to_string(),
            updated_at: now.to_string(),
        };
        file.content.insert(params.id.clone(), task);
        assert(file.tasks().remove(params.id@) =~= old(file).tasks());
        Ok(TaskAddResult { id: params.id })
    }
}

impl TaskRemove {
    /// Create a task_remove tool.
    pub fn new() -> (r: Self)
        ensures
            r == (TaskRemove {  }),
    {
        TaskRemove {  }
    }

    /// Removes a task, if it is there.
    pub fn execute<P>(&self, file: &mut TaskFile<P>, params: TaskRemoveParams) -> (r: Result<
        TaskRemoveResult,
        String,
    >)
        ensures
            final(file).place() == old(file).place(),
            if old(file).tasks().contains_key(params.id@) {
                &&& r == Ok::<TaskRemoveResult, String>(TaskRemoveResult { id: params.id })
                &&& final(file).tasks() == old(file).tasks().remove(params.id@)
                &&& final(file).ids() == old(file).ids().remove(
                    old(file).ids().index_of(params.id@),
                )
            } else {
                &&& r matches Err(error) && error@ == missing_text(params.id@)
                &&& *final(file) == *old(file)
            },
    {
        if !file.content.contains_key(params.id.as_str()) {
            return Err(
                with_id(
                    "Task with ID ",
                    params.id.as_str(),
                    " does not exist in the task list",
                ),
            );
        }
        file.content.remove(params.id.as_str());
        Ok(TaskRemoveResult { id: params.id })
    }
}

/// A task that says nothing.
fn blank_task() -> (r: Task)
    ensures
        r.settable.tickets@ == Map::<Seq<char>, String>::empty(),
        r.settable.description@ == Map::<Seq<char>, String>::empty(),
{
    Task {
        settable: TaskSettable {
            status: TaskStatus::NotYetTriaged,
            priority: TaskPriority::Low,
            tickets: StringMap::new(),
            description: StringMap::new(),
        },
        created_at: String::new(),
        updated_at: String::new(),
    }
}

impl TaskUpdate {
    /// Create a task_update tool.
    pub fn new() -> (r: Self)
        ensures
            r == (TaskUpdate {  }),
    {
        TaskUpdate {  }
    }

    /// Updates what is given of a task now, if it is there.
    pub fn execute<P>(&self, file: &mut TaskFile<P>, params: TaskUpdateParams) -> (r: Result<
        TaskUpdateResult,
        String,
    >)
        ensures
            final(file).place() == old(file).place(),
            if old(file).tasks().contains_key(params.id@) {
                let after = final(file).tasks()[params.id@];
                &&& r == Ok::<TaskUpdateResult, String>(TaskUpdateResult { id: params.id })
                &&& final(file).tasks().contains_key(params.id@)
                &&& final(file).tasks().remove(params.id@) == old(file).tasks().remove(params.id@)
                &&& final(file).ids() == old(file).ids()
                &&& updated(old(file).tasks()[params.id@], params, after)
                &&& tells_time(after.updated_at@)
            } else {
                &&& r matches Err(error) && error@ == missing_text(params.id@)
                &&& *final(file) == *old(file)
            },
    {
        let now = local_now();
        self.execute_at(file, params, now.text.as_str())
    }

    /// Updates what is given of a task, if it is there. `now` is when that is.
    pub fn execute_at<P>(&self, file: &mut TaskFile<P>, params: TaskUpdateParams, now: &str) -> (r:
        Result<TaskUpdateResult, String>)
        ensures
            final(file).place() == old(file).place(),
            if old(file).tasks().contains_key(params.id@) {
                let after = final(file).tasks()[params.id@];
                &&& r == Ok::<TaskUpdateResult, String>(TaskUpdateResult { id: params.id })
                &&& final(file).tasks().contains_key(params.id@)
                &&& final(file).tasks().remove(params.id@) == old(file).tasks().remove(params.id@)
                &&& final(file).ids() == old(file).ids()
                &&& updated(old(file).tasks()[params.id@], params, after)
                &&& after.updated_at@ == now@
            } else {
                &&& r matches Err(error) && error@ == missing_text(params.id@)
                &&& *final(file) == *old(file)
            },
    {
        if !file.content.contains_key(params.id.as_str()) {
            return Err(
                with_id(
                    "Task with ID ",
                    params.id.as_str(),
                    " does not exist in the task list",
                ),
            );
        }
        // A blank task keeps the place of the one that is updated.
        match file.content.insert(params.id.clone(), blank_task()) {
            Some(mut task) => {
                match params.status {
                    Some(status) => {
                        task.settable.status = status;
                    },
                    None => {},
                }
                match params.priority {
                    Some(priority) => {
                        task.settable.priority = priority;
                    },
                    None => {},
                }
                amend(&mut task.settable.tickets, params.tickets);
                amend(&mut task.settable.description, params.description);
                task.updated_at = now.to_string();
                file.content.insert(params.id.clone(), task);
                assert(file.tasks().remove(params.id@) =~= old(file).tasks().remove(params.id@));
            },
            None => {},
        }
        Ok(TaskUpdateResult { id: params.id })
    }
}

/// Whether a list of statuses has a status.
fn has_status(list: &Vec<TaskStatus>, status: TaskStatus) -> (r: bool)
    ensures
        r == list@.contains(status),
{
    for i in 0..list.len()
        invariant
            forall|j: int| 0 <= j < i ==> list@[j] != status,
    {
        if list[i] == status {
            assert(list@[i as int] == status);
            return true;
        }
    }
    false
}

impl TaskQuery {
    /// Create a task_query tool.
    pub fn new() -> (r: Self)
        ensures
            r == (TaskQuery {  }),
    {
        TaskQuery {  }
    }

    /// Whether a task is among the ones asked for.
    fn matches(params: &TaskQueryParams, id: &str, task: &Task) -> (r: bool)
        ensures
            r == asked_for(*params, id@, *task),
    {
        match &params.ids {
            Some(ids) => {
                if !has_string(ids, id) {
                    return false;
                }
            },
            None => {},
        }
        match &params.status {
            Some(status) => {
                if !has_status(status, task.settable.status) {
                    return false;
                }
            },
            None => {},
        }
        match &params.min_priority {
            Some(least) => task.settable.priority.rank() >= least.rank(),
            None => true,
        }
    }

    /// The tasks that were asked for, in the order in which they were added.
    pub fn execute<'a, P>(&self, file: &'a TaskFile<P>, params: &TaskQueryParams) -> (r:
        TaskQueryResult<'a>)
        ensures
            found_view(r.list@) == matching(*params, file.ids(), file.listed()),
    {
        let ghost ids = file.ids();
        let ghost tasks = file.listed();
        let mut list: Vec<(&'a String, &'a Task)> = Vec::new();
        let count: usize = file.content.len();
        proof {
            assert(ids.take(0) =~= seq![]);
            assert(found_view(list@) =~= seq![]);
        }
        for i in 0..count
            invariant
                count == ids.len(),
                ids == file.content.keys(),
                tasks == file.content.values(),
                tasks.len() == ids.len(),
                found_view(list@) == matching(*params, ids.take(i as int), tasks.take(i as int)),
        {
            let id = file.content.key_at(i);
            let task = file.content.value_at(i);
            let ghost before = list@;
            proof {
                assert(ids.take(i + 1).drop_last() =~= ids.take(i as int));
                assert(tasks.take(i + 1).drop_last() =~= tasks.take(i as int));
                assert(ids.take(i + 1).last() == id@);
                assert(tasks.take(i + 1).last() == *task);
            }
            if Self::matches(params, id.as_str(), task) {
                list.push((id, task));
                assert(found_view(list@) =~= found_view(before).push((id@, *task)));
            }
        }
        proof {
            assert(ids.take(ids.len() as int) =~= ids);
            assert(tasks.take(tasks.len() as int) =~= tasks);
        }
        TaskQueryResult { list }
    }
}

/// Appends a list under its title.
fn push_titled_list(out: &mut String, title: &str, list: &StringMap<String>)
    ensures
        final(out)@ == old(out)@ + titled_list(title@, *list),
{
    let ghost start = out@;
    let ghost all = pair_texts(list.keys(), list.values());
    let mut parts: Vec<String> = Vec::new();
    let count: usize = list.len();
    assert(texts(parts@) =~= all.take(0));
    for i in 0..count
        invariant
            count == list.keys().len(),
            all == pair_texts(list.keys(), list.values()),
            texts(parts@) == all.take(i as int),
    {
        let mut part = list.key_at(i).clone();
        part.append("=");
        push_shortened_quoted(&mut part, list.value_at(i).as_str());
        let ghost before = parts@;
        parts.push(part);
        proof {
            assert(part@ =~= all[i as int]);
            assert(texts(parts@) =~= texts(before).push(part@));
            assert(texts(parts@) =~= all.take(i + 1));
        }
    }
    assert(all.take(all.len() as int) =~= all);
    out.append(" ");
    out.append(title);
    out.append("=[");
    push_joined(out, &parts, ", ");
    out.append("]");
    assert(out@ =~= start + titled_list(title@, *list));
}

impl TaskSettable {
    /// The task in a form for display.
    pub fn display(&self) -> (r: String)
        ensures
            r@ == settable_text(*self),
    {
        let mut out = String::new();
        out.append("status=");
        out.append(self.status.name());
        out.append(" prio=");
        out.append(self.priority.name());
        push_titled_list(&mut out, "tickets", &self.tickets);
        push_titled_list(&mut out, "desc", &self.description);
        assert(out@ =~= settable_text(*self));
        out
    }
}

impl Task {
    /// The task in a form for display.
    pub fn display(&self) -> (r: String)
        ensures
            r@ == task_text(*self),
    {
        let mut out = self.settable.display();
        out.append(" created_at=");
        out.append(self.created_at.as_str());
        out.append(" updated_at=");
        out.append(self.updated_at.as_str());
        assert(out@ =~= task_text(*self));
        out
    }
}

impl TaskAddParams {
    /// The parameters in a form for display.
    pub fn display(&self) -> (r: String)
        ensures
            r@ == "id="@ + self.id@ + " "@ + settable_text(self.task),
    {
        let mut out = with_id("id=", self.id.as_str(), " ");
        let task = self.task.display();
        out.append(task.as_str());
        out
    }
}

/// Appends an amendment under its title, if it has entries.
#[verifier::spinoff_prover]
fn push_titled_amendment(out: &mut String, title: &str, list: &StringMap<Option<String>>)
    ensures
        final(out)@ == old(out)@ + titled_amendment(title@, *list),
{
    let ghost start = out@;
    let count: usize = list.len();
    if count == 0 {
        assert(out@ =~= start + titled_amendment(title@, *list));
        return;
    }
    out.append(" ");
    out.append(title);
    out.append("=[");
    let ghost head = out@;
    let ghost keys = list.keys();
    let ghost values = list.values();
    proof {
        assert(head =~= start + (" "@ + title@ + "=["@));
        assert(keys.take(0) =~= seq![]);
        assert(out@ =~= head + amendment_texts(keys.take(0), values.take(0), count - 1));
    }
    for i in 0..count
        invariant
            count == keys.len(),
            keys == list.keys(),
            values == list.values(),
            values.len() == keys.len(),
            out@ == head + amendment_texts(
                keys.take(i as int),
                values.take(i as int),
                count - 1,
            ),
    {
        proof {
            assert(keys.take(i + 1).drop_last() =~= keys.take(i as int));
            assert(values.take(i + 1).drop_last() =~= values.take(i as int));
        }
        out.append(list.key_at(i).as_str());
        out.append("=");
        match list.value_at(i) {
            Some(value) => {
                push_shortened_quoted(out, value.as_str());
                if i != count - 1 {
                    out.append(", ");
                }
            },
            None => {
                out.append("nil");
            },
        }
        assert(out@ =~= head + amendment_texts(keys.take(i + 1), values.take(i + 1), count - 1));
    }
    out.append("]");
    proof {
        assert(keys.take(keys.len() as int) =~= keys);
        assert(values.take(values.len() as int) =~= values);
        assert(out@ =~= start + titled_amendment(title@, *list));
    }
}

impl TaskUpdateParams {
    /// The parameters in a form for display.
    pub fn display(&self) -> (r: String)
        ensures
            r@ == "id="@ + self.id@ + (match self.status {
                Some(status) => " status="@ + status_text(status),
                None => seq![],
            }) + (match self.priority {
                Some(priority) => " prio="@ + priority_text(priority),
                None => seq![],
            }) + titled_amendment("tickets"@, self.tickets) + titled_amendment(
                "desc"@,
                self.description,
            ),
    {
        let mut out = String::new();
        out.append("id=");
        out.append(self.id.as_str());
        match &self.status {
            Some(status) => {
                out.append(" status=");
                out.append(status.name());
            },
            None => {},
        }
        match &self.priority {
            Some(priority) => {
                out.append(" prio=");
                out.append(priority.name());
            },
            None => {},
        }
        let ghost head = "id="@ + self.id@ + (match self.status {
            Some(status) => " status="@ + status_text(status),
            None => seq![],
        }) + (match self.priority {
            Some(priority) => " prio="@ + priority_text(priority),
            None => seq![],
        });
        assert(out@ =~= head);
        push_titled_amendment(&mut out, "tickets", &self.tickets);
        push_titled_amendment(&mut out, "desc", &self.description);
        out
    }
}

impl TaskQueryParams {
    /// The parameters in a form for display.
    pub fn display(&self) -> (r: String)
        ensures
            r@ == join(condition_texts(*self), "; "@),
    {
        let mut parts: Vec<String> = Vec::new();
        let ghost all = condition_texts(*self);
        match &self.ids {
            Some(ids) => {
                let mut part = String::new();
                part.append("id in ");
                push_debug_strings(&mut part, ids);
                assert(part@ =~= "id in "@ + debug_list(quoted_all(texts(ids@))));
                parts.push(part);
            },
            None => {},
        }
        match &self.status {
            Some(status) => {
                let mut names: Vec<String> = Vec::new();
                for i in 0..status.len()
                    invariant
                        texts(names@) == status_texts(status@.take(i as int)),
                {
                    let name = status[i].name().to_string();
                    let ghost before = names@;
                    names.push(name);
                    proof {
                        assert(texts(names@) =~= texts(before).push(name@));
                        assert(status@.take(i + 1) =~= status@.take(i as int).push(
                            status@[i as int],
                        ));
                        assert(texts(names@) =~= status_texts(status@.take(i + 1)));
                    }
                }
                assert(status@.take(status@.len() as int) =~= status@);
                let mut part = String::new();
                part.append("status in [");
                push_joined(&mut part, &names, ", ");
                part.append("]");
                proof {
                    reveal_strlit("status in [");
                    reveal_strlit("status in ");
                    reveal_strlit("[");
                    assert("status in ["@ =~= "status in "@ + "["@);
                    assert(part@ =~= "status in "@ + debug_list(status_texts(status@)));
                }
                parts.push(part);
            },
            None => {},
        }
        match &self.min_priority {
            Some(least) => {
                let mut part = String::new();
                part.append("priority >= ");
                part.append(least.name());
                assert(part@ =~= "priority >= "@ + priority_text(*least));
                parts.push(part);
            },
            None => {},
        }
        assert(texts(parts@) =~= all);
        let mut out = String::new();
        push_joined(&mut out, &parts, "; ");
        assert(out@ =~= join(all, "; "@));
        out
    }
}

impl<'a> TaskQueryResult<'a> {
    /// The tasks in a form for display.
    pub fn display(&self) -> (r: String)
        ensures
            r@ == join(found_texts(found_view(self.list@)), "; "@),
    {
        let ghost all = found_texts(found_view(self.list@));
        let mut parts: Vec<String> = Vec::new();
        assert(texts(parts@) =~= all.take(0));
        for i in 0..self.list.len()
            invariant
                all == found_texts(found_view(self.list@)),
                texts(parts@) == all.take(i as int),
        {
            let (id, task) = self.list[i];
            let mut part = id.clone();
            part.append("={");
            let shown = task.display();
            part.append(shown.as_str());
            part.append("}");
            let ghost before = parts@;
            parts.push(part);
            proof {
                assert(part@ =~= all[i as int]);
                assert(texts(parts@) =~= texts(before).push(part@));
                assert(texts(parts@) =~= all.take(i + 1));
            }
        }
        assert(all.take(all.len() as int) =~= all);
        let mut out = String::new();
        push_joined(&mut out, &parts, "; ");
        assert(out@ =~= join(all, "; "@));
        out
    }
}

/// An amendment touches only the keys that it names.
pub proof fn amendments_touch_only_their_keys(
    list: Map<Seq<char>, String>,
    amendment: Map<Seq<char>, Option<String>>,
    key: Seq<char>,
)
    requires
        !amendment.contains_key(key),
    ensures
        amended(list, amendment).contains_key(key) == list.contains_key(key),
        list.contains_key(key) ==> amended(list, amendment)[key] == list[key],
{
}

/// Amending twice in the same way is amending once.
pub proof fn amending_again_changes_nothing(
    list: Map<Seq<char>, String>,
    amendment: Map<Seq<char>, Option<String>>,
)
    ensures
        amended(amended(list, amendment), amendment) == amended(list, amendment),
{
    assert(amended(amended(list, amendment), amendment) =~= amended(list, amendment));
}

/// The tasks in their order are the tasks by ID: each ID has the task that stands at its place.
pub proof fn listed_tasks_are_the_tasks<P>(file: TaskFile<P>)
    ensures
        file.tasks() == zipped(file.ids(), file.listed()),
{
}

/// A query without conditions gives all tasks.
pub proof fn unconditional_queries_give_all_tasks(ids: Seq<Seq<char>>, tasks: Seq<Task>)
    requires
        ids.len() == tasks.len(),
    ensures
        ({
            let all = TaskQueryParams { ids: None, status: None, min_priority: None };
            &&& matching(all, ids, tasks).len() == tasks.len()
            &&& forall|i: int|
                0 <= i < tasks.len() ==> #[trigger] matching(all, ids, tasks)[i] == (
                    ids[i],
                    tasks[i],
                )
        }),
    decreases ids.len(),
{
    let all = TaskQueryParams { ids: None, status: None, min_priority: None };
    if ids.len() > 0 {
        unconditional_queries_give_all_tasks(ids.drop_last(), tasks.drop_last());
        let before = matching(all, ids.drop_last(), tasks.drop_last());
        assert forall|i: int| 0 <= i < tasks.len() implies #[trigger] matching(all, ids, tasks)[i]
            == (ids[i], tasks[i]) by {
            if i < tasks.len() - 1 {
                assert(matching(all, ids, tasks)[i] == before[i]);
            }
        }
    }
}

/// Whether a priority is at least another: low comes before normal, normal before high, and high
/// before critical.
pub open spec fn at_least(priority: TaskPriority, least: TaskPriority) -> bool {
    match least {
        TaskPriority::Low => true,
        TaskPriority::Normal => priority != TaskPriority::Low,
        TaskPriority::High => priority == TaskPriority::High || priority == TaskPriority::Critical,
        TaskPriority::Critical => priority == TaskPriority::Critical,
    }
}

/// What a query finds: the tasks on the list that have one of the IDs, one of the statuses and at
/// least the priority that it asks for, as far as it asks for them.
pub proof fn queries_find_what_they_ask_for(
    params: TaskQueryParams,
    ids: Seq<Seq<char>>,
    tasks: Seq<Task>,
    i: int,
)
    requires
        ids.len() == tasks.len(),
        0 <= i < ids.len(),
    ensures
        matching(params, ids, tasks).contains((ids[i], tasks[i])) <==> {
            &&& params.ids is Some ==> exists|j: int|
                0 <= j < params.ids->0@.len() && (#[trigger] params.ids->0@[j])@ == ids[i]
            &&& params.status is Some ==> exists|j: int|
                0 <= j < params.status->0@.len() && #[trigger] params.status->0@[j]
                    == tasks[i].settable.status
            &&& params.min_priority is Some ==> at_least(
                tasks[i].settable.priority,
                params.min_priority->0,
            )
        },
{
    let id = ids[i];
    let task = tasks[i];
    if matching(params, ids, tasks).contains((id, task)) {
        lemma_found_is_asked_for(params, ids, tasks, (id, task));
    }
    if asked_for(params, id, task) {
        lemma_asked_for_is_found(params, ids, tasks, i);
        if params.ids is Some {
            let asked = texts(params.ids->0@);
            let j = asked.index_of(id);
            assert(asked[j] == id);
            assert(params.ids->0@[j]@ == id);
        }
        if params.status is Some {
            let j = params.status->0@.index_of(task.settable.status);
            assert(params.status->0@[j] == task.settable.status);
        }
    }
    if params.ids is Some && exists|j: int|
        0 <= j < params.ids->0@.len() && (#[trigger] params.ids->0@[j])@ == id {
        let j = choose|j: int|
            0 <= j < params.ids->0@.len() && (#[trigger] params.ids->0@[j])@ == id;
        assert(texts(params.ids->0@)[j] == id);
        assert(texts(params.ids->0@).contains(id));
    }
}

/// What a query finds is on the list, and asked for.
proof fn lemma_found_is_asked_for(
    params: TaskQueryParams,
    ids: Seq<Seq<char>>,
    tasks: Seq<Task>,
    item: (Seq<char>, Task),
)
    requires
        matching(params, ids, tasks).contains(item),
    ensures
        asked_for(params, item.0, item.1),
    decreases ids.len(),
{
    if ids.len() > 0 {
        let before = matching(params, ids.drop_last(), tasks.drop_last());
        let result = matching(params, ids, tasks);
        let i = result.index_of(item);
        assert(result[i] == item);
        if i < before.len() {
            assert(before[i] == item);
            lemma_found_is_asked_for(params, ids.drop_last(), tasks.drop_last(), item);
        }
    }
}

/// What is on the list and asked for is found.
proof fn lemma_asked_for_is_found(
    params: TaskQueryParams,
    ids: Seq<Seq<char>>,
    tasks: Seq<Task>,
    i: int,
)
    requires
        ids.len() == tasks.len(),
        0 <= i < ids.len(),
        asked_for(params, ids[i], tasks[i]),
    ensures
        matching(params, ids, tasks).contains((ids[i], tasks[i])),
    decreases ids.len(),
{
    let before = matching(params, ids.drop_last(), tasks.drop_last());
    let result = matching(params, ids, tasks);
    if i == ids.len() - 1 {
        assert(result[result.len() - 1] == (ids[i], tasks[i]));
    } else {
        lemma_asked_for_is_found(params, ids.drop_last(), tasks.drop_last(), i);
        let j = before.index_of((ids[i], tasks[i]));
        assert(result[j] == before[j]);
    }
}

/// A query by priority alone finds a task exactly if its priority is at least the one asked for. So
/// critical tasks are found whatever the minimum is, all tasks are where it is low, and what is
/// found for a higher minimum is found for a lower one too.
pub proof fn queries_by_priority(
    least: TaskPriority,
    lower: TaskPriority,
    ids: Seq<Seq<char>>,
    tasks: Seq<Task>,
    i: int,
)
    requires
        ids.len() == tasks.len(),
        0 <= i < ids.len(),
        at_least(least, lower),
    ensures
        ({
            let high = TaskQueryParams { ids: None, status: None, min_priority: Some(least) };
            let low = TaskQueryParams { ids: None, status: None, min_priority: Some(lower) };
            let item = (ids[i], tasks[i]);
            let found = matching(high, ids, tasks).contains(item);
            &&& found <==> at_least(tasks[i].settable.priority, least)
            &&& tasks[i].settable.priority == TaskPriority::Critical ==> found
            &&& least == TaskPriority::Low ==> found
            &&& tasks[i].settable.priority == least ==> found
            &&& found ==> matching(low, ids, tasks).contains(item)
        }),
{
    let high = TaskQueryParams { ids: None, status: None, min_priority: Some(least) };
    let low = TaskQueryParams { ids: None, status: None, min_priority: Some(lower) };
    queries_find_what_they_ask_for(high, ids, tasks, i);
    queries_find_what_they_ask_for(low, ids, tasks, i);
}

/// A query gives the tasks that it finds in the order in which they are on the list, each once: what
/// it gives for a list is what it gives for the first part of it and then what it gives for the
/// rest.
pub proof fn queries_keep_the_order(
    params: TaskQueryParams,
    ids: Seq<Seq<char>>,
    tasks: Seq<Task>,
    more_ids: Seq<Seq<char>>,
    more_tasks: Seq<Task>,
)
    requires
        ids.len() == tasks.len(),
        more_ids.len() == more_tasks.len(),
    ensures
        matching(params, ids + more_ids, tasks + more_tasks) == matching(params, ids, tasks)
            + matching(params, more_ids, more_tasks),
        matching(params, more_ids, more_tasks).len() <= more_ids.len(),
    decreases more_ids.len(),
{
    let first = matching(params, ids, tasks);
    if more_ids.len() == 0 {
        assert(ids + more_ids =~= ids);
        assert(tasks + more_tasks =~= tasks);
        assert(first + matching(params, more_ids, more_tasks) =~= first);
    } else {
        queries_keep_the_order(
            params,
            ids,
            tasks,
            more_ids.drop_last(),
            more_tasks.drop_last(),
        );
        assert((ids + more_ids).drop_last() =~= ids + more_ids.drop_last());
        assert((tasks + more_tasks).drop_last() =~= tasks + more_tasks.drop_last());
        assert(matching(params, ids + more_ids, tasks + more_tasks) =~= first + matching(
            params,
            more_ids,
            more_tasks,
        ));
    }
}

/// The list of active tasks has the sections of the tasks that are not yet triaged, in progress or
/// blocked, whatever their priority, and of those in the backlog that are critical. It has them in
/// the order of the tasks, and nothing of other tasks.
pub proof fn active_tasks_have_their_sections(
    ids: Seq<Seq<char>>,
    tasks: Seq<Task>,
    id: Seq<char>,
    task: Task,
    more_ids: Seq<Seq<char>>,
    more_tasks: Seq<Task>,
)
    requires
        ids.len() == tasks.len(),
        more_ids.len() == more_tasks.len(),
    ensures
        ({
            let shown = match task.settable.status {
                TaskStatus::NotYetTriaged => true,
                TaskStatus::InProgress => true,
                TaskStatus::Blocked => true,
                TaskStatus::Backlog => task.settable.priority == TaskPriority::Critical,
            };
            let all_ids = ids.push(id) + more_ids;
            let all_tasks = tasks.push(task) + more_tasks;
            let text = active_text(all_ids, all_tasks);
            &&& shown ==> text == "List of active tasks:"@ + active_sections(ids, tasks)
                + active_section(id, task) + active_sections(more_ids, more_tasks)
            &&& shown ==> is_part_of(active_section(id, task), text)
            &&& !shown ==> text == active_text(ids + more_ids, tasks + more_tasks)
        }),
{
    let all_ids = ids.push(id) + more_ids;
    let all_tasks = tasks.push(task) + more_tasks;
    let text = active_text(all_ids, all_tasks);
    lemma_sections_add(ids.push(id), tasks.push(task), more_ids, more_tasks);
    lemma_sections_add(ids, tasks, more_ids, more_tasks);
    assert(ids.push(id).drop_last() =~= ids);
    assert(tasks.push(task).drop_last() =~= tasks);
    let head = "List of active tasks:"@ + active_sections(ids, tasks);
    let tail = active_sections(more_ids, more_tasks);
    if is_active(task) {
        assert(all_tasks[tasks.len() as int] == task);
        assert(any_active(all_tasks));
        assert(text =~= head + active_section(id, task) + tail);
        lemma_part(head, active_section(id, task), tail);
    } else {
        let others = tasks + more_tasks;
        assert(active_sections(ids, tasks) + seq![] =~= active_sections(ids, tasks));
        if any_active(all_tasks) {
            let i = choose|i: int| 0 <= i < all_tasks.len() && is_active(#[trigger] all_tasks[i]);
            let j = if i < tasks.len() {
                i
            } else {
                i - 1
            };
            assert(others[j] == all_tasks[i]);
        }
        if any_active(others) {
            let i = choose|i: int| 0 <= i < others.len() && is_active(#[trigger] others[i]);
            let j = if i < tasks.len() {
                i
            } else {
                i + 1
            };
            assert(all_tasks[j] == others[i]);
        }
        assert(text =~= active_text(ids + more_ids, others));
    }
}

/// The sections of a list of tasks that is made of two.
proof fn lemma_sections_add(
    ids: Seq<Seq<char>>,
    tasks: Seq<Task>,
    more_ids: Seq<Seq<char>>,
    more_tasks: Seq<Task>,
)
    requires
        ids.len() == tasks.len(),
        more_ids.len() == more_tasks.len(),
    ensures
        active_sections(ids + more_ids, tasks + more_tasks) == active_sections(ids, tasks)
            + active_sections(more_ids, more_tasks),
    decreases more_ids.len(),
{
    if more_ids.len() == 0 {
        assert(ids + more_ids =~= ids);
        assert(tasks + more_tasks =~= tasks);
        assert(active_sections(ids, tasks) + active_sections(more_ids, more_tasks)
            =~= active_sections(ids, tasks));
    } else {
        lemma_sections_add(ids, tasks, more_ids.drop_last(), more_tasks.drop_last());
        assert((ids + more_ids).drop_last() =~= ids + more_ids.drop_last());
        assert((tasks + more_tasks).drop_last() =~= tasks + more_tasks.drop_last());
        assert(active_sections(ids + more_ids, tasks + more_tasks) =~= active_sections(ids, tasks)
            + active_sections(more_ids, more_tasks));
    }
}

/// It is said that there are no active tasks exactly if all are in the backlog and none is critical.
pub proof fn no_tasks_are_active_in_the_backlog(ids: Seq<Seq<char>>, tasks: Seq<Task>)
    ensures
        (forall|i: int|
            0 <= i < tasks.len() ==> (#[trigger] tasks[i]).settable.status == TaskStatus::Backlog
                && tasks[i].settable.priority != TaskPriority::Critical) ==> active_text(ids, tasks)
            == "(There are no active tasks.)"@,
        (exists|i: int|
            0 <= i < tasks.len() && ((#[trigger] tasks[i]).settable.status != TaskStatus::Backlog
                || tasks[i].settable.priority == TaskPriority::Critical))
            ==> "List of active tasks:"@.is_prefix_of(active_text(ids, tasks)),
{
    if exists|i: int|
        0 <= i < tasks.len() && ((#[trigger] tasks[i]).settable.status != TaskStatus::Backlog
            || tasks[i].settable.priority == TaskPriority::Critical) {
        let i = choose|i: int|
            0 <= i < tasks.len() && ((#[trigger] tasks[i]).settable.status != TaskStatus::Backlog
                || tasks[i].settable.priority == TaskPriority::Critical);
        assert(is_active(tasks[i]));
        let head = "List of active tasks:"@;
        assert(head =~= active_text(ids, tasks).take(head.len() as int));
    }
}

/// The section of a task tells its ID, its status, its priority, when it was created and last
/// updated, and each entry of its description and each of its tickets.
pub proof fn sections_tell_all_of_a_task(id: Seq<char>, task: Task, i: int)
    ensures
        ({
            let section = active_section(id, task);
            let description = task.settable.description;
            let tickets = task.settable.tickets;
            &&& is_part_of(
                "'"@ + id + "' ("@ + status_text(task.settable.status) + ", "@ + priority_text(
                    task.settable.priority,
                ) + " priority)"@,
                section,
            )
            &&& is_part_of("Created: "@ + task.created_at@, section)
            &&& is_part_of("Last updated: "@ + task.updated_at@, section)
            &&& 0 <= i < description.keys().len() && description.keys().len()
                == description.values().len() ==> is_part_of(
                "- "@ + description.keys()[i] + ": "@ + description.values()[i]@ + "\n"@,
                section,
            )
            &&& 0 <= i < tickets.keys().len() && tickets.keys().len() == tickets.values().len()
                ==> is_part_of(
                "- "@ + tickets.keys()[i] + ": "@ + tickets.values()[i]@ + "\n"@,
                section,
            )
        }),
{
    let section = active_section(id, task);
    let description = task.settable.description;
    let tickets = task.settable.tickets;
    let named = "'"@ + id + "' ("@ + status_text(task.settable.status) + ", "@ + priority_text(
        task.settable.priority,
    ) + " priority)"@;
    reveal_strlit("\n- '");
    reveal_strlit("'");
    reveal_strlit(" priority):\n");
    reveal_strlit(" priority)");
    reveal_strlit("  - Created: ");
    reveal_strlit("Created: ");
    reveal_strlit("\n  - Last updated: ");
    reveal_strlit("Last updated: ");
    let a = list_section(description, "Description"@, "description"@);
    let b = list_section(tickets, "Tickets"@, "public tickets"@);
    let dash: Seq<char> = seq!['\n', '-', ' '];
    let colon: Seq<char> = seq![':', '\n'];
    let created = "  - Created: "@ + task.created_at@;
    let changed = "\n  - Last updated: "@ + task.updated_at@;
    assert(section =~= dash + named + (colon + a + b + created + changed));
    lemma_part(dash, named, colon + a + b + created + changed);
    let head = dash + named + colon;
    let item: Seq<char> = seq![' ', ' ', '-', ' '];
    let last: Seq<char> = seq!['\n', ' ', ' ', '-', ' '];
    let none: Seq<char> = seq![];
    assert(section =~= (head + a + b + item) + ("Created: "@ + task.created_at@) + changed);
    lemma_part(head + a + b + item, "Created: "@ + task.created_at@, changed);
    assert(section =~= (head + a + b + created + last) + ("Last updated: "@ + task.updated_at@)
        + none);
    lemma_part(head + a + b + created + last, "Last updated: "@ + task.updated_at@, none);
    assert(section =~= head + a + (b + created + changed));
    lemma_part(head, a, b + created + changed);
    assert(section =~= (head + a) + b + (created + changed));
    lemma_part(head + a, b, created + changed);
    if 0 <= i < description.keys().len() && description.keys().len()
        == description.values().len() {
        lemma_list_section(description, "Description"@, "description"@, i);
        lemma_part_of_part(
            "- "@ + description.keys()[i] + ": "@ + description.values()[i]@ + "\n"@,
            a,
            section,
        );
    }
    if 0 <= i < tickets.keys().len() && tickets.keys().len() == tickets.values().len() {
        lemma_list_section(tickets, "Tickets"@, "public tickets"@, i);
        lemma_part_of_part(
            "- "@ + tickets.keys()[i] + ": "@ + tickets.values()[i]@ + "\n"@,
            b,
            section,
        );
    }
}

/// An entry of a list under its header.
proof fn lemma_list_section(
    list: StringMap<String>,
    header: Seq<char>,
    inline_name: Seq<char>,
    i: int,
)
    requires
        0 <= i < list.keys().len(),
        list.keys().len() == list.values().len(),
    ensures
        is_part_of(
            "- "@ + list.keys()[i] + ": "@ + list.values()[i]@ + "\n"@,
            list_section(list, header, inline_name),
        ),
{
    let line = "- "@ + list.keys()[i] + ": "@ + list.values()[i]@ + "\n"@;
    lemma_list_lines(list.keys(), list.values(), i);
    lemma_part_of_sum(
        line,
        "  - "@ + header + ":\n"@,
        list_lines(list.keys(), list.values()),
    );
}

/// An entry of a list.
proof fn lemma_list_lines(keys: Seq<Seq<char>>, values: Seq<String>, i: int)
    requires
        0 <= i < keys.len(),
        keys.len() == values.len(),
    ensures
        is_part_of("- "@ + keys[i] + ": "@ + values[i]@ + "\n"@, list_lines(keys, values)),
    decreases keys.len(),
{
    let line = "- "@ + keys[i] + ": "@ + values[i]@ + "\n"@;
    let before = list_lines(keys.drop_last(), values.drop_last());
    let own = "    - "@ + keys.last() + ": "@ + values.last()@ + "\n"@;
    assert(list_lines(keys, values) =~= before + own);
    if i == keys.len() - 1 {
        reveal_strlit("    - ");
        reveal_strlit("- ");
        let indent: Seq<char> = seq![' ', ' ', ' ', ' '];
        let none: Seq<char> = seq![];
        assert(own =~= indent + line + none);
        lemma_part(indent, line, none);
    } else {
        lemma_list_lines(keys.drop_last(), values.drop_last(), i);
    }
    lemma_part_of_sum(line, before, own);
}

/// Statuses and priorities go by their names, each by its own.
pub proof fn names_tell_apart(a: TaskStatus, b: TaskStatus, p: TaskPriority, q: TaskPriority)
    ensures
        status_text(a) == status_text(b) <==> a == b,
        priority_text(p) == priority_text(q) <==> p == q,
        status_text(TaskStatus::Backlog) == "Backlog"@,
        status_text(TaskStatus::InProgress) == "InProgress"@,
        status_text(TaskStatus::Blocked) == "Blocked"@,
        priority_text(TaskPriority::Low) == "Low"@,
        priority_text(TaskPriority::Normal) == "Normal"@,
        priority_text(TaskPriority::High) == "High"@,
{
    reveal_strlit("Backlog");
    reveal_strlit("NotYetTriaged");
    reveal_strlit("InProgress");
    reveal_strlit("Blocked");
    reveal_strlit("Low");
    reveal_strlit("Normal");
    reveal_strlit("High");
    reveal_strlit("Critical");
    assert("Backlog"@[1] == 'a' && "Blocked"@[1] == 'l');
    assert("Backlog"@.len() == 7 && "Blocked"@.len() == 7 && "NotYetTriaged"@.len() == 13
        && "InProgress"@.len() == 10);
    assert("Low"@.len() == 3 && "Normal"@.len() == 6 && "High"@.len() == 4 && "Critical"@.len()
        == 8);
}

/// An amendment sets the keys that it has a value for to that value, and removes those that it has
/// none for.
pub proof fn amendments_set_and_remove(
    list: Map<Seq<char>, String>,
    amendment: Map<Seq<char>, Option<String>>,
    key: Seq<char>,
)
    requires
        amendment.contains_key(key),
    ensures
        amended(list, amendment).contains_key(key) <==> amendment[key] is Some,
        amendment[key] is Some ==> amended(list, amendment)[key] == amendment[key]->0,
{
}

/// An update sets the status and the priority that are given, keeps those that are not, amends the
/// tickets and the description, and leaves the time of creation.
pub proof fn updates_change_what_they_say(before: Task, params: TaskUpdateParams, after: Task)
    requires
        updated(before, params, after),
    ensures
        params.status is Some ==> after.settable.status == params.status->0,
        params.status is None ==> after.settable.status == before.settable.status,
        params.priority is Some ==> after.settable.priority == params.priority->0,
        params.priority is None ==> after.settable.priority == before.settable.priority,
        after.created_at == before.created_at,
        forall|key: Seq<char>| #[trigger]
            params.tickets@.contains_key(key) ==> after.settable.tickets@.contains_key(key) == (
            params.tickets@[key] is Some) && (params.tickets@[key] is Some
                ==> after.settable.tickets@[key] == params.tickets@[key]->0),
        forall|key: Seq<char>|
            !(#[trigger] params.tickets@.contains_key(key)) ==> after.settable.tickets@.contains_key(
                key,
            ) == before.settable.tickets@.contains_key(key) && (
            before.settable.tickets@.contains_key(key) ==> after.settable.tickets@[key]
                == before.settable.tickets@[key]),
        forall|key: Seq<char>| #[trigger]
            params.description@.contains_key(key) ==> after.settable.description@.contains_key(key)
                == (params.description@[key] is Some) && (params.description@[key] is Some
                ==> after.settable.description@[key] == params.description@[key]->0),
        forall|key: Seq<char>|
            !(#[trigger] params.description@.contains_key(key))
                ==> after.settable.description@.contains_key(key)
                == before.settable.description@.contains_key(key) && (
            before.settable.description@.contains_key(key) ==> after.settable.description@[key]
                == before.settable.description@[key]),
{
}

/// What is shown of a list tells each of its entries.
pub proof fn shown_lists_tell_their_entries(title: Seq<char>, list: StringMap<String>, i: int)
    requires
        0 <= i < list.keys().len(),
    ensures
        is_part_of(
            list.keys()[i] + "="@ + shortened_quoted(list.values()[i]@),
            titled_list(title, list),
        ),
        is_part_of(title + "=["@, titled_list(title, list)),
{
    let parts = pair_texts(list.keys(), list.values());
    let all = join(parts, ", "@);
    joins_hold_their_parts(parts, ", "@, i);
    lemma_part(" "@ + title + "=["@, all, "]"@);
    lemma_part_of_part(parts[i], all, titled_list(title, list));
    assert(titled_list(title, list) =~= " "@ + (title + "=["@) + (all + "]"@));
    lemma_part(" "@, title + "=["@, all + "]"@);
}

/// What is shown of a task tells its status, its priority, its tickets and its description, and when
/// it was created and updated.
pub proof fn shown_tasks_tell_all(task: Task)
    ensures
        ({
            let shown = task_text(task);
            let settable = settable_text(task.settable);
            &&& settable.is_prefix_of(shown)
            &&& is_part_of("status="@ + status_text(task.settable.status) + " prio="@, settable)
            &&& is_part_of("prio="@ + priority_text(task.settable.priority) + " "@, settable)
            &&& is_part_of(titled_list("tickets"@, task.settable.tickets), settable)
            &&& is_part_of(titled_list("desc"@, task.settable.description), settable)
            &&& is_part_of(" created_at="@ + task.created_at@ + " updated_at="@, shown)
            &&& (" updated_at="@ + task.updated_at@).is_suffix_of(shown)
        }),
{
    let shown = task_text(task);
    let settable = settable_text(task.settable);
    let status = status_text(task.settable.status);
    let priority = priority_text(task.settable.priority);
    let tickets = titled_list("tickets"@, task.settable.tickets);
    let description = titled_list("desc"@, task.settable.description);
    let none: Seq<char> = seq![];
    reveal_strlit(" prio=");
    reveal_strlit("prio=");
    reveal_strlit(" ");
    assert(settable =~= shown.take(settable.len() as int));
    assert(settable =~= none + ("status="@ + status + " prio="@) + (priority + tickets
        + description));
    lemma_part(none, "status="@ + status + " prio="@, priority + tickets + description);
    let rest = tickets.skip(1) + description;
    assert(tickets[0] == ' ');
    assert(settable =~= ("status="@ + status + " "@) + ("prio="@ + priority + " "@) + rest);
    lemma_part("status="@ + status + " "@, "prio="@ + priority + " "@, rest);
    let head = "status="@ + status + " prio="@ + priority;
    assert(settable =~= head + tickets + description);
    lemma_part(head, tickets, description);
    assert(settable =~= (head + tickets) + description + none);
    lemma_part(head + tickets, description, none);
    assert(shown =~= settable + (" created_at="@ + task.created_at@ + " updated_at="@)
        + task.updated_at@);
    lemma_part(settable, " created_at="@ + task.created_at@ + " updated_at="@, task.updated_at@);
    let tail = " updated_at="@ + task.updated_at@;
    assert(tail =~= shown.skip(shown.len() - tail.len()));
}

/// What is shown of a query has as many conditions as the query, and each of them in words.
pub proof fn shown_queries_tell_their_conditions(params: TaskQueryParams)
    ensures
        ({
            let shown = join(condition_texts(params), "; "@);
            &&& condition_texts(params).len() == (if params.ids is Some { 1int } else { 0 }) + (
            if params.status is Some { 1int } else { 0 }) + (if params.min_priority is Some {
                1int
            } else {
                0
            })
            &&& params.ids is Some ==> is_part_of(
                "id in "@ + debug_list(quoted_all(texts(params.ids->0@))),
                shown,
            )
            &&& params.status is Some ==> is_part_of(
                "status in "@ + debug_list(status_texts(params.status->0@)),
                shown,
            )
            &&& params.min_priority is Some ==> is_part_of(
                "priority >= "@ + priority_text(params.min_priority->0),
                shown,
            )
        }),
{
    let all = condition_texts(params);
    if params.ids is Some {
        assert(all[0] == "id in "@ + debug_list(quoted_all(texts(params.ids->0@))));
        joins_hold_their_parts(all, "; "@, 0);
    }
    if params.status is Some {
        let i: int = if params.ids is Some {
            1
        } else {
            0
        };
        assert(all[i] == "status in "@ + debug_list(status_texts(params.status->0@)));
        joins_hold_their_parts(all, "; "@, i);
    }
    if params.min_priority is Some {
        let i = all.len() - 1;
        assert(all[i] == "priority >= "@ + priority_text(params.min_priority->0));
        joins_hold_their_parts(all, "; "@, i);
    }
}

/// The entries of an amendment up to a number of them.
proof fn lemma_amendment_entry(
    keys: Seq<Seq<char>>,
    values: Seq<Option<String>>,
    last: int,
    i: int,
)
    requires
        0 <= i < keys.len(),
        keys.len() == values.len(),
    ensures
        is_part_of(
            keys[i] + "="@ + (match values[i] {
                Some(value) => shortened_quoted(value@) + (if i == last {
                    seq![]
                } else {
                    ", "@
                }),
                None => "nil"@,
            }),
            amendment_texts(keys, values, last),
        ),
    decreases keys.len(),
{
    let own = keys[i] + "="@ + (match values[i] {
        Some(value) => shortened_quoted(value@) + (if i == last {
            seq![]
        } else {
            ", "@
        }),
        None => "nil"@,
    });
    let before = amendment_texts(keys.drop_last(), values.drop_last(), last);
    let all = amendment_texts(keys, values, last);
    let none: Seq<char> = seq![];
    if i == keys.len() - 1 {
        assert(all =~= before + own + none);
        lemma_part(before, own, none);
    } else {
        lemma_amendment_entry(keys.drop_last(), values.drop_last(), last, i);
        let added = all.skip(before.len() as int);
        assert(all =~= before + added);
        lemma_part_of_sum(own, before, added);
    }
}

/// What is shown of an amendment tells each key with its value, or that it is removed; values are set
/// apart from what follows them. An amendment without entries is not shown.
pub proof fn shown_amendments_tell_their_entries(
    title: Seq<char>,
    list: StringMap<Option<String>>,
    i: int,
)
    requires
        list.keys().len() == list.values().len(),
    ensures
        ({
            let shown = titled_amendment(title, list);
            let key = list.keys()[i];
            &&& list.keys().len() == 0 <==> shown.len() == 0
            &&& list.keys().len() > 0 ==> (" "@ + title + "=["@).is_prefix_of(shown)
                && shown.last() == ']'
            &&& 0 <= i < list.keys().len() ==> match list.values()[i] {
                Some(value) => is_part_of(key + "="@ + shortened_quoted(value@), shown),
                None => is_part_of(key + "=nil"@, shown),
            }
            &&& 0 <= i < list.keys().len() - 1 && list.values()[i] is Some ==> is_part_of(
                key + "="@ + shortened_quoted(list.values()[i]->0@) + ", "@,
                shown,
            )
            &&& 0 <= i == list.keys().len() - 1 && list.values()[i] is Some ==> (shortened_quoted(
                list.values()[i]->0@,
            ) + "]"@).is_suffix_of(shown)
        }),
{
    let shown = titled_amendment(title, list);
    let keys = list.keys();
    let values = list.values();
    reveal_strlit(" ");
    reveal_strlit("]");
    if keys.len() > 0 {
        let head = " "@ + title + "=["@;
        let all = amendment_texts(keys, values, keys.len() - 1);
        assert(shown =~= head + all + "]"@);
        assert(head =~= shown.take(head.len() as int));
        lemma_part(head, all, "]"@);
        if 0 <= i < keys.len() {
            lemma_amendment_entry(keys, values, keys.len() - 1, i);
            match values[i] {
                Some(value) => {
                    let plain = keys[i] + "="@ + shortened_quoted(value@);
                    let gap: Seq<char> = if i == keys.len() - 1 {
                        seq![]
                    } else {
                        ", "@
                    };
                    let own = keys[i] + "="@ + (shortened_quoted(value@) + gap);
                    lemma_part_of_part(own, all, shown);
                    let none: Seq<char> = seq![];
                    assert(own =~= none + plain + gap);
                    lemma_part(none, plain, gap);
                    lemma_part_of_part(plain, own, shown);
                    assert(own =~= plain + gap);
                    if i == keys.len() - 1 {
                        let end = shortened_quoted(value@) + "]"@;
                        assert(shortened_quoted(value@) + gap =~= shortened_quoted(value@));
                        assert(end =~= shown.skip(shown.len() - end.len()));
                    }
                },
                None => {
                    reveal_strlit("=nil");
                    reveal_strlit("=");
                    reveal_strlit("nil");
                    assert(keys[i] + "="@ + "nil"@ =~= keys[i] + "=nil"@);
                    lemma_part_of_part(keys[i] + "=nil"@, all, shown);
                },
            }
        }
    }
}

/// What is shown of the tasks that were found has each of them, with its ID.
pub proof fn shown_results_have_all_tasks(list: Seq<(Seq<char>, Task)>, i: int)
    requires
        0 <= i < list.len(),
    ensures
        found_texts(list).len() == list.len(),
        is_part_of(
            list[i].0 + "={"@ + task_text(list[i].1) + "}"@,
            join(found_texts(list), "; "@),
        ),
{
    joins_hold_their_parts(found_texts(list), "; "@, i);
}

} // verus!
