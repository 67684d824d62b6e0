use work_buddy::clock::{date_to_fname, time_message, Now};
use work_buddy::files::{
    file_error, Edit, EditParams, EditResult, LineRange, View, ViewParams, Write, WriteMarkdown,
    WriteMarkdownParams, WriteParams,
};
use work_buddy::helpers::{Mergeable, TruncatedDisplay};
use work_buddy::knowledge::{
    KnowledgeFile, KnowledgeOrAlias, KnowledgeQuery, KnowledgeQueryParams, KnowledgeUpsert,
    KnowledgeUpsertParams,
};
use work_buddy::program::{tagline, tagline_at, LemonArgs, OutputMode, WorkBuddyArgs, TAGLINES};
use work_buddy::string_map::StringMap;
use work_buddy::tasks::{
    Task, TaskAdd, TaskAddParams, TaskFile, TaskPriority, TaskQuery, TaskQueryParams, TaskRemove,
    TaskRemoveParams, TaskSettable, TaskStatus, TaskUpdate, TaskUpdateParams,
};
use work_buddy::todo::{
    display_id, TodoAdd, TodoAddParams, TodoEdit, TodoEditParams, TodoFile, TodoList, TodoRemove,
    TodoRemoveParams,
};
use work_buddy::web_search::{Json, WebSearch, WebSearchParams};
use work_buddy::worklog::{
    WorklogAdd, WorklogAddParams, WorklogDirectory, WorklogEntry, WorklogQuery, WorklogQueryParams,
    WorklogReference, WorklogSettableEntry, WorklogTag,
};

fn s(text: &str) -> String {
    text.to_string()
}

fn strings(list: &[&str]) -> Vec<String> {
    list.iter().map(|text| text.to_string()).collect()
}

#[test]
fn maps_keep_their_order() {
    let mut map = StringMap::new();
    assert_eq!(map.insert(s("b"), 1), None);
    assert_eq!(map.insert(s("a"), 2), None);
    assert_eq!(map.insert(s("b"), 3), Some(1));
    assert_eq!(map.len(), 2);
    assert_eq!(map.key_at(0), "b");
    assert_eq!(*map.value_at(0), 3);
    assert_eq!(map.get("a"), Some(&2));
    assert!(map.get("c").is_none());
    assert_eq!(map.remove("b"), Some(3));
    assert_eq!(map.remove("b"), None);
    assert!(!map.contains_key("b"));
    assert_eq!(map.key_at(0), "a");
}

fn todo() -> TodoFile<()> {
    TodoFile::open((), StringMap::new())
}

fn add(file: &mut TodoFile<()>, id: &str, ticket: Option<&str>, description: &str) -> Result<String, String> {
    TodoAdd::new()
        .execute(
            file,
            TodoAddParams {
                id: s(id),
                ticket: ticket.map(str::to_string),
                description: s(description),
            },
        )
        .map(|result| result.id)
}

#[test]
fn to_do_items_come_and_go() {
    let mut file = todo();
    assert_eq!(add(&mut file, "a", None, "x"), Ok(s("a")));
    assert_eq!(
        add(&mut file, "a", None, "y"),
        Err(s("Item with ID a already exists in the to-do list"))
    );
    assert_eq!(file.content().get("a").unwrap().description, "x");
    let edit = |file: &mut TodoFile<()>, id: &str| {
        TodoEdit::new().execute(
            file,
            TodoEditParams {
                id: s(id),
                ticket: Some(s("t")),
                description: s("z"),
            },
        )
    };
    assert!(edit(&mut file, "a").is_ok());
    assert_eq!(file.content().get("a").unwrap().ticket.as_deref(), Some("t"));
    assert_eq!(
        edit(&mut file, "b").unwrap_err(),
        "Item with ID b does not exist in the to-do list"
    );
    let remove = |file: &mut TodoFile<()>| TodoRemove::new().execute(file, TodoRemoveParams { id: s("a") });
    assert_eq!(remove(&mut file).unwrap().id, "a");
    assert_eq!(file.content().len(), 0);
    assert_eq!(
        remove(&mut file).unwrap_err(),
        "Item with ID a does not exist in the to-do list"
    );
}

#[test]
fn to_do_items_are_shown() {
    let mut file = todo();
    add(&mut file, "a", Some("url"), "short").unwrap();
    add(&mut file, "b", None, &"ä".repeat(50)).unwrap();
    let shown = TodoList::new().execute(&file).display();
    assert_eq!(
        shown,
        format!("a={{ticket=url desc=short}}; b={{desc={}…}}", "ä".repeat(49))
    );
    let params = TodoAddParams {
        id: s("a"),
        ticket: Some(s("t")),
        description: s("d"),
    };
    assert_eq!(params.display(), "id=a ticket=t desc=d");
    let params = TodoEditParams {
        id: s("a"),
        ticket: None,
        description: s("d"),
    };
    assert_eq!(params.display(), "id=a desc=d");
    assert_eq!(display_id("a"), "id=a");
}

fn settable(status: TaskStatus, priority: TaskPriority) -> TaskSettable {
    TaskSettable {
        status,
        priority,
        tickets: StringMap::new(),
        description: StringMap::new(),
    }
}

fn tasks(list: Vec<(&str, TaskSettable)>) -> TaskFile<()> {
    let mut file = TaskFile::open((), StringMap::new());
    for (id, task) in list {
        TaskAdd::new()
            .execute_at(&mut file, TaskAddParams { id: s(id), task }, "T0")
            .unwrap();
    }
    file
}

#[test]
fn tasks_come_and_go() {
    let mut file = tasks(vec![(
        "a",
        settable(TaskStatus::Backlog, TaskPriority::default()),
    )]);
    let again = TaskAddParams {
        id: s("a"),
        task: settable(TaskStatus::Blocked, TaskPriority::Low),
    };
    assert_eq!(
        TaskAdd::new().execute(&mut file, again).unwrap_err(),
        "Task with ID a already exists in the task list"
    );
    let fresh = TaskAddParams {
        id: s("n"),
        task: settable(TaskStatus::Blocked, TaskPriority::Low),
    };
    assert_eq!(TaskAdd::new().execute(&mut file, fresh).unwrap().id, "n");
    let task = file.content().get("n").unwrap();
    assert_eq!(task.created_at, task.updated_at);
    assert_eq!(task.created_at.len(), "2026-01-01T00:00:00+00:00".len());
    let remove = |file: &mut TaskFile<()>, id: &str| {
        TaskRemove::new().execute(file, TaskRemoveParams { id: s(id) })
    };
    assert_eq!(remove(&mut file, "n").unwrap().id, "n");
    assert_eq!(
        remove(&mut file, "n").unwrap_err(),
        "Task with ID n does not exist in the task list"
    );
    assert_eq!(file.content().len(), 1);
}

#[test]
fn tasks_are_updated() {
    let mut file = tasks(vec![("a", {
        let mut task = settable(TaskStatus::Backlog, TaskPriority::Normal);
        task.tickets.insert(s("old"), s("u1"));
        task.tickets.insert(s("kept"), s("u2"));
        task
    })]);
    let params = |id: &str| {
        let mut tickets = StringMap::new();
        tickets.insert(s("old"), None);
        tickets.insert(s("new"), Some(s("u3")));
        tickets.insert(s("none"), None);
        TaskUpdateParams {
            id: s(id),
            status: Some(TaskStatus::InProgress),
            priority: None,
            tickets,
            description: StringMap::new(),
        }
    };
    assert_eq!(
        params("a").display(),
        "id=a status=InProgress tickets=[old=nilnew=\"u3\", none=nil]"
    );
    assert_eq!(
        TaskUpdate::new().execute_at(&mut file, params("a"), "T1").unwrap().id,
        "a"
    );
    let task = file.content().get("a").unwrap();
    assert_eq!(task.settable.status, TaskStatus::InProgress);
    assert_eq!(task.settable.priority, TaskPriority::Normal);
    assert!(task.settable.tickets.get("old").is_none());
    assert_eq!(task.settable.tickets.get("kept").unwrap(), "u2");
    assert_eq!(task.settable.tickets.get("new").unwrap(), "u3");
    assert_eq!(task.created_at, "T0");
    assert_eq!(task.updated_at, "T1");
    assert_eq!(
        TaskUpdate::new().execute(&mut file, params("x")).unwrap_err(),
        "Task with ID x does not exist in the task list"
    );
    assert!(TaskUpdate::new().execute(&mut file, params("a")).is_ok());
    assert_eq!(file.content().get("a").unwrap().settable.tickets.len(), 2);
}

#[test]
fn updated_tasks_keep_their_places() {
    let mut file = tasks(vec![
        ("a", settable(TaskStatus::Backlog, TaskPriority::Low)),
        ("b", settable(TaskStatus::Backlog, TaskPriority::Low)),
    ]);
    let params = TaskUpdateParams {
        id: s("a"),
        status: None,
        priority: Some(TaskPriority::High),
        tickets: StringMap::new(),
        description: StringMap::new(),
    };
    TaskUpdate::new().execute(&mut file, params).unwrap();
    assert_eq!(file.content().key_at(0), "a");
    assert_eq!(file.content().key_at(1), "b");
    let task = file.content().value_at(0);
    assert_eq!(task.settable.status, TaskStatus::Backlog);
    assert_eq!(task.settable.priority, TaskPriority::High);
    assert_eq!(task.created_at, "T0");
    assert_eq!(task.updated_at.len(), "2026-01-01T00:00:00+00:00".len());
}

#[test]
fn tasks_are_queried() {
    let file = tasks(vec![
        ("a", settable(TaskStatus::Backlog, TaskPriority::Low)),
        ("b", settable(TaskStatus::Blocked, TaskPriority::High)),
        ("c", settable(TaskStatus::InProgress, TaskPriority::Critical)),
    ]);
    let query = |ids: Option<&[&str]>, status: Option<Vec<TaskStatus>>, min_priority| {
        let params = TaskQueryParams {
            ids: ids.map(strings),
            status,
            min_priority,
        };
        let found: Vec<String> = TaskQuery::new()
            .execute(&file, &params)
            .list
            .iter()
            .map(|found| found.0.clone())
            .collect();
        (params.display(), found)
    };
    assert_eq!(query(None, None, None), (s(""), strings(&["a", "b", "c"])));
    assert_eq!(
        query(Some(&["c", "a"]), None, None),
        (s("id in [\"c\", \"a\"]"), strings(&["a", "c"]))
    );
    assert_eq!(
        query(
            None,
            Some(vec![TaskStatus::Blocked, TaskStatus::NotYetTriaged]),
            None
        ),
        (s("status in [Blocked, NotYetTriaged]"), strings(&["b"]))
    );
    assert_eq!(
        query(Some(&["b"]), None, Some(TaskPriority::High)),
        (s("id in [\"b\"]; priority >= High"), strings(&["b"]))
    );
    assert_eq!(
        query(None, None, Some(TaskPriority::Critical)).1,
        strings(&["c"])
    );
}

#[test]
fn tasks_are_shown() {
    let file = tasks(vec![("a", {
        let mut task = settable(TaskStatus::Blocked, TaskPriority::High);
        task.tickets.insert(s("t"), s("u"));
        task.description.insert(s("d"), "x".repeat(60));
        task.description.insert(s("e"), s("\"q\""));
        task
    })]);
    let params = TaskQueryParams {
        ids: None,
        status: None,
        min_priority: None,
    };
    let text = format!(
        "status=Blocked prio=High tickets=[t=\"u\"] desc=[d=\"{}…\", e=\"\\\"q\\\"\"]",
        "x".repeat(49)
    );
    assert_eq!(
        TaskQuery::new().execute(&file, &params).display(),
        format!("a={{{} created_at=T0 updated_at=T0}}", text)
    );
    let add = TaskAddParams {
        id: s("b"),
        task: settable(TaskStatus::InProgress, TaskPriority::Low),
    };
    assert_eq!(
        add.display(),
        "id=b status=InProgress prio=Low tickets=[] desc=[]"
    );
}

struct NoTool;

impl work_buddy::agent::Tool for NoTool {
    type Schema = ();

    fn name(&self) -> String {
        String::new()
    }

    fn description(&self) -> Option<String> {
        None
    }

    fn schema(&self) {}

    fn fmt_call_display(&self, _arguments: &str) -> String {
        String::new()
    }

    fn fmt_call_result_display(&self, _result: &str) -> String {
        String::new()
    }
}

fn injected(file: &TaskFile<()>) -> String {
    let mut agent: work_buddy::agent::Agent<(), NoTool> =
        work_buddy::agent::Agent::new(work_buddy::client::Client::for_url("h"));
    file.inject_active_tasks(&mut agent);
    match &agent.history()[0] {
        work_buddy::line_format::ChatMessage::System(message) => message.content.clone(),
        other => panic!("{:?}", other),
    }
}

#[test]
fn active_tasks_are_told() {
    assert_eq!(injected(&tasks(vec![])), "(There are no active tasks.)");
    let file = tasks(vec![
        ("idle", settable(TaskStatus::Backlog, TaskPriority::High)),
        ("fire", settable(TaskStatus::Backlog, TaskPriority::Critical)),
        ("now", {
            let mut task = settable(TaskStatus::InProgress, TaskPriority::Normal);
            task.tickets.insert(s("t"), s("u"));
            task.description.insert(s("d"), s("what"));
            task
        }),
    ]);
    assert_eq!(
        injected(&file),
        "List of active tasks:\n- 'fire' (Backlog, Critical priority):\n  - (does not have any description yet)\n  - (does not have any public tickets yet)\n  - Created: T0\n  - Last updated: T0\n- 'now' (InProgress, Normal priority):\n  - Description:\n    - d: what\n  - Tickets:\n    - t: u\n  - Created: T0\n  - Last updated: T0"
    );
    let quiet = tasks(vec![("idle", settable(TaskStatus::Backlog, TaskPriority::High))]);
    assert_eq!(injected(&quiet), "(There are no active tasks.)");
}

fn knowledge(list: Vec<(&str, KnowledgeOrAlias)>) -> KnowledgeFile<()> {
    let mut content = StringMap::new();
    for (keyword, entry) in list {
        content.insert(s(keyword), entry);
    }
    KnowledgeFile::open((), content)
}

fn upsert(keyword: &str, content: Option<&str>, aliases: Option<&[&str]>) -> KnowledgeUpsertParams {
    KnowledgeUpsertParams {
        keyword: s(keyword),
        content: content.map(str::to_string),
        add_aliases: aliases.map(strings),
    }
}

fn ask(db: &KnowledgeFile<()>, keyword: &str) -> Result<String, String> {
    assert!(db.links_end(keyword));
    KnowledgeQuery::new()
        .execute(db, KnowledgeQueryParams { keyword: s(keyword) })
        .map(|result| result.content)
}

fn change(db: &mut KnowledgeFile<()>, params: KnowledgeUpsertParams) -> Result<Vec<String>, String> {
    assert!(KnowledgeUpsert::accepts(db, &params));
    KnowledgeUpsert::new()
        .execute(db, params)
        .map(|result| result.aliases)
}

#[test]
fn knowledge_is_found_by_keyword_and_alias() {
    let mut db = knowledge(vec![]);
    assert_eq!(
        ask(&db, "k"),
        Err(s("Keyword k not present in the database"))
    );
    assert_eq!(
        change(&mut db, upsert("k", Some("what"), Some(&["a", "b"]))),
        Ok(strings(&["a", "b"]))
    );
    for keyword in ["k", "a", "b"] {
        assert_eq!(ask(&db, keyword), Ok(s("what")));
    }
    assert_eq!(
        change(&mut db, upsert("a", Some("new"), Some(&["c"]))),
        Ok(strings(&["a", "b", "c"]))
    );
    for keyword in ["k", "a", "b", "c"] {
        assert_eq!(ask(&db, keyword), Ok(s("new")));
    }
    assert_eq!(change(&mut db, upsert("other", Some("o"), None)), Ok(vec![]));
    assert_eq!(ask(&db, "k"), Ok(s("new")));
}

#[test]
fn knowledge_is_not_changed_by_errors() {
    let mut db = knowledge(vec![
        ("k", KnowledgeOrAlias::Content(s("what"))),
        ("a", KnowledgeOrAlias::Alias(s("k"))),
        ("dead", KnowledgeOrAlias::Alias(s("gone"))),
    ]);
    assert_eq!(
        change(&mut db, upsert("k", None, None)),
        Err(s("Must update content or add aliases"))
    );
    assert_eq!(
        change(&mut db, upsert("x", Some("c"), Some(&["y", "k"]))),
        Err(s("Cannot make 'k' an alias: Already contains content"))
    );
    assert_eq!(
        change(&mut db, upsert("x", Some("c"), Some(&["a"]))),
        Err(s("Cannot make 'a' an alias: Already an alias of 'k'"))
    );
    assert_eq!(
        change(&mut db, upsert("x", None, Some(&["y"]))),
        Err(s(
            "x does not have an entry yet, and you cannot add aliases to an empty entry"
        ))
    );
    let dead = "Dead link: 'dead' points to 'gone', which does not exist";
    assert_eq!(change(&mut db, upsert("dead", Some("c"), None)), Err(s(dead)));
    assert_eq!(ask(&db, "dead"), Err(s(dead)));
    assert_eq!(db.content().len(), 3);
}

#[test]
fn circles_and_collisions_are_not_accepted() {
    let db = knowledge(vec![
        ("a", KnowledgeOrAlias::Alias(s("b"))),
        ("b", KnowledgeOrAlias::Alias(s("a"))),
        ("c", KnowledgeOrAlias::Alias(s("a"))),
        ("k", KnowledgeOrAlias::Content(s("x"))),
    ]);
    assert!(!db.links_end("a"));
    assert!(!db.links_end("c"));
    assert!(db.links_end("k"));
    assert!(!KnowledgeUpsert::accepts(&db, &upsert("c", Some("x"), None)));
    assert!(KnowledgeUpsert::accepts(&db, &upsert("c", Some("x"), Some(&["k"]))));
    assert!(KnowledgeUpsert::accepts(&db, &upsert("k", None, Some(&["n", "n"]))));
    assert!(KnowledgeUpsert::accepts(&db, &upsert("n", Some("x"), Some(&["n"]))));
    assert!(KnowledgeUpsert::accepts(&db, &upsert("n", Some("x"), Some(&["m"]))));
}

#[test]
fn an_alias_named_twice_is_one_alias() {
    let mut db = knowledge(vec![("k", KnowledgeOrAlias::Content(s("x")))]);
    let result = KnowledgeUpsert::new()
        .execute(&mut db, upsert("k", None, Some(&["n", "m", "n"])))
        .unwrap();
    assert_eq!(result.aliases, strings(&["n", "m"]));
    let params = KnowledgeQueryParams { keyword: s("n") };
    assert_eq!(KnowledgeQuery::new().execute(&db, params).unwrap().content, "x");
}

#[test]
fn a_new_keyword_is_no_alias_of_itself() {
    let mut db = knowledge(vec![]);
    assert_eq!(
        KnowledgeUpsert::new()
            .execute(&mut db, upsert("n", Some("x"), Some(&["m", "n"])))
            .unwrap_err(),
        "Cannot make 'n' an alias: Already contains content"
    );
    assert_eq!(db.content().len(), 0);
    assert_eq!(
        KnowledgeUpsert::new()
            .execute(&mut db, upsert("n", None, Some(&["n"])))
            .unwrap_err(),
        "n does not have an entry yet, and you cannot add aliases to an empty entry"
    );
}

#[test]
fn aliases_of_aliases_are_listed() {
    let mut db = knowledge(vec![
        ("a", KnowledgeOrAlias::Content(s("x"))),
        ("b", KnowledgeOrAlias::Alias(s("a"))),
        ("c", KnowledgeOrAlias::Alias(s("b"))),
        ("d", KnowledgeOrAlias::Content(s("z"))),
        ("e", KnowledgeOrAlias::Alias(s("d"))),
        ("f", KnowledgeOrAlias::Alias(s("gone"))),
        ("g", KnowledgeOrAlias::Alias(s("h"))),
        ("h", KnowledgeOrAlias::Alias(s("g"))),
    ]);
    let result = KnowledgeUpsert::new()
        .execute(&mut db, upsert("a", Some("y"), None))
        .unwrap();
    assert_eq!(result.aliases, strings(&["b", "c"]));
    let params = KnowledgeQueryParams { keyword: s("c") };
    assert_eq!(KnowledgeQuery::new().execute(&db, params).unwrap().content, "y");
}

#[test]
fn knowledge_is_shown() {
    assert_eq!(
        upsert("k", Some("c\n"), Some(&["a", "b"])).display(),
        "key=k content=\"c\\n\" add_aliases=[\"a\", \"b\"]"
    );
    assert_eq!(upsert("k", None, None).display(), "key=k");
    assert_eq!(
        upsert("k", Some(&"c".repeat(51)), None).display(),
        format!("key=k content=\"{}…\"", "c".repeat(49))
    );
    let mut db = knowledge(vec![]);
    let result = KnowledgeUpsert::new()
        .execute(&mut db, upsert("k", Some("c"), Some(&["a"])))
        .unwrap();
    assert_eq!(result.display(), "key=k aliases=[\"a\"]");
    let params = KnowledgeQueryParams { keyword: s("a") };
    assert_eq!(params.display(), "key=a");
    assert_eq!(
        KnowledgeQuery::new().execute(&db, params).unwrap().display(),
        "key=a content=\"c\""
    );
}

fn entry(summary: &str, timestamp: &str) -> WorklogEntry {
    WorklogEntry {
        settable: work(summary),
        timestamp: s(timestamp),
    }
}

fn work(summary: &str) -> WorklogSettableEntry {
    WorklogSettableEntry {
        summary: s(summary),
        effort_minutes: 30,
        components: vec![],
        root_cause: None,
        fix_approach: None,
        references: vec![],
        tags: vec![],
        narrative: s("told"),
    }
}

fn dates(start: &str, end: &str) -> WorklogQueryParams {
    WorklogQueryParams {
        start_date: s(start),
        end_date: s(end),
        tags: None,
        components: None,
        match_strings: None,
    }
}

#[test]
fn weeks_have_files() {
    // 2026-01-01 is a Thursday, the first of the first week
    let first = 739617;
    assert_eq!(date_to_fname(first), "2026-w1.json");
    assert_eq!(date_to_fname(first - 3), "2026-w1.json");
    assert_eq!(date_to_fname(first - 4), "2025-w52.json");
    assert_eq!(date_to_fname(first + 3), "2026-w1.json");
    assert_eq!(date_to_fname(first + 4), "2026-w2.json");
    assert_eq!(date_to_fname(1), "1-w1.json");
    assert_eq!(date_to_fname(-3), "0-w52.json");
    assert_eq!(date_to_fname(-400), "-1-w47.json");
}

#[test]
fn queries_read_every_week_they_touch() {
    let plan = WorklogQuery::new()
        .plan(&dates("2026-01-02", "2026-01-05"))
        .unwrap();
    assert_eq!(plan.files, strings(&["2026-w1.json", "2026-w2.json"]));
    assert_eq!(plan.end - plan.start, 3);
    let plan = WorklogQuery::new()
        .plan(&dates("2025-12-28", "2026-01-18"))
        .unwrap();
    assert_eq!(
        plan.files,
        strings(&["2025-w52.json", "2026-w1.json", "2026-w2.json", "2026-w3.json"])
    );
    let plan = WorklogQuery::new()
        .plan(&dates("2026-01-05", "2026-01-05"))
        .unwrap();
    assert_eq!(plan.files, strings(&["2026-w2.json"]));
    assert!(WorklogQuery::new()
        .plan(&dates("2026-01-05", "2026-01-04"))
        .unwrap()
        .files
        .is_empty());
    assert!(WorklogQuery::new()
        .plan(&dates("tomorrow", "2026-01-04"))
        .unwrap_err()
        .starts_with("Failed to parse start_date parameter: "));
    assert!(WorklogQuery::new()
        .plan(&dates("2026-01-04", "2026-02-30"))
        .unwrap_err()
        .starts_with("Failed to parse end_date parameter: "));
}

fn found(params: &WorklogQueryParams, entries: Vec<WorklogEntry>) -> Vec<String> {
    let plan = WorklogQuery::new().plan(params).unwrap();
    WorklogQuery::new()
        .execute(params, plan.start, plan.end, entries)
        .matching
        .into_iter()
        .map(|entry| entry.settable.summary)
        .collect()
}

#[test]
fn entries_are_found_by_date_and_sorted_by_time() {
    let entries = vec![
        entry("late", "2026-01-03T12:00:00+00:00"),
        entry("early", "2026-01-02T23:30:00-02:00"),
        entry("same", "2026-01-03T13:00:00+01:00"),
        entry("before", "2026-01-01T23:59:59+00:00"),
        entry("after", "2026-01-04T00:00:00+00:00"),
        entry("broken", "yesterday"),
        entry("first", "2026-01-02T00:00:00.5+00:00"),
        entry("zeroth", "2026-01-02T00:00:00+00:00"),
    ];
    assert_eq!(
        found(&dates("2026-01-02", "2026-01-03"), entries),
        strings(&["zeroth", "first", "early", "late", "same"])
    );
}

#[test]
fn entries_are_found_by_what_they_hold() {
    let time = "2026-01-02T00:00:00+00:00";
    let entries = || {
        let mut bug = entry("bug", time);
        bug.settable.tags = vec![WorklogTag::Bug, WorklogTag::Review];
        bug.settable.components = strings(&["core"]);
        let mut chore = entry("chore", time);
        chore.settable.tags = vec![WorklogTag::Chore];
        chore.settable.narrative = s("a long needle in it");
        vec![bug, chore]
    };
    let mut params = dates("2026-01-01", "2026-01-31");
    params.tags = Some(vec![WorklogTag::Review, WorklogTag::Meeting]);
    assert_eq!(found(&params, entries()), strings(&["bug"]));
    let mut params = dates("2026-01-01", "2026-01-31");
    params.components = Some(strings(&["ui", "core"]));
    assert_eq!(found(&params, entries()), strings(&["bug"]));
    let mut params = dates("2026-01-01", "2026-01-31");
    params.match_strings = Some(strings(&["needle", "nothing"]));
    assert_eq!(found(&params, entries()), strings(&["chore"]));
    params.match_strings = Some(strings(&["bu"]));
    assert_eq!(found(&params, entries()), strings(&["bug"]));
    params.tags = Some(vec![]);
    assert!(found(&params, entries()).is_empty());
}

#[test]
fn entries_of_now_are_found_now() {
    let (entry, file, result) = WorklogAdd::new().execute(WorklogAddParams { entry: work("done") });
    assert_eq!(result.summary, "done");
    assert_eq!(result.display(), "summary=\"done\"");
    let day = s(&entry.timestamp[..10]);
    let params = dates(&day, &day);
    let plan = WorklogQuery::new().plan(&params).unwrap();
    assert_eq!(plan.files, vec![file]);
    let mut week = vec![];
    WorklogDirectory::<()>::push(&mut week, entry);
    assert_eq!(found(&params, week), strings(&["done"]));
    let (entry, file) = WorklogDirectory::<()>::stamp_at(
        work("x"),
        Now {
            text: s("t"),
            day: 739617,
        },
    );
    assert_eq!((entry.timestamp, file), (s("t"), s("2026-w1.json")));
    assert_eq!(*WorklogDirectory::new(5).path(), 5);
}

#[test]
fn logged_work_is_found_again() {
    let (entry, file) = WorklogDirectory::<()>::stamp_at(
        work("x"),
        Now {
            text: s("2026-01-03T23:30:00-05:00"),
            day: 739619,
        },
    );
    for (start, end) in [
        ("2026-01-03", "2026-01-03"),
        ("2025-11-01", "2026-01-03"),
        ("2026-01-03", "2026-03-01"),
    ] {
        let params = dates(start, end);
        let plan = WorklogQuery::new().plan(&params).unwrap();
        assert!(plan.files.contains(&file));
        let mut week = vec![];
        let again = WorklogEntry {
            settable: work("x"),
            timestamp: entry.timestamp.clone(),
        };
        WorklogDirectory::<()>::push(&mut week, again);
        assert_eq!(found(&params, week), strings(&["x"]));
    }
}

#[test]
fn entries_are_shown() {
    let mut full = entry("sum\"", "T");
    full.settable.components = strings(&["c"]);
    full.settable.root_cause = Some(s("r"));
    full.settable.fix_approach = Some(s("f"));
    full.settable.references = vec![
        WorklogReference::Issue { url: s("i") },
        WorklogReference::MergeRequest { url: s("m") },
        WorklogReference::Commit { hash: s("h") },
    ];
    full.settable.tags = vec![WorklogTag::Feature, WorklogTag::Investigation];
    full.settable.narrative = "n".repeat(51);
    let text = format!(
        "summary=\"sum\\\"\" effort_mins=30 components=[\"c\"] root_cause=\"r\" fix_approach=\"f\" refs=[Issue {{ url: \"i\" }}, MergeRequest {{ url: \"m\" }}, Commit {{ hash: \"h\" }}] tags=[Feature, Investigation] narrative=\"{}…\"",
        "n".repeat(49)
    );
    assert_eq!(full.settable.display(), text);
    assert_eq!(full.display(), format!("{} timestamp=T", text));
    let params = WorklogAddParams { entry: work("w") };
    assert_eq!(
        params.display(),
        "summary=\"w\" effort_mins=30 narrative=\"told\""
    );
    let mut params = dates("2026-01-01", "2026-01-31");
    assert_eq!(params.display(), "dates=[2026-01-01..2026-01-31]");
    params.tags = Some(vec![WorklogTag::Chore, WorklogTag::Meeting]);
    params.components = Some(strings(&["c"]));
    params.match_strings = Some(strings(&["m"]));
    assert_eq!(
        params.display(),
        "dates=[2026-01-01..2026-01-31] tags=[Chore, Meeting] tags=[\"c\"] tags=[\"m\"]"
    );
    let result = WorklogQuery::new().execute(
        &dates("2026-01-01", "2026-01-31"),
        739617,
        739620,
        vec![
            entry("a", "2026-01-02T00:00:00Z"),
            entry("b", "2026-01-03T00:00:00Z"),
        ],
    );
    assert_eq!(
        result.display(),
        "[summary=\"a\" effort_mins=30 narrative=\"told\" timestamp=2026-01-02T00:00:00Z; summary=\"b\" effort_mins=30 narrative=\"told\" timestamp=2026-01-03T00:00:00Z]"
    );
}

#[test]
fn the_time_is_told() {
    assert_eq!(
        time_message("Fri", "2026-01-02T00:00:00+00:00"),
        "The current date and time is Fri, 2026-01-02T00:00:00+00:00"
    );
}

fn view(range: Option<(usize, usize)>, lines: &[Result<&str, &str>]) -> Result<String, String> {
    view_up_to(range, lines, false)
}

fn view_up_to(
    range: Option<(usize, usize)>,
    lines: &[Result<&str, &str>],
    ends_in_line_break: bool,
) -> Result<String, String> {
    let lines: Vec<Result<String, String>> = lines
        .iter()
        .map(|line| match line {
            Ok(text) => Ok(s(text)),
            Err(error) => Err(s(error)),
        })
        .collect();
    View::new()
        .execute(
            ViewParams {
                filename: s("f"),
                range,
            },
            &lines,
            ends_in_line_break,
        )
        .map(|result| result.content)
}

#[test]
fn lines_are_viewed() {
    let lines = [Ok("a"), Ok("b"), Ok("c"), Ok("d")];
    assert_eq!(view(None, &lines), Ok(s("a\nb\nc\nd")));
    assert_eq!(view(Some((1, 2)), &lines), Ok(s("b\nc")));
    assert_eq!(view(Some((3, 9)), &lines), Ok(s("d")));
    assert_eq!(view(Some((7, 9)), &lines), Ok(s("")));
    assert_eq!(view(Some((2, 1)), &lines), Ok(s("")));
    assert_eq!(
        view(Some((2, 0)), &lines),
        Err(s(
            "Range end\n                must be strictly greater than range start: 0 > 2"
        ))
    );
    assert_eq!(view(None, &[Ok(""), Ok("a")]), Ok(s("\na")));
    assert_eq!(view(None, &[Ok(""), Ok(""), Ok("x"), Ok("")]), Ok(s("\n\nx\n")));
    assert_eq!(view(Some((0, 1)), &[Ok(""), Ok("a")]), Ok(s("\na")));
    let broken = [Err("e1"), Ok("b"), Err("e2"), Err("e3")];
    assert_eq!(view(Some((1, 1)), &broken), Ok(s("b")));
    assert_eq!(
        view(Some((1, 3)), &broken),
        Err(s("Failed to read f: e2"))
    );
    assert_eq!(
        View::range(&ViewParams {
            filename: s("f"),
            range: None
        }),
        Ok(LineRange {
            skip: 0,
            take: usize::MAX
        })
    );
}

#[test]
fn full_views_give_the_text() {
    for text in ["", "\n", "\n\n", "a", "a\n", "\na", "a\nb", "a\n\nb\n\n"] {
        let lines: Vec<Result<&str, &str>> = text.lines().map(Ok).collect();
        let ends_in_line_break = text.ends_with('\n');
        assert_eq!(view_up_to(None, &lines, ends_in_line_break), Ok(s(text)));
    }
    assert_eq!(view_up_to(Some((0, 0)), &[Ok("a")], true), Ok(s("a")));
}

fn edit(content: &str, old: &str, new: &str) -> Result<(String, EditResult), String> {
    Edit::new().execute(
        EditParams {
            filename: s("f"),
            old_content: s(old),
            new_content: s(new),
        },
        content,
    )
}

#[test]
fn a_string_is_replaced_where_it_stands_once() {
    let (edited, result) = edit("one two three", "two", "zwö").unwrap();
    assert_eq!(edited, "one zwö three");
    assert_eq!(result.byte_size_changed, 1);
    assert_eq!(edited.len() - "one two three".len(), 1);
    let (edited, result) = edit("aaa", "aa", "").unwrap();
    assert_eq!(edited, "a");
    assert_eq!(result.byte_size_changed, -2);
    assert_eq!(
        result.display(),
        "filename=f byte_size_changed=-2"
    );
    assert_eq!(
        edit("abc", "x", "y").unwrap_err(),
        "Did not find old_content string in f"
    );
    assert_eq!(
        edit("aXbX", "X", "y").unwrap_err(),
        "Multiple old_content matches in f"
    );
    assert_eq!(
        edit("", "", "y").unwrap_err(),
        "Multiple old_content matches in f"
    );
}

#[test]
fn files_are_written_in_bytes() {
    let result = Write::new().execute(WriteParams {
        filename: s("f"),
        content: s("ä!"),
    });
    assert_eq!(result.display(), "filename=f bytes_written=3");
    let tool = WriteMarkdown::new(s("dir"));
    assert_eq!(tool.dir(), "dir");
    let params = WriteMarkdownParams {
        filename: s("f.md"),
        content: "x".repeat(101),
    };
    assert_eq!(
        params.display(),
        format!("filename=f.md content=\"{}\"…", "x".repeat(99))
    );
    assert_eq!(
        tool.execute(params).display(),
        "filename=f.md bytes_written=101"
    );
    assert_eq!(file_error("open", "f", "e"), "Failed to open f: e");
}

#[test]
fn file_parameters_are_shown() {
    let params = |range| ViewParams {
        filename: s("f"),
        range,
    };
    assert_eq!(params(None).display(), "filename=f");
    assert_eq!(params(Some((1, 20))).display(), "filename=f range=[1, 20]");
    let result = View::new().execute(params(None), &vec![Ok(s("a"))], false).unwrap();
    assert_eq!(result.display(), "filename=f content=\"a\"");
    let write = WriteParams {
        filename: s("f"),
        content: s("c"),
    };
    assert_eq!(write.display(), "filename=f content=\"c\"");
    let edit = EditParams {
        filename: s("f"),
        old_content: s("o"),
        new_content: s("n\t"),
    };
    assert_eq!(edit.display(), "filename=f \"o\" -> \"n\\t\"");
}

#[test]
fn long_text_is_truncated() {
    assert_eq!("abc".truncated_display(3), "abc");
    assert_eq!("abcd".truncated_display(3), "ab…");
    assert_eq!("abcd".truncated_display(0), "");
    assert_eq!("äöü".truncated_display(1), "…");
    assert_eq!(s("ab\n").truncated_debug(3), "\"ab\\n\"");
    assert_eq!(s("abcd").truncated_debug(3), "\"ab\"…");
    assert_eq!("abcd".truncated_debug(0), "");
    assert_eq!(s("abcd").truncated_display(2), "a…");
}

fn object(members: Vec<(&str, Json)>) -> Json {
    Json::Object(
        members
            .into_iter()
            .map(|(name, value)| (s(name), value))
            .collect(),
    )
}

fn search(query: &str, max_results: Option<usize>) -> WebSearchParams {
    WebSearchParams {
        query: s(query),
        max_results,
    }
}

#[test]
fn queries_are_encoded() {
    assert_eq!(
        WebSearch::new("http://h//").url(&search("a b&ä~-._/", None)),
        "http://h/search?q=a%20b%26%C3%A4~-._%2F&format=json&categories=general"
    );
}

#[test]
fn search_results_are_taken() {
    let answer = object(vec![
        ("query", Json::Text(s("q"))),
        (
            "results",
            Json::Array(vec![
                object(vec![
                    ("title", Json::Text(s("t1"))),
                    ("url", Json::Text(s("u1"))),
                    ("content", Json::Text(s("c1"))),
                ]),
                object(vec![("title", Json::Other), ("url", Json::Text(s("u2")))]),
                Json::Other,
            ]),
        ),
    ]);
    let tool = WebSearch::new("h");
    let all = tool.execute(search("q", None), &answer).unwrap();
    assert_eq!(all.results.len(), 3);
    assert_eq!(all.results[0].snippet, "c1");
    assert_eq!(all.display(), "[t1 (u1),  (u2),  ()]");
    let some = tool.execute(search("q", Some(2)), &answer).unwrap();
    assert_eq!(some.results.len(), 2);
    assert_eq!(some.query, "q");
    assert_eq!(tool.execute(search("q", Some(9)), &answer).unwrap().results.len(), 3);
    assert_eq!(
        tool.execute(search("q", Some(0)), &answer).unwrap().display(),
        "[]"
    );
    for answer in [Json::Other, object(vec![("results", Json::Text(s("x")))])] {
        assert_eq!(
            tool.execute(search("q", None), &answer).unwrap_err(),
            "No results returned"
        );
    }
    assert_eq!(search("a\"", Some(3)).display(), "query=\"a\\\"\" max_results=3");
    assert_eq!(search("a", None).display(), "query=\"a\"");
}

#[test]
fn options_are_merged() {
    let mut a = Some(1);
    a.merge(None);
    assert_eq!(a, Some(1));
    a.merge(Some(2));
    assert_eq!(a, Some(2));
    a.merge_weak(Some(3));
    assert_eq!(a, Some(2));
    let mut b = None;
    b.merge_weak(Some(3));
    assert_eq!(b, Some(3));
    let mut flag = false;
    flag.merge(true);
    flag.merge_weak(false);
    assert!(flag);
}

#[test]
fn arguments_take_precedence_over_their_config() {
    let args = |url: Option<&str>, model: Option<&str>| LemonArgs::<u8> {
        config: None,
        llama_url: url.map(str::to_string),
        searxng_url: None,
        model: model.map(str::to_string),
        system: None,
        log_file: None,
        session_logs: Some(1),
        resume: None,
    };
    let mut given = args(Some("cli"), None);
    given.merge_weak(args(Some("config"), Some("m")));
    assert_eq!(given.llama_url.as_deref(), Some("cli"));
    assert_eq!(given.model.as_deref(), Some("m"));
    given.merge(args(Some("last"), None));
    assert_eq!(given.llama_url.as_deref(), Some("last"));
    assert_eq!(given.model.as_deref(), Some("m"));
    let buddy = |debug: bool, tasks: Option<u8>| WorkBuddyArgs::<u8> {
        config: None,
        llama_url: None,
        searxng_url: None,
        system: None,
        debug,
        log_file: None,
        tasks,
        worklogs: None,
        markdown_output: None,
        knowledge: None,
        session_logs: None,
        resume: None,
    };
    let mut given = buddy(false, Some(1));
    given.merge_weak(buddy(true, Some(2)));
    assert!(given.debug);
    assert_eq!(given.tasks, Some(1));
    given.merge(buddy(false, Some(2)));
    assert!(given.debug);
    assert_eq!(given.tasks, Some(2));
}

#[test]
fn tag_lines_are_picked() {
    for _ in 0..20 {
        let line = tagline();
        assert!((0..TAGLINES).any(|i| tagline_at(i) == line));
    }
    assert_eq!(tagline_at(2), "proof of work for proof of employment");
    assert!(tagline_at(0).starts_with("because"));
    assert!(tagline_at(1).starts_with("turning"));
    assert!(tagline_at(3).starts_with("comprehensive"));
}

#[test]
fn modes_are_switched_once() {
    let mut mode = OutputMode::default();
    assert_eq!(mode.switch(OutputMode::DefaultTerm), "");
    assert_eq!(mode.switch(OutputMode::Thinking), "\x1b[2;3mThinking:\n\n");
    assert_eq!(mode.switch(OutputMode::Thinking), "");
    assert_eq!(mode.switch(OutputMode::Output), "\n\x1b[0m\x1b[1m\n");
    assert_eq!(mode.switch(OutputMode::DefaultTerm), "\n\x1b[0m\x1b[0m");
}

#[test]
fn tasks_hold_what_they_were_given() {
    let file = tasks(vec![("a", settable(TaskStatus::NotYetTriaged, TaskPriority::Normal))]);
    let task: &Task = file.content().get("a").unwrap();
    assert_eq!(task.settable.status.name(), "NotYetTriaged");
    assert_eq!(task.settable.priority.name(), "Normal");
    assert_eq!(*file.path(), ());
}

#[test]
fn options_are_merged_alike_in_any_order() {
    let options = [None, Some(1), Some(2)];
    for a in options {
        for b in options {
            for c in options {
                let mut left = a;
                left.merge(b);
                left.merge(c);
                let mut right = b;
                right.merge(c);
                let mut whole = a;
                whole.merge(right);
                assert_eq!(left, whole);
            }
        }
    }
}
