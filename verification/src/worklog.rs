//! The worklog: what was done when, in a file for each week.

use crate::clock::{
    date_to_fname, is_iso_week, is_week_file, local_now, parse_date, parse_timestamp, parsed_date,
    tells_day, timestamp, valid_day, week_of, week_text, weeks_have_their_own_files,
    weeks_have_their_own_numbers, Now,
};
use crate::text::{
    all_parts_hold_each, byte_len, concat, contains_text, debug_list, debug_quoted, debug_text,
    decimal, first_characters_are_a_prefix, first_chars, has_text, is_part_of, join,
    joins_hold_their_parts, lemma_concat_push, lemma_part, lemma_part_of_itself,
    lemma_part_of_part, lemma_part_of_sum, push_debug_strings, push_decimal, push_first_chars,
    push_joined, quoted_all, same_text, str_byte_len, texts, texts_contain_their_parts,
};
use vstd::prelude::*;

verus! {

/// Directory in which the worklogs are stored; `P` is its path
#[derive(Debug)]
pub struct WorklogDirectory<P> {
    /// Base path of the directory containing the worklogs
    path: P,
}

/// A worklog entry
#[derive(Debug)]
pub struct WorklogEntry {
    /// LLM-settable part of the entry
    pub settable: WorklogSettableEntry,
    /// When this entry was created
    pub timestamp: String,
}

/// The LLM-settable part of a worklog entry
#[derive(Debug)]
pub struct WorklogSettableEntry {
    /// Summary of the work that was actually done in this chunk
    pub summary: String,
    /// How many minutes were spent, roughly, on this work item
    pub effort_minutes: usize,
    /// What components were touched, i.e. which projects were affected
    pub components: Vec<String>,
    /// What is the underlying reason for working on this
    pub root_cause: Option<String>,
    /// What is the overarching approach being taken here
    pub fix_approach: Option<String>,
    /// Persistent and globally reachable references of the work
    pub references: Vec<WorklogReference>,
    /// Arbitrary tags to better find the work item later
    pub tags: Vec<WorklogTag>,
    /// A detailed explanation of what was done for this work item
    pub narrative: String,
}

/// Persistent and globally reachable references of work
#[derive(Debug)]
pub enum WorklogReference {
    /// Gitlab work items, github issues, Jira tickets, ...
    Issue {
        /// URL linking to the issue
        url: String,
    },
    /// Github pull requests, gitlab merge requests, ...
    MergeRequest {
        /// URL linking to the MR/PR
        url: String,
    },
    /// Commit in a repository noted in `components`
    Commit {
        /// The commit hash
        hash: String,
    },
}

/// Tags for worklog items
#[derive(Clone, Copy, Debug, PartialEq, Eq, Structural)]
pub enum WorklogTag {
    /// A bug to be fixed
    Bug,
    /// Code review
    Review,
    /// A new feature to be implemented
    Feature,
    /// Investigation for either the root cause of a bug or how to implement a new feature
    Investigation,
    /// Some general chore like refactoring
    Chore,
    /// A meeting with one or more other people
    Meeting,
}

/// Log work the user has done in the worklog
#[derive(Debug)]
pub struct WorklogAddParams {
    /// Worklog entry to add
    pub entry: WorklogSettableEntry,
}

/// Result of adding a worklog entry
#[derive(Debug)]
pub struct WorklogAddResult {
    /// Summary of the entry just added
    pub summary: String,
}

/// Query the worklog for entries
#[derive(Debug)]
pub struct WorklogQueryParams {
    /// Date to start the search from (inclusive, YYYY-mm-dd)
    pub start_date: String,
    /// Date to end the search at (inclusive, YYYY-mm-dd)
    pub end_date: String,
    /// Return only entries that have any of these tags
    pub tags: Option<Vec<WorklogTag>>,
    /// Return only entries that touched any of these components
    pub components: Option<Vec<String>>,
    /// Return only entries whose `summary` or `narrative` fields contain any of these strings
    pub match_strings: Option<Vec<String>>,
}

/// Result of a worklog query
#[derive(Debug)]
pub struct WorklogQueryResult {
    /// Matching worklog entries
    pub matching: Vec<WorklogEntry>,
}

/// Which part of the worklog a query is about
#[derive(Debug)]
pub struct WorklogPlan {
    /// The first day
    pub start: i32,
    /// The last day
    pub end: i32,
    /// The names of the files for the weeks from the first day to the last
    pub files: Vec<String>,
}

/// The tool that adds entries
#[derive(Clone, Copy, Debug)]
pub struct WorklogAdd {}

/// The tool that queries entries
#[derive(Clone, Copy, Debug)]
pub struct WorklogQuery {}

/// The name of a tag.
pub open spec fn tag_text(tag: WorklogTag) -> Seq<char> {
    match tag {
        WorklogTag::Bug => "Bug"@,
        WorklogTag::Review => "Review"@,
        WorklogTag::Feature => "Feature"@,
        WorklogTag::Investigation => "Investigation"@,
        WorklogTag::Chore => "Chore"@,
        WorklogTag::Meeting => "Meeting"@,
    }
}

/// The names of tags.
pub open spec fn tag_texts(tags: Seq<WorklogTag>) -> Seq<Seq<char>> {
    tags.map_values(|t: WorklogTag| tag_text(t))
}

/// A reference, as it is shown.
pub open spec fn reference_text(reference: WorklogReference) -> Seq<char> {
    match reference {
        WorklogReference::Issue { url } => "Issue { url: "@ + debug_quoted(url@) + " }"@,
        WorklogReference::MergeRequest { url } => "MergeRequest { url: "@ + debug_quoted(url@)
            + " }"@,
        WorklogReference::Commit { hash } => "Commit { hash: "@ + debug_quoted(hash@) + " }"@,
    }
}

/// References, as they are shown.
pub open spec fn reference_texts(references: Seq<WorklogReference>) -> Seq<Seq<char>> {
    references.map_values(|r: WorklogReference| reference_text(r))
}

/// An optional text after its name.
pub open spec fn named_option(name: Seq<char>, text: Option<String>) -> Seq<char> {
    match text {
        Some(text) => name + "="@ + debug_quoted(text@) + " "@,
        None => seq![],
    }
}

/// A list after its name, if it has items.
pub open spec fn named_list(name: Seq<char>, items: Seq<Seq<char>>) -> Seq<char> {
    if items.len() == 0 {
        seq![]
    } else {
        name + "="@ + debug_list(items) + " "@
    }
}

/// The narrative, between quotes; a long one is cut.
pub open spec fn narrative_text(narrative: Seq<char>) -> Seq<char> {
    "narrative=\""@ + (if byte_len(narrative) <= 50 {
        narrative + "\""@
    } else {
        first_chars(narrative, 49) + "…\""@
    })
}

/// The settable part of an entry, as it is shown.
pub open spec fn settable_text(entry: WorklogSettableEntry) -> Seq<char> {
    "summary="@ + debug_quoted(entry.summary@) + " effort_mins="@ + decimal(
        entry.effort_minutes as nat,
    ) + " "@ + named_list("components"@, quoted_all(texts(entry.components@))) + named_option(
        "root_cause"@,
        entry.root_cause,
    ) + named_option("fix_approach"@, entry.fix_approach) + named_list(
        "refs"@,
        reference_texts(entry.references@),
    ) + named_list("tags"@, tag_texts(entry.tags@)) + narrative_text(entry.narrative@)
}

/// An entry, as it is shown.
pub open spec fn entry_text(entry: WorklogEntry) -> Seq<char> {
    settable_text(entry.settable) + " timestamp="@ + entry.timestamp@
}

/// Whether an entry has any of the tags.
pub open spec fn has_any_tag(entry: WorklogEntry, tags: Seq<WorklogTag>) -> bool {
    exists|i: int|
        0 <= i < entry.settable.tags@.len() && tags.contains(#[trigger] entry.settable.tags@[i])
}

/// Whether an entry touched any of the components.
pub open spec fn has_any_component(entry: WorklogEntry, components: Seq<Seq<char>>) -> bool {
    exists|i: int|
        0 <= i < entry.settable.components@.len() && components.contains(
            #[trigger] entry.settable.components@[i]@,
        )
}

/// Whether the summary or the narrative of an entry contain any of the strings.
pub open spec fn has_any_string(entry: WorklogEntry, strings: Seq<Seq<char>>) -> bool {
    exists|i: int|
        0 <= i < strings.len() && {
            ||| contains_text(entry.settable.summary@, #[trigger] strings[i])
            ||| contains_text(entry.settable.narrative@, strings[i])
        }
}

/// Whether an entry meets the filters of a query: it has any of each that the query lists.
pub open spec fn meets_filters(params: WorklogQueryParams, entry: WorklogEntry) -> bool {
    &&& params.tags matches Some(tags) ==> has_any_tag(entry, tags@)
    &&& params.components matches Some(components) ==> has_any_component(
        entry,
        texts(components@),
    )
    &&& params.match_strings matches Some(strings) ==> has_any_string(entry, texts(strings@))
}

/// Whether an entry is what a query asks for: its timestamp is valid and within the days, and it
/// meets the filters.
pub open spec fn selected(
    params: WorklogQueryParams,
    start: int,
    end: int,
    entry: WorklogEntry,
) -> bool {
    &&& timestamp(entry.timestamp@) matches Some(t)
    &&& start <= t.0 <= end
    &&& meets_filters(params, entry)
}

/// Whether an entry is no later than another.
pub open spec fn no_later(a: WorklogEntry, b: WorklogEntry) -> bool {
    match (timestamp(a.timestamp@), timestamp(b.timestamp@)) {
        (Some(x), Some(y)) => x.1 < y.1 || x.1 == y.1 && x.2 <= y.2,
        _ => true,
    }
}

/// The place of an entry among sorted ones: after all that are no later.
pub open spec fn place_of(sorted: Seq<WorklogEntry>, entry: WorklogEntry) -> int
    decreases sorted.len(),
{
    if sorted.len() == 0 || no_later(sorted.last(), entry) {
        sorted.len() as int
    } else {
        place_of(sorted.drop_last(), entry)
    }
}

/// The selected entries by time; those of the same time are in the order in which they were found.
pub open spec fn found(
    params: WorklogQueryParams,
    start: int,
    end: int,
    entries: Seq<WorklogEntry>,
) -> Seq<WorklogEntry>
    decreases entries.len(),
{
    if entries.len() == 0 {
        seq![]
    } else {
        let before = found(params, start, end, entries.drop_last());
        if selected(params, start, end, entries.last()) {
            before.insert(place_of(before, entries.last()), entries.last())
        } else {
            before
        }
    }
}

/// The format of dates.
pub open spec fn date_format() -> Seq<char> {
    "%Y-%m-%d"@
}

/// Whether names are those of the files for the weeks from one day to another, in their order.
pub open spec fn week_files(names: Seq<Seq<char>>, start: int, end: int) -> bool {
    &&& names.len() == (if start <= end {
        week_of(end) - week_of(start) + 1
    } else {
        0
    })
    &&& forall|i: int|
        0 <= i < names.len() ==> is_week_file(#[trigger] names[i], week_of(start) + i)
}

impl WorklogTag {
    /// The name.
    pub fn name(&self) -> (r: &'static str)
        ensures
            r@ == tag_text(*self),
    {
        match self {
            WorklogTag::Bug => "Bug",
            WorklogTag::Review => "Review",
            WorklogTag::Feature => "Feature",
            WorklogTag::Investigation => "Investigation",
            WorklogTag::Chore => "Chore",
            WorklogTag::Meeting => "Meeting",
        }
    }
}

impl<P> WorklogDirectory<P> {
    /// Where the worklogs are stored.
    pub closed spec fn place(&self) -> P {
        self.path
    }

    /// Create an instance storing logs in the given directory.
    pub fn new(path: P) -> (r: Self)
        ensures
            r.place() == path,
    {
        WorklogDirectory { path }
    }

    /// Where the worklogs are stored.
    pub fn path(&self) -> (r: &P)
        ensures
            *r == self.place(),
    {
        &self.path
    }

    /// An entry of now, and the name of the file that it belongs to.
    pub fn stamp(entry: WorklogSettableEntry) -> (r: (WorklogEntry, String))
        ensures
            r.0.settable == entry,
            exists|day: int| #[trigger]
                valid_day(day) && is_week_file(r.1@, week_of(day)) && tells_day(
                    r.0.timestamp@,
                    day,
                ),
    {
        let now = local_now();
        Self::stamp_at(entry, now)
    }

    /// An entry of the given time, and the name of the file that it belongs to.
    pub fn stamp_at(entry: WorklogSettableEntry, now: Now) -> (r: (WorklogEntry, String))
        requires
            valid_day(now.day as int),
        ensures
            r.0 == (WorklogEntry { settable: entry, timestamp: now.text }),
            is_week_file(r.1@, week_of(now.day as int)),
    {
        let file = date_to_fname(now.day);
        (WorklogEntry { settable: entry, timestamp: now.text }, file)
    }

    /// Append an entry to those of its week.
    pub fn push(week: &mut Vec<WorklogEntry>, entry: WorklogEntry)
        ensures
            final(week)@ == old(week)@.push(entry),
    {
        week.push(entry);
    }
}

impl WorklogAdd {
    /// Create a worklog_add tool.
    pub fn new() -> (r: Self)
        ensures
            r == (WorklogAdd {  }),
    {
        WorklogAdd {  }
    }

    /// The entry to be added, the name of the file that it goes to, and the result.
    pub fn execute(&self, params: WorklogAddParams) -> (r: (
        WorklogEntry,
        String,
        WorklogAddResult,
    ))
        ensures
            r.0.settable == params.entry,
            exists|day: int| #[trigger]
                valid_day(day) && is_week_file(r.1@, week_of(day)) && tells_day(
                    r.0.timestamp@,
                    day,
                ),
            r.2.summary == params.entry.summary,
    {
        let summary = params.entry.summary.clone();
        let (entry, file) = WorklogDirectory::<()>::stamp(params.entry);
        (entry, file, WorklogAddResult { summary })
    }
}

/// The days from the Monday of a week to a day.
fn days_since_monday(day: i32) -> (r: i64)
    requires
        valid_day(day as int),
    ensures
        r == (day - 1) % 7,
{
    (day as i64 + 699_999_999) % 7
}

/// A date parameter, or what is wrong with it.
fn date_param(name: &str, text: &str) -> (r: Result<i32, String>)
    ensures
        match (parsed_date(text@, date_format()), r) {
            (Ok(parsed), Ok(day)) => parsed == day && valid_day(day as int),
            (Err(why), Err(error)) => error@ == "Failed to parse "@ + name@ + " parameter: "@ + why,
            _ => false,
        },
{
    match parse_date(text, "%Y-%m-%d") {
        Ok(day) => Ok(day),
        Err(why) => {
            let mut error = String::new();
            error.append("Failed to parse ");
            error.append(name);
            error.append(" parameter: ");
            error.append(why.as_str());
            assert(error@ =~= "Failed to parse "@ + name@ + " parameter: "@ + why@);
            Err(error)
        },
    }
}

impl WorklogQuery {
    /// Create a worklog_query tool.
    pub fn new() -> (r: Self)
        ensures
            r == (WorklogQuery {  }),
    {
        WorklogQuery {  }
    }

    /// Which part of the worklog a query is about. A date that cannot be read is an error.
    pub fn plan(&self, params: &WorklogQueryParams) -> (r: Result<WorklogPlan, String>)
        ensures
            match (
                parsed_date(params.start_date@, date_format()),
                parsed_date(params.end_date@, date_format()),
            ) {
                (Err(why), _) => r matches Err(error) && error@
                    == "Failed to parse start_date parameter: "@ + why,
                (Ok(_), Err(why)) => r matches Err(error) && error@
                    == "Failed to parse end_date parameter: "@ + why,
                (Ok(start), Ok(end)) => r matches Ok(plan) && plan.start == start && plan.end
                    == end && valid_day(start as int) && valid_day(end as int) && week_files(
                    texts(plan.files@),
                    start as int,
                    end as int,
                ),
            },
    {
        proof {
            reveal_strlit("Failed to parse start_date parameter: ");
            reveal_strlit("Failed to parse end_date parameter: ");
            reveal_strlit("Failed to parse ");
            reveal_strlit(" parameter: ");
            reveal_strlit("start_date");
            reveal_strlit("end_date");
            assert("Failed to parse "@ + "start_date"@ + " parameter: "@
                =~= "Failed to parse start_date parameter: "@);
            assert("Failed to parse "@ + "end_date"@ + " parameter: "@
                =~= "Failed to parse end_date parameter: "@);
        }
        let start: i32 = match date_param("start_date", params.start_date.as_str()) {
            Ok(day) => day,
            Err(error) => {
                return Err(error);
            },
        };
        let end: i32 = match date_param("end_date", params.end_date.as_str()) {
            Ok(day) => day,
            Err(error) => {
                return Err(error);
            },
        };
        let files = Self::files(start, end);
        Ok(WorklogPlan { start, end, files })
    }

    /// The names of the files for the weeks from one day to another.
    pub fn files(start: i32, end: i32) -> (r: Vec<String>)
        requires
            valid_day(start as int),
            valid_day(end as int),
        ensures
            week_files(texts(r@), start as int, end as int),
    {
        let mut files: Vec<String> = Vec::new();
        let mut current: i64 = start as i64;
        assert(texts(files@) =~= seq![]);
        while current <= end as i64
            invariant
                valid_day(start as int),
                valid_day(end as int),
                start <= current,
                current <= end + 7 || current == start,
                start <= end || current == start,
                files@.len() == (if current == start {
                    0
                } else {
                    week_of(current as int) - week_of(start as int)
                }),
                current == start || (current - 1) % 7 == 0,
                current > end ==> current == start || week_of(current as int) == week_of(
                    end as int,
                ) + 1,
                forall|i: int|
                    0 <= i < files@.len() ==> is_week_file(
                        #[trigger] texts(files@)[i],
                        week_of(start as int) + i,
                    ),
            decreases end + 8 - current,
        {
            let day: i32 = current as i32;
            let name = date_to_fname(day);
            let ghost before = files@;
            files.push(name);
            let back: i64 = days_since_monday(day);
            proof {
                assert(texts(files@) =~= texts(before).push(name@));
                assert forall|i: int| 0 <= i < files@.len() implies is_week_file(
                    #[trigger] texts(files@)[i],
                    week_of(start as int) + i,
                ) by {
                    if i < before.len() {
                        assert(texts(files@)[i] == texts(before)[i]);
                    }
                }
            }
            current = current - back + 7;
        }
        files
    }

    /// Whether an entry is what a query asks for.
    fn matches(params: &WorklogQueryParams, start: i32, end: i32, entry: &WorklogEntry) -> (r: bool)
        ensures
            r == selected(*params, start as int, end as int, *entry),
    {
        let day: i32 = match parse_timestamp(entry.timestamp.as_str()) {
            Some((day, _, _)) => day,
            None => {
                return false;
            },
        };
        if day < start || day > end {
            return false;
        }
        match &params.tags {
            Some(tags) => {
                if !any_tag(entry, tags) {
                    return false;
                }
            },
            None => {},
        }
        match &params.components {
            Some(components) => {
                if !any_component(entry, components) {
                    return false;
                }
            },
            None => {},
        }
        match &params.match_strings {
            Some(strings) => any_string(entry, strings),
            None => true,
        }
    }

    /// What a query finds among entries: those that it asks for, by time.
    pub fn execute(
        &self,
        params: &WorklogQueryParams,
        start: i32,
        end: i32,
        everything: Vec<WorklogEntry>,
    ) -> (r: WorklogQueryResult)
        ensures
            r.matching@ == found(*params, start as int, end as int, everything@),
    {
        let ghost all = everything@;
        let mut matching: Vec<WorklogEntry> = Vec::new();
        assert(all.take(0) =~= seq![]);
        for entry in it: everything.into_iter()
            invariant
                it.seq() == all,
                matching@ == found(
                    *params,
                    start as int,
                    end as int,
                    all.take(it.index() as int),
                ),
        {
            proof {
                let i = it.index() as int;
                assert(all.take(i + 1).drop_last() =~= all.take(i));
                assert(all.take(i + 1).last() == entry);
            }
            if Self::matches(params, start, end, &entry) {
                let place: usize = place(&matching, &entry);
                matching.insert(place, entry);
            }
        }
        assert(all.take(all.len() as int) =~= all);
        WorklogQueryResult { matching }
    }
}

/// Whether an entry is no later than another.
fn before(a: &WorklogEntry, b: &WorklogEntry) -> (r: bool)
    ensures
        r == no_later(*a, *b),
{
    match (parse_timestamp(a.timestamp.as_str()), parse_timestamp(b.timestamp.as_str())) {
        (Some((_, seconds, nanos)), Some((_, other_seconds, other_nanos))) => {
            seconds < other_seconds || seconds == other_seconds && nanos <= other_nanos
        },
        _ => true,
    }
}

/// The place of an entry among sorted ones.
fn place(sorted: &Vec<WorklogEntry>, entry: &WorklogEntry) -> (r: usize)
    ensures
        r == place_of(sorted@, *entry),
        r <= sorted@.len(),
{
    let mut i: usize = sorted.len();
    assert(sorted@.take(i as int) =~= sorted@);
    while i > 0 && !before(&sorted[i - 1], entry)
        invariant
            i <= sorted@.len(),
            place_of(sorted@.take(i as int), *entry) == place_of(sorted@, *entry),
        decreases i,
    {
        assert(sorted@.take(i as int).drop_last() =~= sorted@.take(i - 1));
        i = i - 1;
    }
    i
}

/// Whether an entry has any of the tags.
fn any_tag(entry: &WorklogEntry, tags: &Vec<WorklogTag>) -> (r: bool)
    ensures
        r == has_any_tag(*entry, tags@),
{
    let own = &entry.settable.tags;
    for i in 0..own.len()
        invariant
            own@ == entry.settable.tags@,
            forall|k: int| 0 <= k < i ==> !tags@.contains(#[trigger] own@[k]),
    {
        for j in 0..tags.len()
            invariant
                i < own@.len(),
                own@ == entry.settable.tags@,
                forall|k: int| 0 <= k < j ==> tags@[k] != own@[i as int],
        {
            if tags[j] == own[i] {
                assert(tags@.contains(own@[i as int])) by {
                    assert(tags@[j as int] == own@[i as int]);
                }
                return true;
            }
        }
    }
    false
}

/// Whether an entry touched any of the components.
fn any_component(entry: &WorklogEntry, components: &Vec<String>) -> (r: bool)
    ensures
        r == has_any_component(*entry, texts(components@)),
{
    let own = &entry.settable.components;
    for i in 0..own.len()
        invariant
            own@ == entry.settable.components@,
            forall|k: int| 0 <= k < i ==> !texts(components@).contains(#[trigger] own@[k]@),
    {
        for j in 0..components.len()
            invariant
                i < own@.len(),
                own@ == entry.settable.components@,
                forall|k: int| 0 <= k < j ==> texts(components@)[k] != own@[i as int]@,
        {
            if same_text(components[j].as_str(), own[i].as_str()) {
                assert(texts(components@).contains(own@[i as int]@)) by {
                    assert(texts(components@)[j as int] == own@[i as int]@);
                }
                return true;
            }
        }
    }
    false
}

/// Whether the summary or the narrative of an entry contain any of the strings.
fn any_string(entry: &WorklogEntry, strings: &Vec<String>) -> (r: bool)
    ensures
        r == has_any_string(*entry, texts(strings@)),
{
    for i in 0..strings.len()
        invariant
            forall|k: int|
                0 <= k < i ==> !contains_text(
                    entry.settable.summary@,
                    #[trigger] texts(strings@)[k],
                ) && !contains_text(entry.settable.narrative@, texts(strings@)[k]),
    {
        if has_text(entry.settable.summary.as_str(), strings[i].as_str()) || has_text(
            entry.settable.narrative.as_str(),
            strings[i].as_str(),
        ) {
            assert(texts(strings@)[i as int] == strings@[i as int]@);
            return true;
        }
    }
    false
}

/// Appends an optional text after its name.
fn push_named_option(out: &mut String, name: &str, text: &Option<String>)
    ensures
        final(out)@ == old(out)@ + named_option(name@, *text),
{
    let ghost start = out@;
    match text {
        Some(text) => {
            out.append(name);
            out.append("=");
            let quoted = debug_text(text.as_str());
            out.append(quoted.as_str());
            out.append(" ");
        },
        None => {},
    }
    assert(out@ =~= start + named_option(name@, *text));
}

/// Appends a list after its name, if it has items.
fn push_named_list(out: &mut String, name: &str, items: &Vec<String>)
    ensures
        final(out)@ == old(out)@ + named_list(name@, texts(items@)),
{
    let ghost start = out@;
    if items.len() > 0 {
        out.append(name);
        out.append("=");
        push_list(out, items);
        out.append(" ");
    }
    assert(out@ =~= start + named_list(name@, texts(items@)));
}

/// Appends a list of already formatted items.
fn push_list(out: &mut String, items: &Vec<String>)
    ensures
        final(out)@ == old(out)@ + debug_list(texts(items@)),
{
    let ghost start = out@;
    out.append("[");
    push_joined(out, items, ", ");
    out.append("]");
    assert(out@ =~= start + debug_list(texts(items@)));
}

/// The names of tags.
fn tag_names(tags: &Vec<WorklogTag>) -> (r: Vec<String>)
    ensures
        texts(r@) == tag_texts(tags@),
{
    let mut names: Vec<String> = Vec::new();
    for i in 0..tags.len()
        invariant
            texts(names@) == tag_texts(tags@.take(i as int)),
    {
        let name = tags[i].name().to_string();
        let ghost prior = names@;
        names.push(name);
        proof {
            assert(texts(names@) =~= texts(prior).push(name@));
            assert(tags@.take(i + 1) =~= tags@.take(i as int).push(tags@[i as int]));
            assert(texts(names@) =~= tag_texts(tags@.take(i + 1)));
        }
    }
    assert(tags@.take(tags@.len() as int) =~= tags@);
    names
}

impl WorklogReference {
    /// The reference in a form for display.
    pub fn display(&self) -> (r: String)
        ensures
            r@ == reference_text(*self),
    {
        let mut out = String::new();
        let text = match self {
            WorklogReference::Issue { url } => {
                out.append("Issue { url: ");
                url
            },
            WorklogReference::MergeRequest { url } => {
                out.append("MergeRequest { url: ");
                url
            },
            WorklogReference::Commit { hash } => {
                out.append("Commit { hash: ");
                hash
            },
        };
        let quoted = debug_text(text.as_str());
        out.append(quoted.as_str());
        out.append(" }");
        assert(out@ =~= reference_text(*self));
        out
    }
}

/// References in a form for display.
fn shown_references(references: &Vec<WorklogReference>) -> (r: Vec<String>)
    ensures
        texts(r@) == reference_texts(references@),
{
    let mut shown: Vec<String> = Vec::new();
    for i in 0..references.len()
        invariant
            texts(shown@) == reference_texts(references@.take(i as int)),
    {
        let text = references[i].display();
        let ghost prior = shown@;
        shown.push(text);
        proof {
            assert(texts(shown@) =~= texts(prior).push(text@));
            assert(references@.take(i + 1) =~= references@.take(i as int).push(
                references@[i as int],
            ));
            assert(texts(shown@) =~= reference_texts(references@.take(i + 1)));
        }
    }
    assert(references@.take(references@.len() as int) =~= references@);
    shown
}

impl WorklogSettableEntry {
    /// The entry in a form for display.
    pub fn display(&self) -> (r: String)
        ensures
            r@ == settable_text(*self),
    {
        let mut out = String::new();
        out.append("summary=");
        let quoted = debug_text(self.summary.as_str());
        out.append(quoted.as_str());
        out.append(" effort_mins=");
        push_decimal(&mut out, self.effort_minutes);
        out.append(" ");
        if self.components.len() > 0 {
            out.append("components=");
            push_debug_strings(&mut out, &self.components);
            out.append(" ");
        }
        let ghost head = "summary="@ + debug_quoted(self.summary@) + " effort_mins="@ + decimal(
            self.effort_minutes as nat,
        ) + " "@ + named_list("components"@, quoted_all(texts(self.components@)));
        proof {
            reveal_strlit("components=");
            reveal_strlit("components");
            reveal_strlit("=");
            assert("components="@ =~= "components"@ + "="@);
            assert(out@ =~= head);
        }
        push_named_option(&mut out, "root_cause", &self.root_cause);
        push_named_option(&mut out, "fix_approach", &self.fix_approach);
        let references = shown_references(&self.references);
        push_named_list(&mut out, "refs", &references);
        let tags = tag_names(&self.tags);
        push_named_list(&mut out, "tags", &tags);
        out.append("narrative=\"");
        if str_byte_len(self.narrative.as_str()) <= 50 {
            out.append(self.narrative.as_str());
            out.append("\"");
        } else {
            push_first_chars(&mut out, self.narrative.as_str(), 49);
            out.append("…\"");
        }
        assert(out@ =~= settable_text(*self));
        out
    }
}

impl WorklogEntry {
    /// The entry in a form for display.
    pub fn display(&self) -> (r: String)
        ensures
            r@ == entry_text(*self),
    {
        let mut out = self.settable.display();
        out.append(" timestamp=");
        out.append(self.timestamp.as_str());
        assert(out@ =~= entry_text(*self));
        out
    }
}

impl WorklogAddParams {
    /// The parameters in a form for display.
    pub fn display(&self) -> (r: String)
        ensures
            r@ == settable_text(self.entry),
    {
        self.entry.display()
    }
}

impl WorklogAddResult {
    /// The result in a form for display.
    pub fn display(&self) -> (r: String)
        ensures
            r@ == "summary="@ + debug_quoted(self.summary@),
    {
        let mut out = String::new();
        out.append("summary=");
        let quoted = debug_text(self.summary.as_str());
        out.append(quoted.as_str());
        assert(out@ =~= "summary="@ + debug_quoted(self.summary@));
        out
    }
}

impl WorklogQueryParams {
    /// The parameters in a form for display.
    #[verifier::spinoff_prover]
    pub fn display(&self) -> (r: String)
        ensures
            r@ == "dates=["@ + self.start_date@ + ".."@ + self.end_date@ + "]"@ + (
            match self.tags {
                Some(tags) => " tags="@ + debug_list(tag_texts(tags@)),
                None => seq![],
            }) + (match self.components {
                Some(components) => " tags="@ + debug_list(quoted_all(texts(components@))),
                None => seq![],
            }) + (match self.match_strings {
                Some(strings) => " tags="@ + debug_list(quoted_all(texts(strings@))),
                None => seq![],
            }),
    {
        let mut out = String::new();
        out.append("dates=[");
        out.append(self.start_date.as_str());
        out.append("..");
        out.append(self.end_date.as_str());
        out.append("]");
        match &self.tags {
            Some(tags) => {
                out.append(" tags=");
                let names = tag_names(tags);
                push_list(&mut out, &names);
            },
            None => {},
        }
        match &self.components {
            Some(components) => {
                out.append(" tags=");
                push_debug_strings(&mut out, components);
            },
            None => {},
        }
        match &self.match_strings {
            Some(strings) => {
                out.append(" tags=");
                push_debug_strings(&mut out, strings);
            },
            None => {},
        }
        assert(out@ =~= "dates=["@ + self.start_date@ + ".."@ + self.end_date@ + "]"@ + (
        match self.tags {
            Some(tags) => " tags="@ + debug_list(tag_texts(tags@)),
            None => seq![],
        }) + (match self.components {
            Some(components) => " tags="@ + debug_list(quoted_all(texts(components@))),
            None => seq![],
        }) + (match self.match_strings {
            Some(strings) => " tags="@ + debug_list(quoted_all(texts(strings@))),
            None => seq![],
        }));
        out
    }
}

/// Entries, as they are shown.
pub open spec fn entry_texts(entries: Seq<WorklogEntry>) -> Seq<Seq<char>> {
    entries.map_values(|e: WorklogEntry| entry_text(e))
}

impl WorklogQueryResult {
    /// The result in a form for display.
    #[verifier::spinoff_prover]
    pub fn display(&self) -> (r: String)
        ensures
            r@ == "["@ + join(entry_texts(self.matching@), "; "@) + "]"@,
    {
        let mut shown: Vec<String> = Vec::new();
        let ghost all = entry_texts(self.matching@);
        assert(texts(shown@) =~= all.take(0));
        for i in 0..self.matching.len()
            invariant
                all == entry_texts(self.matching@),
                texts(shown@) == all.take(i as int),
        {
            let text = self.matching[i].display();
            let ghost prior = shown@;
            shown.push(text);
            proof {
                assert(texts(shown@) =~= texts(prior).push(text@));
                assert(texts(shown@) =~= all.take(i + 1));
            }
        }
        assert(all.take(all.len() as int) =~= all);
        let mut out = String::new();
        out.append("[");
        push_joined(&mut out, &shown, "; ");
        out.append("]");
        assert(out@ =~= "["@ + join(all, "; "@) + "]"@);
        out
    }
}

/// Every day from the first to the last has its file among those of a plan.
pub proof fn plans_cover_every_day(names: Seq<Seq<char>>, start: int, end: int, day: int)
    requires
        week_files(names, start, end),
        start <= day <= end,
    ensures
        exists|i: int| 0 <= i < names.len() && is_week_file(#[trigger] names[i], week_of(day)),
{
    let i = week_of(day) - week_of(start);
    assert(is_week_file(names[i], week_of(start) + i));
}

/// Where entries have valid timestamps, being no later is a matter of time alone.
spec fn all_timed(entries: Seq<WorklogEntry>) -> bool {
    forall|i: int| 0 <= i < entries.len() ==> timestamp((#[trigger] entries[i]).timestamp@) is Some
}

/// Whether entries are sorted by time.
pub open spec fn in_order(entries: Seq<WorklogEntry>) -> bool {
    forall|i: int, j: int|
        0 <= i < j < entries.len() ==> no_later(#[trigger] entries[i], #[trigger] entries[j])
}

/// Where an entry is placed: what comes before is no later, what comes after is later.
proof fn lemma_place(sorted: Seq<WorklogEntry>, entry: WorklogEntry)
    requires
        in_order(sorted),
        all_timed(sorted),
        timestamp(entry.timestamp@) is Some,
    ensures
        0 <= place_of(sorted, entry) <= sorted.len(),
        forall|i: int|
            0 <= i < place_of(sorted, entry) ==> no_later(#[trigger] sorted[i], entry),
        forall|i: int|
            place_of(sorted, entry) <= i < sorted.len() ==> no_later(entry, #[trigger] sorted[i]),
    decreases sorted.len(),
{
    if sorted.len() > 0 {
        let rest = sorted.drop_last();
        assert(all_timed(rest)) by {
            assert forall|i: int| 0 <= i < rest.len() implies timestamp(
                (#[trigger] rest[i]).timestamp@,
            ) is Some by {
                assert(rest[i] == sorted[i]);
            }
        }
        assert(in_order(rest)) by {
            assert forall|i: int, j: int| 0 <= i < j < rest.len() implies no_later(
                #[trigger] rest[i],
                #[trigger] rest[j],
            ) by {
                assert(rest[i] == sorted[i] && rest[j] == sorted[j]);
            }
        }
        lemma_place(rest, entry);
        let p = place_of(sorted, entry);
        let last = sorted.last();
        assert(timestamp(last.timestamp@) is Some) by {
            assert(sorted[sorted.len() - 1] == last);
        }
        assert forall|i: int| 0 <= i < p implies no_later(#[trigger] sorted[i], entry) by {
            assert(timestamp(sorted[i].timestamp@) is Some);
            if no_later(last, entry) {
                if i < sorted.len() - 1 {
                    assert(no_later(sorted[i], sorted[sorted.len() - 1]));
                }
            } else {
                assert(rest[i] == sorted[i]);
            }
        }
        assert forall|i: int| p <= i < sorted.len() implies no_later(
            entry,
            #[trigger] sorted[i],
        ) by {
            if i < sorted.len() - 1 {
                assert(rest[i] == sorted[i]);
            }
        }
    }
}

/// What a query finds is sorted by time, and is what it asks for, each entry as often as it was
/// there.
pub proof fn found_entries_are_the_selected_ones_in_order(
    params: WorklogQueryParams,
    start: int,
    end: int,
    entries: Seq<WorklogEntry>,
)
    ensures
        ({
            let result = found(params, start, end, entries);
            &&& in_order(result)
            &&& result.to_multiset() == entries.filter(
                |e: WorklogEntry| selected(params, start, end, e),
            ).to_multiset()
        }),
    decreases entries.len(),
{
    lemma_found(params, start, end, entries);
}

/// What a query finds has valid timestamps, is sorted, and has the selected entries.
proof fn lemma_found(
    params: WorklogQueryParams,
    start: int,
    end: int,
    entries: Seq<WorklogEntry>,
)
    ensures
        ({
            let result = found(params, start, end, entries);
            &&& all_timed(result)
            &&& in_order(result)
            &&& result.to_multiset() == entries.filter(
                |e: WorklogEntry| selected(params, start, end, e),
            ).to_multiset()
        }),
    decreases entries.len(),
{
    let keep = |e: WorklogEntry| selected(params, start, end, e);
    reveal(Seq::filter);
    let result = found(params, start, end, entries);
    if entries.len() == 0 {
        assert(result =~= entries.filter(keep));
    } else {
        let prior = found(params, start, end, entries.drop_last());
        let last = entries.last();
        lemma_found(params, start, end, entries.drop_last());
        if selected(params, start, end, last) {
            lemma_place(prior, last);
            let p = place_of(prior, last);
            vstd::seq_lib::to_multiset_insert(prior, p, last);
            vstd::seq_lib::to_multiset_build(entries.drop_last().filter(keep), last);
            assert forall|i: int, j: int| 0 <= i < j < result.len() implies no_later(
                #[trigger] result[i],
                #[trigger] result[j],
            ) by {
                let a = if i < p {
                    i
                } else {
                    i - 1
                };
                let b = if j < p {
                    j
                } else {
                    j - 1
                };
                if i != p {
                    assert(result[i] == prior[a]);
                }
                if j != p {
                    assert(result[j] == prior[b]);
                }
            }
            assert forall|i: int| 0 <= i < result.len() implies timestamp(
                (#[trigger] result[i]).timestamp@,
            ) is Some by {
                if i < p {
                    assert(result[i] == prior[i]);
                } else if i > p {
                    assert(result[i] == prior[i - 1]);
                }
            }
        }
    }
}

/// An entry that a query asks for is found.
pub proof fn selected_entries_are_found(
    params: WorklogQueryParams,
    start: int,
    end: int,
    entries: Seq<WorklogEntry>,
    i: int,
)
    requires
        0 <= i < entries.len(),
        selected(params, start, end, entries[i]),
    ensures
        found(params, start, end, entries).contains(entries[i]),
    decreases entries.len(),
{
    let prior = found(params, start, end, entries.drop_last());
    let result = found(params, start, end, entries);
    lemma_found(params, start, end, entries.drop_last());
    if selected(params, start, end, entries.last()) {
        lemma_place(prior, entries.last());
    }
    let p = place_of(prior, entries.last());
    if i == entries.len() - 1 {
        assert(result[p] == entries[i]);
    } else {
        selected_entries_are_found(params, start, end, entries.drop_last(), i);
        let at = prior.index_of(entries[i]);
        if selected(params, start, end, entries.last()) {
            let now = if at < p {
                at
            } else {
                at + 1
            };
            assert(result[now] == prior[at]);
        }
    }
}

/// A week has one file.
proof fn lemma_one_file(a: Seq<char>, b: Seq<char>, week: int)
    requires
        is_week_file(a, week),
        is_week_file(b, week),
    ensures
        a == b,
{
    let (ya, na) = choose|year: int, number: int| #[trigger]
        is_iso_week(week, year, number) && number >= 0 && a == week_text(year, number);
    let (yb, nb) = choose|year: int, number: int| #[trigger]
        is_iso_week(week, year, number) && number >= 0 && b == week_text(year, number);
    weeks_have_their_own_numbers(week, ya, na, week, yb, nb);
}

/// Work that was logged is found again. An entry that was stamped on a day, with the name of the
/// file that it belongs to, and put into that file, is found by every query over days among which
/// that day is, and whose filters it meets: the file is among those that the query is about, and
/// the entry is among what is found in any list that holds it.
pub proof fn logged_work_is_found_again(
    entry: WorklogEntry,
    file: Seq<char>,
    day: int,
    params: WorklogQueryParams,
    start: int,
    end: int,
    files: Seq<Seq<char>>,
    everything: Seq<WorklogEntry>,
)
    requires
        timestamp(entry.timestamp@) matches Some(t) && t.0 == day,
        is_week_file(file, week_of(day)),
        week_files(files, start, end),
        start <= day <= end,
        meets_filters(params, entry),
        everything.contains(entry),
    ensures
        files.contains(file),
        found(params, start, end, everything).contains(entry),
{
    plans_cover_every_day(files, start, end, day);
    let i = choose|i: int|
        0 <= i < files.len() && is_week_file(#[trigger] files[i], week_of(day));
    lemma_one_file(files[i], file, week_of(day));
    selected_entries_are_found(params, start, end, everything, everything.index_of(entry));
}

/// What a query finds is among the entries, and selected.
proof fn lemma_found_is_selected(
    params: WorklogQueryParams,
    start: int,
    end: int,
    entries: Seq<WorklogEntry>,
    entry: WorklogEntry,
)
    requires
        found(params, start, end, entries).contains(entry),
    ensures
        entries.contains(entry),
        selected(params, start, end, entry),
    decreases entries.len(),
{
    let result = found(params, start, end, entries);
    if entries.len() > 0 {
        let fewer = entries.drop_last();
        let last = entries.last();
        let prior = found(params, start, end, fewer);
        lemma_found(params, start, end, fewer);
        if selected(params, start, end, last) {
            lemma_place(prior, last);
        }
        assert(entries[entries.len() - 1] == last);
        if !(selected(params, start, end, last) && entry == last) {
            assert(prior.contains(entry)) by {
                let i = result.index_of(entry);
                assert(result[i] == entry);
                if selected(params, start, end, last) {
                    let p = place_of(prior, last);
                    if i < p {
                        assert(prior[i] == entry);
                    } else {
                        assert(i != p);
                        assert(prior[i - 1] == entry);
                    }
                }
            }
            lemma_found_is_selected(params, start, end, fewer, entry);
            let i = fewer.index_of(entry);
            assert(entries[i] == entry);
        }
    }
}

/// Having any of the components is having one in common.
proof fn lemma_common_component(entry: WorklogEntry, components: Seq<Seq<char>>)
    ensures
        has_any_component(entry, components) <==> exists|text: Seq<char>|
            texts(entry.settable.components@).contains(text) && #[trigger] components.contains(
                text,
            ),
{
    let own = texts(entry.settable.components@);
    if has_any_component(entry, components) {
        let i = choose|i: int|
            0 <= i < entry.settable.components@.len() && components.contains(
                #[trigger] entry.settable.components@[i]@,
            );
        assert(own[i] == entry.settable.components@[i]@);
        assert(own.contains(entry.settable.components@[i]@));
    }
    if exists|text: Seq<char>| own.contains(text) && #[trigger] components.contains(text) {
        let text = choose|text: Seq<char>| own.contains(text) && #[trigger] components.contains(text);
        let i = own.index_of(text);
        assert(entry.settable.components@[i]@ == text);
    }
}

/// Having any of the tags is having one in common.
proof fn lemma_common_tag(entry: WorklogEntry, tags: Seq<WorklogTag>)
    ensures
        has_any_tag(entry, tags) <==> exists|tag: WorklogTag|
            entry.settable.tags@.contains(tag) && #[trigger] tags.contains(tag),
{
    let own = entry.settable.tags@;
    if has_any_tag(entry, tags) {
        let i = choose|i: int| 0 <= i < own.len() && tags.contains(#[trigger] own[i]);
        assert(own.contains(own[i]));
    }
    if exists|tag: WorklogTag| own.contains(tag) && #[trigger] tags.contains(tag) {
        let tag = choose|tag: WorklogTag| own.contains(tag) && #[trigger] tags.contains(tag);
        let i = own.index_of(tag);
        assert(own[i] == tag);
    }
}

/// Containing any of the strings is that one of them is a part.
proof fn lemma_part_of_entry(entry: WorklogEntry, strings: Seq<Seq<char>>)
    ensures
        has_any_string(entry, strings) <==> exists|text: Seq<char>| #[trigger]
            strings.contains(text) && (is_part_of(text, entry.settable.summary@) || is_part_of(
                text,
                entry.settable.narrative@,
            )),
{
    let summary = entry.settable.summary@;
    let narrative = entry.settable.narrative@;
    if has_any_string(entry, strings) {
        let i = choose|i: int|
            0 <= i < strings.len() && (contains_text(summary, #[trigger] strings[i])
                || contains_text(narrative, strings[i]));
        texts_contain_their_parts(summary, strings[i]);
        texts_contain_their_parts(narrative, strings[i]);
        assert(strings.contains(strings[i]));
    }
    if exists|text: Seq<char>| #[trigger]
        strings.contains(text) && (is_part_of(text, summary) || is_part_of(text, narrative)) {
        let text = choose|text: Seq<char>| #[trigger]
            strings.contains(text) && (is_part_of(text, summary) || is_part_of(text, narrative));
        let i = strings.index_of(text);
        texts_contain_their_parts(summary, text);
        texts_contain_their_parts(narrative, text);
        assert(strings[i] == text);
    }
}

/// What a query finds: of the entries those with a valid timestamp on one of its days, the first and
/// the last of which count in, that have something in common with each list that the query has.
pub proof fn queries_find_what_they_ask_for(
    params: WorklogQueryParams,
    start: int,
    end: int,
    entries: Seq<WorklogEntry>,
    entry: WorklogEntry,
)
    ensures
        found(params, start, end, entries).contains(entry) <==> {
            &&& entries.contains(entry)
            &&& timestamp(entry.timestamp@) is Some
            &&& start <= (timestamp(entry.timestamp@)->0).0 <= end
            &&& params.tags is Some ==> exists|tag: WorklogTag|
                entry.settable.tags@.contains(tag) && #[trigger] params.tags->0@.contains(tag)
            &&& params.components is Some ==> exists|text: Seq<char>|
                texts(entry.settable.components@).contains(text) && #[trigger] texts(
                    params.components->0@,
                ).contains(text)
            &&& params.match_strings is Some ==> exists|text: Seq<char>| #[trigger]
                texts(params.match_strings->0@).contains(text) && (is_part_of(
                    text,
                    entry.settable.summary@,
                ) || is_part_of(text, entry.settable.narrative@))
        },
{
    match params.tags {
        Some(tags) => lemma_common_tag(entry, tags@),
        None => {},
    }
    match params.components {
        Some(components) => lemma_common_component(entry, texts(components@)),
        None => {},
    }
    match params.match_strings {
        Some(strings) => lemma_part_of_entry(entry, texts(strings@)),
        None => {},
    }
    if found(params, start, end, entries).contains(entry) {
        lemma_found_is_selected(params, start, end, entries, entry);
    }
    if entries.contains(entry) && selected(params, start, end, entry) {
        selected_entries_are_found(params, start, end, entries, entries.index_of(entry));
    }
}

/// A query by components alone finds an entry of its days exactly if a component of the entry is
/// among those of the query, whichever of either it is.
pub proof fn queries_by_component(
    params: WorklogQueryParams,
    start: int,
    end: int,
    entries: Seq<WorklogEntry>,
    entry: WorklogEntry,
)
    requires
        params.tags is None,
        params.components is Some,
        params.match_strings is None,
        entries.contains(entry),
        timestamp(entry.timestamp@) matches Some(t) && start <= t.0 <= end,
    ensures
        found(params, start, end, entries).contains(entry) <==> exists|i: int, j: int|
            0 <= i < entry.settable.components@.len() && 0 <= j < params.components->0@.len() && (
            #[trigger] entry.settable.components@[i])@ == (#[trigger] params.components->0@[j])@,
{
    queries_find_what_they_ask_for(params, start, end, entries, entry);
    let own = texts(entry.settable.components@);
    let asked = texts(params.components->0@);
    if found(params, start, end, entries).contains(entry) {
        let text = choose|text: Seq<char>| own.contains(text) && #[trigger] asked.contains(text);
        let i = own.index_of(text);
        let j = asked.index_of(text);
        assert(entry.settable.components@[i]@ == params.components->0@[j]@);
    }
    if exists|i: int, j: int|
        0 <= i < entry.settable.components@.len() && 0 <= j < params.components->0@.len() && (
        #[trigger] entry.settable.components@[i])@ == (#[trigger] params.components->0@[j])@ {
        let (i, j) = choose|i: int, j: int|
            0 <= i < entry.settable.components@.len() && 0 <= j < params.components->0@.len() && (
            #[trigger] entry.settable.components@[i])@ == (#[trigger] params.components->0@[j])@;
        assert(own[i] == asked[j]);
        assert(own.contains(own[i]) && asked.contains(own[i]));
    }
}

/// A query by tags alone finds an entry of its days exactly if a tag of the entry is among those of
/// the query, whichever of either it is.
pub proof fn queries_by_tag(
    params: WorklogQueryParams,
    start: int,
    end: int,
    entries: Seq<WorklogEntry>,
    entry: WorklogEntry,
)
    requires
        params.tags is Some,
        params.components is None,
        params.match_strings is None,
        entries.contains(entry),
        timestamp(entry.timestamp@) matches Some(t) && start <= t.0 <= end,
    ensures
        found(params, start, end, entries).contains(entry) <==> exists|i: int, j: int|
            0 <= i < entry.settable.tags@.len() && 0 <= j < params.tags->0@.len() && (
            #[trigger] entry.settable.tags@[i]) == (#[trigger] params.tags->0@[j]),
{
    queries_find_what_they_ask_for(params, start, end, entries, entry);
    let own = entry.settable.tags@;
    if found(params, start, end, entries).contains(entry) {
        let tag = choose|tag: WorklogTag| own.contains(tag) && #[trigger] params.tags->0@.contains(tag);
        let i = own.index_of(tag);
        let j = params.tags->0@.index_of(tag);
        assert(own[i] == params.tags->0@[j]);
    }
    if exists|i: int, j: int|
        0 <= i < own.len() && 0 <= j < params.tags->0@.len() && (#[trigger] own[i]) == (
        #[trigger] params.tags->0@[j]) {
        let (i, j) = choose|i: int, j: int|
            0 <= i < own.len() && 0 <= j < params.tags->0@.len() && (#[trigger] own[i]) == (
            #[trigger] params.tags->0@[j]);
        assert(own.contains(own[i]) && params.tags->0@.contains(own[i]));
    }
}

/// A query by strings alone finds an entry of its days exactly if one of the strings is a part of its
/// summary or of its narrative.
pub proof fn queries_by_string(
    params: WorklogQueryParams,
    start: int,
    end: int,
    entries: Seq<WorklogEntry>,
    entry: WorklogEntry,
)
    requires
        params.tags is None,
        params.components is None,
        params.match_strings is Some,
        entries.contains(entry),
        timestamp(entry.timestamp@) matches Some(t) && start <= t.0 <= end,
    ensures
        found(params, start, end, entries).contains(entry) <==> exists|i: int|
            0 <= i < params.match_strings->0@.len() && (is_part_of(
                (#[trigger] params.match_strings->0@[i])@,
                entry.settable.summary@,
            ) || is_part_of(params.match_strings->0@[i]@, entry.settable.narrative@)),
{
    queries_find_what_they_ask_for(params, start, end, entries, entry);
    let asked = texts(params.match_strings->0@);
    let summary = entry.settable.summary@;
    let narrative = entry.settable.narrative@;
    if found(params, start, end, entries).contains(entry) {
        let text = choose|text: Seq<char>| #[trigger]
            asked.contains(text) && (is_part_of(text, summary) || is_part_of(text, narrative));
        let i = asked.index_of(text);
        assert(params.match_strings->0@[i]@ == text);
    }
    if exists|i: int|
        0 <= i < params.match_strings->0@.len() && (is_part_of((#[trigger] params.match_strings->0@[i])@, summary) || is_part_of(
            params.match_strings->0@[i]@,
            narrative,
        )) {
        let i = choose|i: int|
            0 <= i < params.match_strings->0@.len() && (is_part_of((#[trigger] params.match_strings->0@[i])@, summary)
                || is_part_of(params.match_strings->0@[i]@, narrative));
        assert(asked[i] == params.match_strings->0@[i]@);
        assert(asked.contains(params.match_strings->0@[i]@));
    }
}

/// A query without filters finds all entries of its days with a valid timestamp; what a query with
/// filters finds is among them.
pub proof fn filters_only_narrow(
    params: WorklogQueryParams,
    all: WorklogQueryParams,
    start: int,
    end: int,
    entries: Seq<WorklogEntry>,
    entry: WorklogEntry,
)
    requires
        all.tags is None,
        all.components is None,
        all.match_strings is None,
    ensures
        found(all, start, end, entries).contains(entry) <==> entries.contains(entry) && timestamp(
            entry.timestamp@,
        ) is Some && start <= (timestamp(entry.timestamp@)->0).0 <= end,
        found(params, start, end, entries).contains(entry) ==> found(
            all,
            start,
            end,
            entries,
        ).contains(entry),
{
    queries_find_what_they_ask_for(all, start, end, entries, entry);
    queries_find_what_they_ask_for(params, start, end, entries, entry);
}

/// What a query finds comes by time, the earliest first.
pub proof fn found_entries_are_sorted_by_time(
    params: WorklogQueryParams,
    start: int,
    end: int,
    entries: Seq<WorklogEntry>,
    i: int,
    j: int,
)
    requires
        0 <= i < j < found(params, start, end, entries).len(),
    ensures
        ({
            let result = found(params, start, end, entries);
            let a = timestamp(result[i].timestamp@);
            let b = timestamp(result[j].timestamp@);
            &&& a is Some && b is Some
            &&& (a->0).1 < (b->0).1 || ((a->0).1 == (b->0).1 && (a->0).2 <= (b->0).2)
        }),
{
    let result = found(params, start, end, entries);
    lemma_found(params, start, end, entries);
    assert(no_later(result[i], result[j]));
    assert(timestamp(result[i].timestamp@) is Some);
    assert(timestamp(result[j].timestamp@) is Some);
}

/// An entry that is logged last is found after all that are no later, those of the same time among
/// them, and before all that are later.
pub proof fn later_logged_entries_come_later(
    params: WorklogQueryParams,
    start: int,
    end: int,
    entries: Seq<WorklogEntry>,
    entry: WorklogEntry,
)
    requires
        selected(params, start, end, entry),
    ensures
        ({
            let before = found(params, start, end, entries);
            let after = found(params, start, end, entries.push(entry));
            exists|p: int| #[trigger]
                before.insert(p, entry) == after && 0 <= p <= before.len() && (forall|i: int|
                    0 <= i < p ==> no_later(#[trigger] before[i], entry)) && (forall|i: int|
                    p <= i < before.len() ==> !no_later(#[trigger] before[i], entry))
        }),
{
    let before = found(params, start, end, entries);
    assert(entries.push(entry).drop_last() =~= entries);
    assert(entries.push(entry).last() == entry);
    lemma_found(params, start, end, entries);
    lemma_place(before, entry);
    lemma_after_place(before, entry);
    let p = place_of(before, entry);
    assert(before.insert(p, entry) == found(params, start, end, entries.push(entry)));
}

/// What stands after the place of an entry is later than it.
proof fn lemma_after_place(sorted: Seq<WorklogEntry>, entry: WorklogEntry)
    ensures
        0 <= place_of(sorted, entry) <= sorted.len(),
        forall|i: int|
            place_of(sorted, entry) <= i < sorted.len() ==> !no_later(#[trigger] sorted[i], entry),
    decreases sorted.len(),
{
    if sorted.len() > 0 && !no_later(sorted.last(), entry) {
        let rest = sorted.drop_last();
        lemma_after_place(rest, entry);
        assert forall|i: int| place_of(sorted, entry) <= i < sorted.len() implies !no_later(
            #[trigger] sorted[i],
            entry,
        ) by {
            if i < rest.len() {
                assert(rest[i] == sorted[i]);
            }
        }
    }
}

/// A list is shown after its name where it has items, each of them; and not at all where it has none.
pub proof fn shown_lists_have_all_items(name: Seq<char>, items: Seq<Seq<char>>, i: int)
    ensures
        items.len() == 0 ==> named_list(name, items).len() == 0,
        items.len() > 0 ==> (name + "=["@).is_prefix_of(named_list(name, items)),
        0 <= i < items.len() ==> is_part_of(items[i], named_list(name, items)),
{
    let shown = named_list(name, items);
    reveal_strlit("=[");
    reveal_strlit("=");
    reveal_strlit("[");
    if items.len() > 0 {
        let head = name + "=["@;
        assert(head =~= name + "="@ + "["@);
        assert(head =~= shown.take(head.len() as int));
        if 0 <= i < items.len() {
            let all = join(items, ", "@);
            joins_hold_their_parts(items, ", "@, i);
            assert(shown =~= head + all + ("]"@ + " "@));
            lemma_part(head, all, "]"@ + " "@);
            lemma_part_of_part(items[i], all, shown);
        }
    }
}

/// A narrative of at most 50 bytes is shown in full, between quotes. Of a longer one the beginning is
/// shown, up to 49 characters, and an ellipsis.
pub proof fn long_narratives_are_cut(narrative: Seq<char>)
    ensures
        ({
            let shown = narrative_text(narrative);
            let quoted = shown.skip("narrative=\""@.len() as int);
            &&& "narrative=\""@.is_prefix_of(shown)
            &&& shown.last() == '"'
            &&& byte_len(narrative) <= 50 ==> quoted.drop_last() == narrative
            &&& byte_len(narrative) > 50 ==> quoted.drop_last().last() == '…'
                && quoted.drop_last().drop_last().is_prefix_of(narrative) && (
            quoted.drop_last().drop_last().len() == 49 || quoted.drop_last().drop_last()
                == narrative)
        }),
{
    reveal_strlit("narrative=\"");
    reveal_strlit("\"");
    reveal_strlit("…\"");
    let shown = narrative_text(narrative);
    let head = "narrative=\""@;
    let quoted = shown.skip(head.len() as int);
    assert(head =~= shown.take(head.len() as int));
    if byte_len(narrative) <= 50 {
        assert(quoted.drop_last() =~= narrative);
    } else {
        first_characters_are_a_prefix(narrative, 49);
        assert(quoted.drop_last().drop_last() =~= first_chars(narrative, 49));
        if narrative.len() <= 49 {
            assert(first_chars(narrative, 49) == narrative);
        }
    }
}

/// Each of the texts that make up an entry is a part of it.
#[verifier::spinoff_prover]
proof fn lemma_parts_of_entry(
    head: Seq<char>,
    c: Seq<char>,
    d: Seq<char>,
    e: Seq<char>,
    f: Seq<char>,
    g: Seq<char>,
    h: Seq<char>,
    k: Seq<char>,
)
    ensures
        ({
            let shown = head + c + d + e + f + g + h + k;
            &&& is_part_of(head, shown)
            &&& is_part_of(c, shown)
            &&& is_part_of(d, shown)
            &&& is_part_of(e, shown)
            &&& is_part_of(f, shown)
            &&& is_part_of(g, shown)
            &&& is_part_of(h, shown)
        }),
{
    let shown = head + c + d + e + f + g + h + k;
    let none: Seq<Seq<char>> = seq![];
    let one = none.push(head);
    let two = one.push(c);
    let three = two.push(d);
    let four = three.push(e);
    let five = four.push(f);
    let six = five.push(g);
    let seven = six.push(h);
    let parts = seven.push(k);
    lemma_concat_push(none, head);
    lemma_concat_push(one, c);
    lemma_concat_push(two, d);
    lemma_concat_push(three, e);
    lemma_concat_push(four, f);
    lemma_concat_push(five, g);
    lemma_concat_push(six, h);
    lemma_concat_push(seven, k);
    assert(concat(none) + head =~= head);
    assert(concat(parts) == shown);
    all_parts_hold_each(parts, 0);
    all_parts_hold_each(parts, 1);
    all_parts_hold_each(parts, 2);
    all_parts_hold_each(parts, 3);
    all_parts_hold_each(parts, 4);
    all_parts_hold_each(parts, 5);
    all_parts_hold_each(parts, 6);
}

/// What is shown of an entry tells its summary, its effort, its components, its root cause and the
/// approach to fix it where there are any, its references, its tags, its narrative, and its time.
#[verifier::spinoff_prover]
pub proof fn shown_entries_tell_all(entry: WorklogEntry)
    ensures
        ({
            let shown = entry_text(entry);
            let settable = entry.settable;
            &&& is_part_of("summary="@ + debug_quoted(settable.summary@), shown)
            &&& is_part_of(
                "effort_mins="@ + decimal(settable.effort_minutes as nat) + " "@,
                shown,
            )
            &&& is_part_of(
                named_list("components"@, quoted_all(texts(settable.components@))),
                shown,
            )
            &&& settable.root_cause is Some ==> is_part_of(
                "root_cause="@ + debug_quoted(settable.root_cause->0@) + " "@,
                shown,
            )
            &&& settable.fix_approach is Some ==> is_part_of(
                "fix_approach="@ + debug_quoted(settable.fix_approach->0@) + " "@,
                shown,
            )
            &&& is_part_of(named_list("refs"@, reference_texts(settable.references@)), shown)
            &&& is_part_of(named_list("tags"@, tag_texts(settable.tags@)), shown)
            &&& is_part_of(narrative_text(settable.narrative@), shown)
            &&& (" timestamp="@ + entry.timestamp@).is_suffix_of(shown)
        }),
{
    let shown = entry_text(entry);
    let settable = entry.settable;
    let a = "summary="@ + debug_quoted(settable.summary@);
    let effort = "effort_mins="@ + decimal(settable.effort_minutes as nat) + " "@;
    let c = named_list("components"@, quoted_all(texts(settable.components@)));
    let d = named_option("root_cause"@, settable.root_cause);
    let e = named_option("fix_approach"@, settable.fix_approach);
    let f = named_list("refs"@, reference_texts(settable.references@));
    let g = named_list("tags"@, tag_texts(settable.tags@));
    let h = narrative_text(settable.narrative@);
    let k = " timestamp="@ + entry.timestamp@;
    let head = a + " "@ + effort;
    assert(head =~= "summary="@ + debug_quoted(settable.summary@) + " effort_mins="@ + decimal(
        settable.effort_minutes as nat,
    ) + " "@) by {
        reveal_strlit(" effort_mins=");
        reveal_strlit("effort_mins=");
        reveal_strlit(" ");
        assert(" effort_mins="@ =~= " "@ + "effort_mins="@);
    }
    assert(shown == head + c + d + e + f + g + h + k) by {
        assert(settable_text(settable) == head + c + d + e + f + g + h);
        assert(shown =~= settable_text(settable) + k);
    }
    lemma_parts_of_entry(head, c, d, e, f, g, h, k);
    lemma_part_of_itself(a);
    lemma_part_of_sum(a, a, " "@);
    lemma_part_of_sum(a, a + " "@, effort);
    lemma_part_of_part(a, head, shown);
    lemma_part_of_itself(effort);
    lemma_part_of_sum(effort, a + " "@, effort);
    lemma_part_of_part(effort, head, shown);
    assert(k =~= shown.skip(shown.len() - k.len()));
    assert("root_cause"@ + "="@ == "root_cause="@ && "fix_approach"@ + "="@ == "fix_approach="@) by {
        reveal_strlit("=");
        reveal_strlit("root_cause");
        reveal_strlit("root_cause=");
        reveal_strlit("fix_approach");
        reveal_strlit("fix_approach=");
        assert("root_cause"@ + "="@ =~= "root_cause="@);
        assert("fix_approach"@ + "="@ =~= "fix_approach="@);
    }
}

/// Tags go by their names, each by its own.
pub proof fn tags_go_by_their_names(a: WorklogTag, b: WorklogTag)
    ensures
        tag_text(a) == tag_text(b) <==> a == b,
        tag_text(WorklogTag::Bug) == "Bug"@,
        tag_text(WorklogTag::Review) == "Review"@,
        tag_text(WorklogTag::Feature) == "Feature"@,
        tag_text(WorklogTag::Chore) == "Chore"@,
        tag_text(WorklogTag::Meeting) == "Meeting"@,
{
    reveal_strlit("Bug");
    reveal_strlit("Review");
    reveal_strlit("Feature");
    reveal_strlit("Investigation");
    reveal_strlit("Chore");
    reveal_strlit("Meeting");
    assert("Bug"@.len() == 3 && "Review"@.len() == 6 && "Investigation"@.len() == 13
        && "Chore"@.len() == 5 && "Feature"@.len() == 7 && "Meeting"@.len() == 7);
    assert("Feature"@[0] == 'F' && "Meeting"@[0] == 'M');
}

/// References of different sorts are shown with their sorts, and each with its URL or its hash.
pub proof fn references_are_shown_with_their_sort(reference: WorklogReference)
    ensures
        match reference {
            WorklogReference::Issue { url } => "Issue {"@.is_prefix_of(reference_text(reference))
                && is_part_of("url: "@ + debug_quoted(url@), reference_text(reference)),
            WorklogReference::MergeRequest { url } => "MergeRequest {"@.is_prefix_of(
                reference_text(reference),
            ) && is_part_of("url: "@ + debug_quoted(url@), reference_text(reference)),
            WorklogReference::Commit { hash } => "Commit {"@.is_prefix_of(
                reference_text(reference),
            ) && is_part_of("hash: "@ + debug_quoted(hash@), reference_text(reference)),
        },
{
    let shown = reference_text(reference);
    reveal_strlit("Issue {");
    reveal_strlit("MergeRequest {");
    reveal_strlit("Commit {");
    reveal_strlit("Issue { url: ");
    reveal_strlit("MergeRequest { url: ");
    reveal_strlit("Commit { hash: ");
    reveal_strlit("url: ");
    reveal_strlit("hash: ");
    let gap: Seq<char> = seq![' '];
    match reference {
        WorklogReference::Issue { url } => {
            let head = "Issue {"@;
            let told = "url: "@ + debug_quoted(url@);
            assert(shown =~= (head + gap) + told + " }"@);
            lemma_part(head + gap, told, " }"@);
            assert(head =~= shown.take(head.len() as int));
        },
        WorklogReference::MergeRequest { url } => {
            let head = "MergeRequest {"@;
            let told = "url: "@ + debug_quoted(url@);
            assert(shown =~= (head + gap) + told + " }"@);
            lemma_part(head + gap, told, " }"@);
            assert(head =~= shown.take(head.len() as int));
        },
        WorklogReference::Commit { hash } => {
            let head = "Commit {"@;
            let told = "hash: "@ + debug_quoted(hash@);
            assert(shown =~= (head + gap) + told + " }"@);
            lemma_part(head + gap, told, " }"@);
            assert(head =~= shown.take(head.len() as int));
        },
    }
}

/// The files of a query are those of the weeks of its days, and no others: each is the file of a week
/// that one of the days is in, and no week comes twice.
pub proof fn plans_have_only_their_weeks(
    names: Seq<Seq<char>>,
    start: int,
    end: int,
    i: int,
    j: int,
)
    requires
        week_files(names, start, end),
        0 <= i < names.len(),
        0 <= j < names.len(),
    ensures
        exists|day: int| start <= day <= end && is_week_file(names[i], #[trigger] week_of(day)),
        names[i] == names[j] ==> i == j,
{
    let week = week_of(start) + i;
    let monday = 7 * week + 1;
    let day = if monday < start {
        start
    } else {
        monday
    };
    assert(week_of(day) == week);
    assert(day <= end);
    assert(is_week_file(names[i], week_of(start) + i));
    assert(is_week_file(names[j], week_of(start) + j));
    if names[i] == names[j] {
        weeks_have_their_own_files(names[i], week_of(start) + i, week_of(start) + j);
    }
}

} // verus!
