//! A to-do list that the assistant keeps.

use crate::string_map::StringMap;
use crate::text::{
    is_part_of, join, joins_hold_their_parts, push_joined, push_shortened, shortened, texts, with_id,
};
use vstd::prelude::*;

verus! {

/// To-do list; `P` is where it is stored
#[derive(Debug)]
pub struct TodoFile<P> {
    /// Path where to load/store the content
    path: P,
    /// Content of the list
    content: StringMap<TodoElement>,
}

/// To-do list item
#[derive(Debug)]
pub struct TodoElement {
    /// Ticket URL if any
    pub ticket: Option<String>,
    /// What there is to do
    pub description: String,
}

/// Add an item to the to-do list
#[derive(Debug)]
pub struct TodoAddParams {
    /// Meaningful ID to distinguish from other items
    pub id: String,
    /// Ticket URL, if any
    pub ticket: Option<String>,
    /// What there is to do
    pub description: String,
}

/// Result of adding a new to-do item
#[derive(Debug)]
pub struct TodoAddResult {
    /// ID of the new item
    pub id: String,
}

/// Remove an item from the to-do list
#[derive(Debug)]
pub struct TodoRemoveParams {
    /// ID of the item to remove
    pub id: String,
}

/// Result of removing a to-do item
#[derive(Debug)]
pub struct TodoRemoveResult {
    /// ID of the removed item
    pub id: String,
}

/// Edit an existing item on the to-do list
#[derive(Debug)]
pub struct TodoEditParams {
    /// ID of the existing item on the list
    pub id: String,
    /// Update the ticket URL; will be removed if omitted
    pub ticket: Option<String>,
    /// Update what there is to do
    pub description: String,
}

/// Result of editing a to-do item
#[derive(Debug)]
pub struct TodoEditResult {
    /// ID of the item that has been edited
    pub id: String,
}

/// All items on the to-do list
#[derive(Debug)]
pub struct TodoListResult<'a> {
    /// The full to-do list, keyed by ID
    pub list: &'a StringMap<TodoElement>,
}

/// The tool that adds items
#[derive(Clone, Copy, Debug)]
pub struct TodoAdd {}

/// The tool that removes items
#[derive(Clone, Copy, Debug)]
pub struct TodoRemove {}

/// The tool that edits items
#[derive(Clone, Copy, Debug)]
pub struct TodoEdit {}

/// The tool that lists all items
#[derive(Clone, Copy, Debug)]
pub struct TodoList {}

/// What is said of an ID that is taken.
pub open spec fn exists_text(id: Seq<char>) -> Seq<char> {
    "Item with ID "@ + id + " already exists in the to-do list"@
}

/// What is said of an ID that is not there.
pub open spec fn missing_text(id: Seq<char>) -> Seq<char> {
    "Item with ID "@ + id + " does not exist in the to-do list"@
}

/// An item, with its ticket if it has one.
pub open spec fn item_text(ticket: Option<String>, description: String) -> Seq<char> {
    (match ticket {
        Some(ticket) => "ticket="@ + ticket@ + " "@,
        None => seq![],
    }) + "desc="@ + shortened(description@)
}

/// The items of a list, each with its ID.
pub open spec fn item_texts(ids: Seq<Seq<char>>, items: Seq<TodoElement>) -> Seq<Seq<char>> {
    Seq::new(
        ids.len(),
        |i: int| ids[i] + "={"@ + item_text(items[i].ticket, items[i].description) + "}"@,
    )
}

impl<P> TodoFile<P> {
    /// The items by ID.
    pub closed spec fn items(&self) -> Map<Seq<char>, TodoElement> {
        self.content@
    }

    /// Where the list is stored.
    pub closed spec fn place(&self) -> P {
        self.path
    }

    /// The to-do list with the given content, stored at `path`.
    pub fn open(path: P, content: StringMap<TodoElement>) -> (r: Self)
        ensures
            r.place() == path,
            r.items() == content@,
    {
        TodoFile { path, content }
    }

    /// Where the list is stored.
    pub fn path(&self) -> (r: &P)
        ensures
            *r == self.place(),
    {
        &self.path
    }

    /// What is to be stored.
    pub fn content(&self) -> (r: &StringMap<TodoElement>)
        ensures
            r@ == self.items(),
    {
        &self.content
    }
}

/// Appends an item.
fn push_item(out: &mut String, ticket: &Option<String>, description: &String)
    ensures
        final(out)@ == old(out)@ + item_text(*ticket, *description),
{
    let ghost start = out@;
    match ticket {
        Some(ticket) => {
            out.append("ticket=");
            out.append(ticket.as_str());
            out.append(" ");
        },
        None => {},
    }
    out.append("desc=");
    push_shortened(out, description.as_str());
    assert(out@ =~= start + item_text(*ticket, *description));
}

impl TodoAdd {
    /// Create a todo_add tool.
    pub fn new() -> (r: Self)
        ensures
            r == (TodoAdd {  }),
    {
        TodoAdd {  }
    }

    /// Adds an item, unless its ID is taken.
    pub fn execute<P>(&self, file: &mut TodoFile<P>, params: TodoAddParams) -> (r: Result<
        TodoAddResult,
        String,
    >)
        ensures
            final(file).place() == old(file).place(),
            if old(file).items().contains_key(params.id@) {
                &&& r matches Err(error) && error@ == exists_text(params.id@)
                &&& *final(file) == *old(file)
            } else {
                &&& r == Ok::<TodoAddResult, String>(TodoAddResult { id: params.id })
                &&& final(file).items() == old(file).items().insert(
                    params.id@,
                    TodoElement { ticket: params.ticket, description: params.description },
                )
            },
    {
        if file.content.contains_key(params.id.as_str()) {
            return Err(
                with_id(
                    "Item with ID ",
                    params.id.as_str(),
                    " already exists in the to-do list",
                ),
            );
        }
        file.content.insert(
            params.id.clone(),
            TodoElement { ticket: params.ticket, description: params.description },
        );
        Ok(TodoAddResult { id: params.id })
    }
}

impl TodoRemove {
    /// Create a todo_remove tool.
    pub fn new() -> (r: Self)
        ensures
            r == (TodoRemove {  }),
    {
        TodoRemove {  }
    }

    /// Removes an item, if it is there.
    pub fn execute<P>(&self, file: &mut TodoFile<P>, params: TodoRemoveParams) -> (r: Result<
        TodoRemoveResult,
        String,
    >)
        ensures
            final(file).place() == old(file).place(),
            if old(file).items().contains_key(params.id@) {
                &&& r == Ok::<TodoRemoveResult, String>(TodoRemoveResult { id: params.id })
                &&& final(file).items() == old(file).items().remove(params.id@)
            } else {
                &&& r matches Err(error) && error@ == missing_text(params.id@)
                &&& *final(file) == *old(file)
            },
    {
        if !file.content.contains_key(params.id.as_str()) {
            return Err(
                with_id(
                    "Item with ID ",
                    params.id.as_str(),
                    " does not exist in the to-do list",
                ),
            );
        }
        file.content.remove(params.id.as_str());
        Ok(TodoRemoveResult { id: params.id })
    }
}

impl TodoEdit {
    /// Create a todo_edit tool.
    pub fn new() -> (r: Self)
        ensures
            r == (TodoEdit {  }),
    {
        TodoEdit {  }
    }

    /// Replaces the ticket and the description of an item, if it is there.
    pub fn execute<P>(&self, file: &mut TodoFile<P>, params: TodoEditParams) -> (r: Result<
        TodoEditResult,
        String,
    >)
        ensures
            final(file).place() == old(file).place(),
            if old(file).items().contains_key(params.id@) {
                &&& r == Ok::<TodoEditResult, String>(TodoEditResult { id: params.id })
                &&& final(file).items() == old(file).items().insert(
                    params.id@,
                    TodoElement { ticket: params.ticket, description: params.description },
                )
            } else {
                &&& r matches Err(error) && error@ == missing_text(params.id@)
                &&& *final(file) == *old(file)
            },
    {
        if !file.content.contains_key(params.id.as_str()) {
            return Err(
                with_id(
                    "Item with ID ",
                    params.id.as_str(),
                    " does not exist in the to-do list",
                ),
            );
        }
        file.content.insert(
            params.id.clone(),
            TodoElement { ticket: params.ticket, description: params.description },
        );
        Ok(TodoEditResult { id: params.id })
    }
}

impl TodoList {
    /// Create a todo_list tool.
    pub fn new() -> (r: Self)
        ensures
            r == (TodoList {  }),
    {
        TodoList {  }
    }

    /// All items.
    pub fn execute<'a, P>(&self, file: &'a TodoFile<P>) -> (r: TodoListResult<'a>)
        ensures
            r.list@ == file.items(),
    {
        TodoListResult { list: &file.content }
    }
}

impl TodoAddParams {
    /// The parameters in a form for display.
    pub fn display(&self) -> (r: String)
        ensures
            r@ == "id="@ + self.id@ + " "@ + item_text(self.ticket, self.description),
    {
        let mut out = with_id("id=", self.id.as_str(), " ");
        push_item(&mut out, &self.ticket, &self.description);
        out
    }
}

impl TodoEditParams {
    /// The parameters in a form for display.
    pub fn display(&self) -> (r: String)
        ensures
            r@ == "id="@ + self.id@ + " "@ + item_text(self.ticket, self.description),
    {
        let mut out = with_id("id=", self.id.as_str(), " ");
        push_item(&mut out, &self.ticket, &self.description);
        out
    }
}

/// An ID in a form for display, as the other parameters and results have it.
pub fn display_id(id: &str) -> (r: String)
    ensures
        r@ == "id="@ + id@,
{
    let mut out = String::new();
    out.append("id=");
    out.append(id);
    assert(out@ =~= "id="@ + id@);
    out
}

impl<'a> TodoListResult<'a> {
    /// The items in a form for display.
    pub fn display(&self) -> (r: String)
        ensures
            r@ == join(item_texts(self.list.keys(), self.list.values()), "; "@),
    {
        let mut parts: Vec<String> = Vec::new();
        let count: usize = self.list.len();
        let ghost all = item_texts(self.list.keys(), self.list.values());
        assert(texts(parts@) =~= all.take(0));
        for i in 0..count
            invariant
                count == self.list.keys().len(),
                all == item_texts(self.list.keys(), self.list.values()),
                texts(parts@) == all.take(i as int),
        {
            let item = self.list.value_at(i);
            let mut part = with_id("", self.list.key_at(i).as_str(), "={");
            proof {
                reveal_strlit("");
                assert(part@ =~= self.list.keys()[i as int] + "={"@);
            }
            push_item(&mut part, &item.ticket, &item.description);
            part.append("}");
            let ghost before = parts@;
            parts.push(part);
            proof {
                assert(part@ =~= all[i as int]);
                assert(texts(parts@) =~= texts(before).push(part@));
                assert(texts(parts@) =~= all.take(i + 1));
            }
        }
        assert(all.take(all.len() as int) =~= all);
        let mut out = String::new();
        push_joined(&mut out, &parts, "; ");
        assert(out@ =~= join(all, "; "@));
        out
    }
}

/// The items after an item was added.
pub open spec fn added(
    items: Map<Seq<char>, TodoElement>,
    id: Seq<char>,
    item: TodoElement,
) -> Map<Seq<char>, TodoElement> {
    if items.contains_key(id) {
        items
    } else {
        items.insert(id, item)
    }
}

/// Removing an item that was added leaves the list as it was.
pub proof fn removing_undoes_adding(
    items: Map<Seq<char>, TodoElement>,
    id: Seq<char>,
    item: TodoElement,
)
    requires
        !items.contains_key(id),
    ensures
        added(items, id, item).contains_key(id),
        added(items, id, item)[id] == item,
        added(items, id, item).remove(id) == items,
{
    assert(added(items, id, item).remove(id) =~= items);
}

/// Adding never replaces an item.
pub proof fn adding_keeps_what_is_there(
    items: Map<Seq<char>, TodoElement>,
    id: Seq<char>,
    item: TodoElement,
    other: Seq<char>,
)
    requires
        items.contains_key(other),
    ensures
        added(items, id, item).contains_key(other),
        added(items, id, item)[other] == items[other],
{
}

/// What is shown of an item tells its description, cut where it is long, and its ticket if it has one.
pub proof fn shown_items_tell_ticket_and_description(ticket: Option<String>, description: String)
    ensures
        ("desc="@ + shortened(description@)).is_suffix_of(item_text(ticket, description)),
        ticket is Some ==> ("ticket="@ + ticket->0@ + " desc="@).is_prefix_of(
            item_text(ticket, description),
        ),
        ticket is None ==> item_text(ticket, description) == "desc="@ + shortened(description@),
{
    let shown = item_text(ticket, description);
    let tail = "desc="@ + shortened(description@);
    assert(tail =~= shown.skip(shown.len() - tail.len()));
    match ticket {
        Some(ticket) => {
            reveal_strlit(" desc=");
            reveal_strlit("desc=");
            reveal_strlit(" ");
            let head = "ticket="@ + ticket@ + " desc="@;
            assert(" desc="@ =~= " "@ + "desc="@);
            assert(head =~= shown.take(head.len() as int));
        },
        None => {
            assert(shown =~= tail);
        },
    }
}

/// What is shown of the list has each of its items with its ID, in their order.
pub proof fn shown_lists_have_all_items(ids: Seq<Seq<char>>, items: Seq<TodoElement>, i: int)
    requires
        0 <= i < ids.len(),
    ensures
        item_texts(ids, items).len() == ids.len(),
        item_texts(ids, items)[i] == ids[i] + "={"@ + item_text(
            items[i].ticket,
            items[i].description,
        ) + "}"@,
        is_part_of(item_texts(ids, items)[i], join(item_texts(ids, items), "; "@)),
{
    joins_hold_their_parts(item_texts(ids, items), "; "@, i);
}

} // verus!
