//! The kept text of a planner: how its records are written and how a text
//! is read.
//!
//! A record stands between braces and holds its fields in a fixed order,
//! each behind a one-letter key:
//!
//! ```text
//! planner  {  a flag   m manager   n text  }
//! manager  {  l lists  n text      a flag  }
//! list     {  n text   i items     e text   d date  }
//! item     {  n text   c flag      d date  }
//! ```
//!
//! Lists and items stand between brackets, one record after another. A flag
//! is `t` or `f`; a text is the number of its characters, a colon and the
//! characters; a date is year, month and day with `-` between them and `;`
//! at the end. The empty planner is `{afm{l[]n0:af}n0:}`.
//!
//! Any field may be missing. Reading then gives it its zero value, so that a
//! text written before a field existed can still be read.

use crate::date::DateView;
use crate::item::ItemView;
use crate::manager::ManagerView;
use crate::planner::PlannerView;
use crate::text::{
    bool_text, date_text, parse_bool, parse_char, parse_date, parse_string, starts_with, string_text,
};
use crate::todo_list::TodoListView;
use vstd::prelude::*;

verus! {

/// An item as a text may hold it: each field there or missing.
pub ghost struct ItemRecord {
    pub name: Option<Seq<char>>,
    pub completed: Option<bool>,
    pub date: Option<DateView>,
}

/// A list as a text may hold it.
pub ghost struct ListRecord {
    pub list_name: Option<Seq<char>>,
    pub items: Option<Seq<ItemRecord>>,
    pub current_item_name: Option<Seq<char>>,
    pub current_list_date: Option<DateView>,
}

/// A manager as a text may hold it.
pub ghost struct ManagerRecord {
    pub todo_lists: Option<Seq<ListRecord>>,
    pub current_list_name: Option<Seq<char>>,
    pub add_new_list: Option<bool>,
}

/// A planner as a text may hold it.
pub ghost struct PlannerRecord {
    pub add_new_list: Option<bool>,
    pub list_manager: Option<ManagerRecord>,
    pub new_list_name: Option<Seq<char>>,
}

/// A field of a record: its key and its text, or nothing where it is missing.
pub open spec fn field(key: char, body: Option<Seq<char>>) -> Seq<char> {
    match body {
        Some(text) => seq![key] + text,
        None => Seq::empty(),
    }
}

#[verifier::opaque]
pub open spec fn string_field(key: char, value: Option<Seq<char>>) -> Seq<char> {
    field(
        key,
        match value {
            Some(t) => Some(string_text(t)),
            None => None,
        },
    )
}

#[verifier::opaque]
pub open spec fn bool_field(key: char, value: Option<bool>) -> Seq<char> {
    field(
        key,
        match value {
            Some(b) => Some(bool_text(b)),
            None => None,
        },
    )
}

#[verifier::opaque]
pub open spec fn date_field(key: char, value: Option<DateView>) -> Seq<char> {
    field(
        key,
        match value {
            Some(d) => Some(date_text(d)),
            None => None,
        },
    )
}

/// The texts of the items, one after another.
pub open spec fn items_text(items: Seq<ItemRecord>) -> Seq<char>
    decreases items.len(),
{
    if items.len() == 0 {
        Seq::empty()
    } else {
        items[0].text() + items_text(items.skip(1))
    }
}

#[verifier::opaque]
pub open spec fn items_field(key: char, value: Option<Seq<ItemRecord>>) -> Seq<char> {
    field(
        key,
        match value {
            Some(items) => Some(seq!['['] + items_text(items) + seq![']']),
            None => None,
        },
    )
}

/// The texts of the lists, one after another.
pub open spec fn lists_text(lists: Seq<ListRecord>) -> Seq<char>
    decreases lists.len(),
{
    if lists.len() == 0 {
        Seq::empty()
    } else {
        lists[0].text() + lists_text(lists.skip(1))
    }
}

#[verifier::opaque]
pub open spec fn lists_field(key: char, value: Option<Seq<ListRecord>>) -> Seq<char> {
    field(
        key,
        match value {
            Some(lists) => Some(seq!['['] + lists_text(lists) + seq![']']),
            None => None,
        },
    )
}

#[verifier::opaque]
pub open spec fn manager_field(key: char, value: Option<ManagerRecord>) -> Seq<char> {
    field(
        key,
        match value {
            Some(manager) => Some(manager.text()),
            None => None,
        },
    )
}

pub open spec fn string_or_empty(value: Option<Seq<char>>) -> Seq<char> {
    match value {
        Some(t) => t,
        None => Seq::empty(),
    }
}

pub open spec fn bool_or_false(value: Option<bool>) -> bool {
    match value {
        Some(b) => b,
        None => false,
    }
}

pub open spec fn date_or_epoch(value: Option<DateView>) -> DateView {
    match value {
        Some(d) => d,
        None => DateView::epoch(),
    }
}

pub open spec fn date_is_valid(value: Option<DateView>) -> bool {
    value matches Some(d) ==> d.is_valid()
}

impl ItemRecord {
    /// The dates that are there are days that exist.
    pub open spec fn wf(self) -> bool {
        date_is_valid(self.date)
    }

    pub open spec fn text(self) -> Seq<char> {
        seq!['{'] + string_field('n', self.name) + bool_field('c', self.completed) + date_field(
            'd',
            self.date,
        ) + seq!['}']
    }

    /// The item that the record stands for: a missing name is empty, a
    /// missing flag false, a missing date 1 January 1970.
    pub open spec fn value(self) -> ItemView {
        ItemView {
            name: string_or_empty(self.name),
            completed: bool_or_false(self.completed),
            date: date_or_epoch(self.date),
        }
    }

    /// The record of an item, with every field there.
    pub open spec fn of(item: ItemView) -> ItemRecord {
        ItemRecord { name: Some(item.name), completed: Some(item.completed), date: Some(item.date) }
    }
}

pub open spec fn items_wf(items: Seq<ItemRecord>) -> bool {
    forall|i: int| 0 <= i < items.len() ==> (#[trigger] items[i]).wf()
}

pub open spec fn items_value(items: Seq<ItemRecord>) -> Seq<ItemView> {
    items.map_values(|record: ItemRecord| record.value())
}

pub open spec fn items_of(items: Seq<ItemView>) -> Seq<ItemRecord> {
    items.map_values(|item: ItemView| ItemRecord::of(item))
}

impl ListRecord {
    pub open spec fn wf(self) -> bool {
        &&& date_is_valid(self.current_list_date)
        &&& self.items matches Some(items) ==> items_wf(items)
    }

    pub open spec fn text(self) -> Seq<char> {
        seq!['{'] + string_field('n', self.list_name) + items_field('i', self.items)
            + string_field('e', self.current_item_name) + date_field('d', self.current_list_date)
            + seq!['}']
    }

    /// The list that the record stands for: missing items are none.
    pub open spec fn value(self) -> TodoListView {
        TodoListView {
            list_name: string_or_empty(self.list_name),
            items: match self.items {
                Some(items) => items_value(items),
                None => Seq::empty(),
            },
            current_item_name: string_or_empty(self.current_item_name),
            current_list_date: date_or_epoch(self.current_list_date),
        }
    }

    pub open spec fn of(list: TodoListView) -> ListRecord {
        ListRecord {
            list_name: Some(list.list_name),
            items: Some(items_of(list.items)),
            current_item_name: Some(list.current_item_name),
            current_list_date: Some(list.current_list_date),
        }
    }
}

pub open spec fn lists_wf(lists: Seq<ListRecord>) -> bool {
    forall|i: int| 0 <= i < lists.len() ==> (#[trigger] lists[i]).wf()
}

pub open spec fn lists_value(lists: Seq<ListRecord>) -> Seq<TodoListView> {
    lists.map_values(|record: ListRecord| record.value())
}

pub open spec fn lists_of(lists: Seq<TodoListView>) -> Seq<ListRecord> {
    lists.map_values(|list: TodoListView| ListRecord::of(list))
}

/// The lists of a manager that was given these lists one after another:
/// of two lists with one name the later stands, in the place of the earlier.
pub open spec fn gathered(lists: Seq<TodoListView>) -> Seq<TodoListView> {
    ManagerView::empty().insert_all(lists).todo_lists
}

impl ManagerRecord {
    pub open spec fn wf(self) -> bool {
        self.todo_lists matches Some(lists) ==> lists_wf(lists)
    }

    pub open spec fn text(self) -> Seq<char> {
        seq!['{'] + lists_field('l', self.todo_lists) + string_field('n', self.current_list_name)
            + bool_field('a', self.add_new_list) + seq!['}']
    }

    /// The manager that the record stands for: missing lists are none.
    pub open spec fn value(self) -> ManagerView {
        ManagerView {
            todo_lists: match self.todo_lists {
                Some(lists) => gathered(lists_value(lists)),
                None => Seq::empty(),
            },
            current_list_name: string_or_empty(self.current_list_name),
            add_new_list: bool_or_false(self.add_new_list),
        }
    }

    pub open spec fn of(manager: ManagerView) -> ManagerRecord {
        ManagerRecord {
            todo_lists: Some(lists_of(manager.todo_lists)),
            current_list_name: Some(manager.current_list_name),
            add_new_list: Some(manager.add_new_list),
        }
    }
}

impl PlannerRecord {
    pub open spec fn wf(self) -> bool {
        self.list_manager matches Some(manager) ==> manager.wf()
    }

    pub open spec fn text(self) -> Seq<char> {
        seq!['{'] + bool_field('a', self.add_new_list) + manager_field('m', self.list_manager)
            + string_field('n', self.new_list_name) + seq!['}']
    }

    /// The planner that the record stands for: a missing manager is empty.
    pub open spec fn value(self) -> PlannerView {
        PlannerView {
            add_new_list: bool_or_false(self.add_new_list),
            list_manager: match self.list_manager {
                Some(manager) => manager.value(),
                None => ManagerView::empty(),
            },
            new_list_name: string_or_empty(self.new_list_name),
        }
    }

    pub open spec fn of(planner: PlannerView) -> PlannerRecord {
        PlannerRecord {
            add_new_list: Some(planner.add_new_list),
            list_manager: Some(ManagerRecord::of(planner.list_manager)),
            new_list_name: Some(planner.new_list_name),
        }
    }
}

/// The text in which a planner is kept: every field of every record is there.
pub open spec fn planner_text(planner: PlannerView) -> Seq<char> {
    PlannerRecord::of(planner).text()
}

#[verifier::opaque]
pub open spec fn parse_string_field(s: Seq<char>, key: char) -> Option<(Seq<char>, Seq<char>)> {
    if starts_with(s, key) {
        parse_string(s.skip(1))
    } else {
        Some((Seq::empty(), s))
    }
}

#[verifier::opaque]
pub open spec fn parse_bool_field(s: Seq<char>, key: char) -> Option<(bool, Seq<char>)> {
    if starts_with(s, key) {
        parse_bool(s.skip(1))
    } else {
        Some((false, s))
    }
}

#[verifier::opaque]
pub open spec fn parse_date_field(s: Seq<char>, key: char) -> Option<(DateView, Seq<char>)> {
    if starts_with(s, key) {
        parse_date(s.skip(1))
    } else {
        Some((DateView::epoch(), s))
    }
}

pub open spec fn parse_item(s: Seq<char>) -> Option<(ItemView, Seq<char>)> {
    match parse_char(s, '{') {
        Some(s0) => match parse_string_field(s0, 'n') {
            Some((name, s1)) => match parse_bool_field(s1, 'c') {
                Some((completed, s2)) => match parse_date_field(s2, 'd') {
                    Some((date, s3)) => match parse_char(s3, '}') {
                        Some(rest) => Some((ItemView { name, completed, date }, rest)),
                        None => None,
                    },
                    None => None,
                },
                None => None,
            },
            None => None,
        },
        None => None,
    }
}

/// Reads items up to the closing bracket.
pub open spec fn parse_items_tail(s: Seq<char>) -> Option<(Seq<ItemView>, Seq<char>)>
    decreases s.len(),
{
    if starts_with(s, ']') {
        Some((Seq::empty(), s.skip(1)))
    } else {
        match parse_item(s) {
            Some((item, after)) => if after.len() < s.len() {
                match parse_items_tail(after) {
                    Some((items, rest)) => Some((seq![item] + items, rest)),
                    None => None,
                }
            } else {
                None
            },
            None => None,
        }
    }
}

pub open spec fn parse_items(s: Seq<char>) -> Option<(Seq<ItemView>, Seq<char>)> {
    match parse_char(s, '[') {
        Some(body) => parse_items_tail(body),
        None => None,
    }
}

#[verifier::opaque]
pub open spec fn parse_items_field(s: Seq<char>, key: char) -> Option<(Seq<ItemView>, Seq<char>)> {
    if starts_with(s, key) {
        parse_items(s.skip(1))
    } else {
        Some((Seq::empty(), s))
    }
}

pub open spec fn parse_list(s: Seq<char>) -> Option<(TodoListView, Seq<char>)> {
    match parse_char(s, '{') {
        Some(s0) => match parse_string_field(s0, 'n') {
            Some((list_name, s1)) => match parse_items_field(s1, 'i') {
                Some((items, s2)) => match parse_string_field(s2, 'e') {
                    Some((current_item_name, s3)) => match parse_date_field(s3, 'd') {
                        Some((current_list_date, s4)) => match parse_char(s4, '}') {
                            Some(rest) => Some(
                                (
                                    TodoListView {
                                        list_name,
                                        items,
                                        current_item_name,
                                        current_list_date,
                                    },
                                    rest,
                                ),
                            ),
                            None => None,
                        },
                        None => None,
                    },
                    None => None,
                },
                None => None,
            },
            None => None,
        },
        None => None,
    }
}

/// Reads lists up to the closing bracket.
pub open spec fn parse_lists_tail(s: Seq<char>) -> Option<(Seq<TodoListView>, Seq<char>)>
    decreases s.len(),
{
    if starts_with(s, ']') {
        Some((Seq::empty(), s.skip(1)))
    } else {
        match parse_list(s) {
            Some((list, after)) => if after.len() < s.len() {
                match parse_lists_tail(after) {
                    Some((lists, rest)) => Some((seq![list] + lists, rest)),
                    None => None,
                }
            } else {
                None
            },
            None => None,
        }
    }
}

pub open spec fn parse_lists(s: Seq<char>) -> Option<(Seq<TodoListView>, Seq<char>)> {
    match parse_char(s, '[') {
        Some(body) => parse_lists_tail(body),
        None => None,
    }
}

#[verifier::opaque]
pub open spec fn parse_lists_field(s: Seq<char>, key: char) -> Option<
    (Seq<TodoListView>, Seq<char>),
> {
    if starts_with(s, key) {
        parse_lists(s.skip(1))
    } else {
        Some((Seq::empty(), s))
    }
}

pub open spec fn parse_manager(s: Seq<char>) -> Option<(ManagerView, Seq<char>)> {
    match parse_char(s, '{') {
        Some(s0) => match parse_lists_field(s0, 'l') {
            Some((lists, s1)) => match parse_string_field(s1, 'n') {
                Some((current_list_name, s2)) => match parse_bool_field(s2, 'a') {
                    Some((add_new_list, s3)) => match parse_char(s3, '}') {
                        Some(rest) => Some(
                            (
                                ManagerView {
                                    todo_lists: gathered(lists),
                                    current_list_name,
                                    add_new_list,
                                },
                                rest,
                            ),
                        ),
                        None => None,
                    },
                    None => None,
                },
                None => None,
            },
            None => None,
        },
        None => None,
    }
}

#[verifier::opaque]
pub open spec fn parse_manager_field(s: Seq<char>, key: char) -> Option<(ManagerView, Seq<char>)> {
    if starts_with(s, key) {
        parse_manager(s.skip(1))
    } else {
        Some((ManagerView::empty(), s))
    }
}

pub open spec fn parse_planner(s: Seq<char>) -> Option<(PlannerView, Seq<char>)> {
    match parse_char(s, '{') {
        Some(s0) => match parse_bool_field(s0, 'a') {
            Some((add_new_list, s1)) => match parse_manager_field(s1, 'm') {
                Some((list_manager, s2)) => match parse_string_field(s2, 'n') {
                    Some((new_list_name, s3)) => match parse_char(s3, '}') {
                        Some(rest) => Some(
                            (PlannerView { add_new_list, list_manager, new_list_name }, rest),
                        ),
                        None => None,
                    },
                    None => None,
                },
                None => None,
            },
            None => None,
        },
        None => None,
    }
}

/// The planner that a kept text holds: the text must be one planner record
/// and nothing after it.
pub open spec fn decode(s: Seq<char>) -> Option<PlannerView> {
    match parse_planner(s) {
        Some((planner, rest)) => if rest.len() == 0 {
            Some(planner)
        } else {
            None
        },
        None => None,
    }
}

/// The planner to start from: the one the kept text holds, or the empty one
/// where no text was kept or the text holds none.
pub open spec fn restore(stored: Option<Seq<char>>) -> PlannerView {
    match stored {
        Some(s) => match decode(s) {
            Some(planner) => planner,
            None => PlannerView::empty(),
        },
        None => PlannerView::empty(),
    }
}

} // verus!
