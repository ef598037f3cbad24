//! A named to-do list and the events of its window.

use crate::date::{Date, DateView};
use crate::item::{item_views, ItemView, ListItem};
use vstd::prelude::*;

verus! {

/// What a to-do list holds: its items in the order they were added, and the
/// two input fields of its window.
pub ghost struct TodoListView {
    pub list_name: Seq<char>,
    pub items: Seq<ItemView>,
    pub current_item_name: Seq<char>,
    pub current_list_date: DateView,
}

/// What a list's window can report.
pub ghost enum ListEventView {
    Toggle(int),
    EditItemName(Seq<char>),
    PickDate(DateView),
    AddItem,
}

impl ListEventView {
    /// A date that was picked is a day that exists.
    pub open spec fn wf(self) -> bool {
        self matches ListEventView::PickDate(date) ==> date.is_valid()
    }
}

impl TodoListView {
    /// Every date in the list is a day that exists.
    pub open spec fn wf(self) -> bool {
        &&& self.current_list_date.is_valid()
        &&& forall|i: int| 0 <= i < self.items.len() ==> (#[trigger] self.items[i]).wf()
    }

    /// A new list: no items, an empty name field, the date field at its default.
    pub open spec fn empty(list_name: Seq<char>) -> TodoListView {
        TodoListView {
            list_name,
            items: Seq::empty(),
            current_item_name: Seq::empty(),
            current_list_date: DateView::epoch(),
        }
    }

    /// The list with the completion flag of item `index` flipped; the list
    /// itself where there is no such item.
    pub open spec fn toggle_item(self, index: int) -> TodoListView {
        if 0 <= index < self.items.len() {
            TodoListView { items: self.items.update(index, self.items[index].toggled()), ..self }
        } else {
            self
        }
    }

    /// The list with one more item at its end, not completed, and the name
    /// field cleared. The date field stays as it is.
    pub open spec fn submit_new_item(self, name: Seq<char>, date: DateView) -> TodoListView {
        TodoListView {
            items: self.items.push(ItemView::fresh(name, date)),
            current_item_name: Seq::empty(),
            ..self
        }
    }

    /// The list after `submit_new_item` for each entry in turn.
    pub open spec fn submit_new_items(self, entries: Seq<(Seq<char>, DateView)>) -> TodoListView
        decreases entries.len(),
    {
        if entries.len() == 0 {
            self
        } else {
            self.submit_new_items(entries.drop_last()).submit_new_item(
                entries.last().0,
                entries.last().1,
            )
        }
    }

    /// The list after one event of its window.
    pub open spec fn show(self, event: ListEventView) -> TodoListView {
        match event {
            ListEventView::Toggle(index) => self.toggle_item(index),
            ListEventView::EditItemName(text) => TodoListView { current_item_name: text, ..self },
            ListEventView::PickDate(date) => TodoListView { current_list_date: date, ..self },
            ListEventView::AddItem => self.submit_new_item(
                self.current_item_name,
                self.current_list_date,
            ),
        }
    }
}

/// Adding items only lengthens a list: after any number of additions the
/// items that were there come first, unchanged, and the new ones follow in
/// the order in which they were added, none of them completed. So the length
/// grows by exactly the number of additions, whatever the names were.
pub proof fn lemma_items_are_appended(list: TodoListView, entries: Seq<(Seq<char>, DateView)>)
    ensures
        list.submit_new_items(entries).items == list.items + entries.map_values(
            |entry: (Seq<char>, DateView)| ItemView::fresh(entry.0, entry.1),
        ),
        list.submit_new_items(entries).items.len() == list.items.len() + entries.len(),
        list.submit_new_items(entries).list_name == list.list_name,
        list.submit_new_items(entries).current_list_date == list.current_list_date,
    decreases entries.len(),
{
    if entries.len() > 0 {
        lemma_items_are_appended(list, entries.drop_last());
        let fresh = |entry: (Seq<char>, DateView)| ItemView::fresh(entry.0, entry.1);
        assert(entries.map_values(fresh) =~= entries.drop_last().map_values(fresh).push(
            fresh(entries.last()),
        ));
        assert(list.submit_new_items(entries).items =~= list.items + entries.map_values(fresh));
    } else {
        assert(list.items =~= list.items + entries.map_values(
            |entry: (Seq<char>, DateView)| ItemView::fresh(entry.0, entry.1),
        ));
    }
}

/// Toggling the same item twice gives back the list as it was.
pub proof fn lemma_toggle_twice(list: TodoListView, index: int)
    ensures
        list.toggle_item(index).toggle_item(index) == list,
{
    if 0 <= index < list.items.len() {
        assert(list.toggle_item(index).toggle_item(index).items =~= list.items);
    }
}

/// An event leaves a list well formed, keeps its name, and changes no item
/// but in its completion flag; only "Add Item" changes the number of items.
pub proof fn lemma_show_keeps_list(list: TodoListView, event: ListEventView)
    requires
        list.wf(),
        event.wf(),
    ensures
        list.show(event).wf(),
        list.show(event).list_name == list.list_name,
        list.show(event).items.len() >= list.items.len(),
        forall|i: int|
            0 <= i < list.items.len() ==> {
                &&& (#[trigger] list.show(event).items[i]).name == list.items[i].name
                &&& list.show(event).items[i].date == list.items[i].date
            },
{
}

/// What a list's window reports: a click on an item's toggle, an edit of the
/// name field, a pick in the date field, a click on "Add Item".
#[derive(Debug)]
pub enum ListEvent {
    Toggle(usize),
    EditItemName(String),
    PickDate(Date),
    AddItem,
}

impl View for ListEvent {
    type V = ListEventView;

    open spec fn view(&self) -> ListEventView {
        match self {
            ListEvent::Toggle(index) => ListEventView::Toggle(*index as int),
            ListEvent::EditItemName(text) => ListEventView::EditItemName(text@),
            ListEvent::PickDate(date) => ListEventView::PickDate(date@),
            ListEvent::AddItem => ListEventView::AddItem,
        }
    }
}

/// A to-do list. Items are only ever added at the end.
#[derive(Debug)]
pub struct TodoList {
    list_name: String,
    items: Vec<ListItem>,
    current_item_name: String,
    current_list_date: Date,
}

impl View for TodoList {
    type V = TodoListView;

    closed spec fn view(&self) -> TodoListView {
        TodoListView {
            list_name: self.list_name@,
            items: item_views(self.items@),
            current_item_name: self.current_item_name@,
            current_list_date: self.current_list_date@,
        }
    }
}

/// What each of the lists holds, in their order.
pub open spec fn list_views(lists: Seq<TodoList>) -> Seq<TodoListView> {
    lists.map_values(|list: TodoList| list@)
}

impl TodoList {
    /// Every date in the list is a day that exists.
    pub open spec fn wf(&self) -> bool {
        self@.wf()
    }

    /// A list with the given name and no items.
    pub fn new(list_name: String) -> (list: TodoList)
        ensures
            list.wf(),
            list@ == TodoListView::empty(list_name@),
    {
        let list = TodoList {
            list_name,
            items: Vec::new(),
            current_item_name: String::new(),
            current_list_date: Date::default(),
        };
        assert(list@.items =~= Seq::empty());
        list
    }

    /// A list with all four fields given.
    pub(crate) fn from_parts(
        list_name: String,
        items: Vec<ListItem>,
        current_item_name: String,
        current_list_date: Date,
    ) -> (list: TodoList)
        requires
            current_list_date.wf(),
            forall|i: int| 0 <= i < items.len() ==> (#[trigger] items[i]).wf(),
        ensures
            list.wf(),
            list@ == (TodoListView {
                list_name: list_name@,
                items: item_views(items@),
                current_item_name: current_item_name@,
                current_list_date: current_list_date@,
            }),
    {
        TodoList { list_name, items, current_item_name, current_list_date }
    }

    /// Flips the completion flag of item `index`. Does nothing where the list
    /// has no such item.
    pub fn toggle_item(&mut self, index: usize)
        requires
            old(self).wf(),
        ensures
            final(self).wf(),
            final(self)@ == old(self)@.toggle_item(index as int),
    {
        if index < self.items.len() {
            self.items[index].toggle();
            assert(self@.items =~= old(self)@.items.update(
                index as int,
                old(self)@.items[index as int].toggled(),
            ));
        }
    }

    /// Appends an item, not completed, and clears the name field. Any name
    /// is taken, the empty one too. The date field keeps its value.
    pub fn submit_new_item(&mut self, name: String, date: Date)
        requires
            old(self).wf(),
            date.wf(),
        ensures
            final(self).wf(),
            final(self)@ == old(self)@.submit_new_item(name@, date@),
    {
        self.items.push(ListItem::from_parts(name, false, date));
        self.current_item_name = String::new();
        assert(self@.items =~= old(self)@.items.push(ItemView::fresh(name@, date@)));
    }

    /// Applies one event of the list's window.
    pub fn show(&mut self, event: ListEvent)
        requires
            old(self).wf(),
            event@.wf(),
        ensures
            final(self).wf(),
            final(self)@ == old(self)@.show(event@),
    {
        match event {
            ListEvent::Toggle(index) => self.toggle_item(index),
            ListEvent::EditItemName(text) => {
                self.current_item_name = text;
                assert(self@.items =~= old(self)@.items);
            },
            ListEvent::PickDate(date) => {
                self.current_list_date = date;
                assert(self@.items =~= old(self)@.items);
            },
            ListEvent::AddItem => {
                let mut name = String::new();
                std::mem::swap(&mut self.current_item_name, &mut name);
                assert(self@.items =~= old(self)@.items);
                let date = self.current_list_date;
                self.submit_new_item(name, date);
            },
        }
    }

    /// The name under which the list stands.
    pub fn list_name(&self) -> (name: &String)
        ensures
            name@ == self@.list_name,
    {
        &self.list_name
    }

    /// The number of items.
    pub fn len(&self) -> (len: usize)
        ensures
            len == self@.items.len(),
    {
        self.items.len()
    }

    /// Item `index`, counted from 0 in the order of adding.
    pub fn item(&self, index: usize) -> (item: Option<&ListItem>)
        ensures
            item is Some <==> index < self@.items.len(),
            item matches Some(it) ==> it@ == self@.items[index as int],
    {
        if index < self.items.len() {
            Some(&self.items[index])
        } else {
            None
        }
    }

    /// The text of the name field.
    pub fn current_item_name(&self) -> (text: &String)
        ensures
            text@ == self@.current_item_name,
    {
        &self.current_item_name
    }

    /// The day of the date field.
    pub fn current_list_date(&self) -> (date: Date)
        ensures
            date@ == self@.current_list_date,
    {
        self.current_list_date
    }
}

} // verus!
