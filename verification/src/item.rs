//! One entry of a to-do list.

use crate::date::{Date, DateView};
use vstd::prelude::*;

verus! {

/// What an item holds.
pub ghost struct ItemView {
    pub name: Seq<char>,
    pub completed: bool,
    pub date: DateView,
}

impl ItemView {
    /// The date is a day that exists.
    pub open spec fn wf(self) -> bool {
        self.date.is_valid()
    }

    /// The item as it is when first added: not completed.
    pub open spec fn fresh(name: Seq<char>, date: DateView) -> ItemView {
        ItemView { name, completed: false, date }
    }

    /// The item with its completion flag flipped and nothing else changed.
    pub open spec fn toggled(self) -> ItemView {
        ItemView { completed: !self.completed, ..self }
    }
}

/// A named task with a date, completed or not. Once added, only its
/// completion flag changes.
#[derive(Debug)]
pub struct ListItem {
    name: String,
    completed: bool,
    date: Date,
}

impl View for ListItem {
    type V = ItemView;

    closed spec fn view(&self) -> ItemView {
        ItemView { name: self.name@, completed: self.completed, date: self.date@ }
    }
}

/// What each of the items holds, in their order.
pub open spec fn item_views(items: Seq<ListItem>) -> Seq<ItemView> {
    items.map_values(|item: ListItem| item@)
}

impl ListItem {
    /// The date is a day that exists.
    pub open spec fn wf(&self) -> bool {
        self@.wf()
    }

    /// An item with all three fields given.
    pub(crate) fn from_parts(name: String, completed: bool, date: Date) -> (item: ListItem)
        requires
            date.wf(),
        ensures
            item.wf(),
            item@ == (ItemView { name: name@, completed, date: date@ }),
    {
        ListItem { name, completed, date }
    }

    /// Flips the completion flag.
    pub(crate) fn toggle(&mut self)
        ensures
            final(self)@ == old(self)@.toggled(),
    {
        self.completed = !self.completed;
    }

    /// What is to be done.
    pub fn name(&self) -> (name: &String)
        ensures
            name@ == self@.name,
    {
        &self.name
    }

    /// Whether it is done.
    pub fn completed(&self) -> (completed: bool)
        ensures
            completed == self@.completed,
    {
        self.completed
    }

    /// The day the item was given when it was added.
    pub fn date(&self) -> (date: Date)
        ensures
            date@ == self@.date,
    {
        self.date
    }
}

} // verus!
