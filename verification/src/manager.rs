//! The lists of a planner, each under its own name, and the "add list" dialog.

use crate::todo_list::{list_views, ListEvent, ListEventView, TodoList, TodoListView};
use vstd::prelude::*;

verus! {

/// What the manager holds: the lists in the order in which their names were
/// first used, the name field of the "add list" dialog, and whether that
/// dialog is open.
pub ghost struct ManagerView {
    pub todo_lists: Seq<TodoListView>,
    pub current_list_name: Seq<char>,
    pub add_new_list: bool,
}

/// What the manager's surface can report.
pub ghost enum ManagerEventView {
    OpenDialog,
    EditListName(Seq<char>),
    AddList,
    List(Seq<char>, ListEventView),
}

impl ManagerEventView {
    /// A date that was picked is a day that exists.
    pub open spec fn wf(self) -> bool {
        self matches ManagerEventView::List(_, event) ==> event.wf()
    }
}

/// Some list among `lists` has this name.
pub open spec fn has_name(lists: Seq<TodoListView>, name: Seq<char>) -> bool {
    exists|i: int| 0 <= i < lists.len() && (#[trigger] lists[i]).list_name == name
}

/// A place among `lists` at which a list of this name stands, where there is one.
pub open spec fn place_of(lists: Seq<TodoListView>, name: Seq<char>) -> int {
    choose|i: int| 0 <= i < lists.len() && (#[trigger] lists[i]).list_name == name
}

impl ManagerView {
    /// Some list has this name.
    pub open spec fn contains(self, name: Seq<char>) -> bool {
        has_name(self.todo_lists, name)
    }

    /// The place of the list of this name, where `contains(name)`.
    pub open spec fn index_of(self, name: Seq<char>) -> int {
        place_of(self.todo_lists, name)
    }

    /// No two lists share a name.
    pub open spec fn names_distinct(self) -> bool {
        forall|i: int, j: int|
            0 <= i < j < self.todo_lists.len() ==> (#[trigger] self.todo_lists[i]).list_name != (
            #[trigger] self.todo_lists[j]).list_name
    }

    /// No two lists share a name, and every list is well formed.
    pub open spec fn wf(self) -> bool {
        &&& self.names_distinct()
        &&& forall|i: int| 0 <= i < self.todo_lists.len() ==> (#[trigger] self.todo_lists[i]).wf()
    }

    /// The lists as a mapping from name to list.
    pub open spec fn as_map(self) -> Map<Seq<char>, TodoListView> {
        Map::new(
            |name: Seq<char>| self.contains(name),
            |name: Seq<char>| self.todo_lists[self.index_of(name)],
        )
    }

    /// No lists, an empty name field, the dialog closed.
    pub open spec fn empty() -> ManagerView {
        ManagerView {
            todo_lists: Seq::empty(),
            current_list_name: Seq::empty(),
            add_new_list: false,
        }
    }

    /// The manager with `list` under its name: in the place of the list that
    /// had the name, or at the end where the name is new.
    pub open spec fn insert(self, list: TodoListView) -> ManagerView {
        if self.contains(list.list_name) {
            ManagerView {
                todo_lists: self.todo_lists.update(self.index_of(list.list_name), list),
                ..self
            }
        } else {
            ManagerView { todo_lists: self.todo_lists.push(list), ..self }
        }
    }

    /// The manager after `insert` for each list in turn.
    pub open spec fn insert_all(self, lists: Seq<TodoListView>) -> ManagerView
        decreases lists.len(),
    {
        if lists.len() == 0 {
            self
        } else {
            self.insert_all(lists.drop_last()).insert(lists.last())
        }
    }

    /// Adding a list: with an empty name nothing changes; otherwise a new
    /// empty list stands under the name, the name field is cleared and the
    /// dialog is closed.
    pub open spec fn submit_new_list(self, name: Seq<char>) -> ManagerView {
        if name.len() == 0 {
            self
        } else {
            ManagerView {
                current_list_name: Seq::empty(),
                add_new_list: false,
                ..self.insert(TodoListView::empty(name))
            }
        }
    }

    /// The manager after an event in the window of the list `name`; the
    /// manager itself where no list has that name.
    pub open spec fn show_list(self, name: Seq<char>, event: ListEventView) -> ManagerView {
        if self.contains(name) {
            let i = self.index_of(name);
            ManagerView {
                todo_lists: self.todo_lists.update(i, self.todo_lists[i].show(event)),
                ..self
            }
        } else {
            self
        }
    }

    /// The manager after one event. The dialog's two events count only while
    /// the dialog is open.
    pub open spec fn show(self, event: ManagerEventView) -> ManagerView {
        match event {
            ManagerEventView::OpenDialog => ManagerView { add_new_list: true, ..self },
            ManagerEventView::EditListName(text) => if self.add_new_list {
                ManagerView { current_list_name: text, ..self }
            } else {
                self
            },
            ManagerEventView::AddList => if self.add_new_list {
                self.submit_new_list(self.current_list_name)
            } else {
                self
            },
            ManagerEventView::List(name, event) => self.show_list(name, event),
        }
    }

    /// The manager after each of the events in turn.
    pub open spec fn show_all(self, events: Seq<ManagerEventView>) -> ManagerView
        decreases events.len(),
    {
        if events.len() == 0 {
            self
        } else {
            self.show_all(events.drop_last()).show(events.last())
        }
    }
}

/// Where names are distinct, the list at place `i` is the one that its name
/// finds.
pub proof fn lemma_index_of(manager: ManagerView, i: int)
    requires
        manager.names_distinct(),
        0 <= i < manager.todo_lists.len(),
    ensures
        manager.contains(manager.todo_lists[i].list_name),
        manager.index_of(manager.todo_lists[i].list_name) == i,
        manager.as_map()[manager.todo_lists[i].list_name] == manager.todo_lists[i],
{
    let name = manager.todo_lists[i].list_name;
    let j = manager.index_of(name);
    assert(manager.todo_lists[j].list_name == name);
    if j < i {
        assert(manager.todo_lists[j].list_name != manager.todo_lists[i].list_name);
    } else if i < j {
        assert(manager.todo_lists[i].list_name != manager.todo_lists[j].list_name);
    }
}

/// A list stands under its own name: what a name keys is a list of that name.
pub proof fn lemma_key_is_name(manager: ManagerView, name: Seq<char>)
    requires
        manager.contains(name),
    ensures
        manager.as_map().dom().contains(name),
        manager.as_map()[name].list_name == name,
        0 <= manager.index_of(name) < manager.todo_lists.len(),
{
}

/// `insert` is the insertion of a mapping: afterwards the name of `list`
/// keys `list`, and every other name keys what it did.
pub proof fn lemma_insert(manager: ManagerView, list: TodoListView)
    requires
        manager.wf(),
        list.wf(),
    ensures
        manager.insert(list).wf(),
        manager.insert(list).as_map() == manager.as_map().insert(list.list_name, list),
        manager.insert(list).todo_lists.len() == if manager.contains(list.list_name) {
            manager.todo_lists.len()
        } else {
            manager.todo_lists.len() + 1
        },
{
    let after = manager.insert(list);
    let name = list.list_name;
    if manager.contains(name) {
        let k = manager.index_of(name);
        assert(manager.todo_lists[k].list_name == name);
        assert forall|i: int| 0 <= i < after.todo_lists.len() implies (
        #[trigger] after.todo_lists[i]).list_name == manager.todo_lists[i].list_name by {}
        assert forall|i: int, j: int| 0 <= i < j < after.todo_lists.len() implies (
        #[trigger] after.todo_lists[i]).list_name != (#[trigger] after.todo_lists[j]).list_name by {
            assert(manager.todo_lists[i].list_name != manager.todo_lists[j].list_name);
        }
    } else {
        assert forall|i: int, j: int| 0 <= i < j < after.todo_lists.len() implies (
        #[trigger] after.todo_lists[i]).list_name != (#[trigger] after.todo_lists[j]).list_name by {
            if j < manager.todo_lists.len() {
                assert(manager.todo_lists[i].list_name != manager.todo_lists[j].list_name);
            } else {
                assert(manager.todo_lists[i].list_name != name);
            }
        }
    }
    assert(after.wf());
    let expected = manager.as_map().insert(name, list);
    assert forall|n: Seq<char>| after.as_map().dom().contains(n) <==> expected.dom().contains(
        n,
    ) by {
        if after.contains(n) {
            let i = after.index_of(n);
            assert(after.todo_lists[i].list_name == n);
            if n != name {
                assert(manager.todo_lists[i].list_name == n);
            }
        }
        if expected.dom().contains(n) {
            if n == name {
                if manager.contains(name) {
                    let k = manager.index_of(name);
                    assert(after.todo_lists[k].list_name == n);
                } else {
                    assert(after.todo_lists[manager.todo_lists.len() as int].list_name == n);
                }
            } else {
                let i = manager.index_of(n);
                assert(manager.todo_lists[i].list_name == n);
                assert(after.todo_lists[i].list_name == n);
            }
        }
    }
    assert forall|n: Seq<char>| after.as_map().dom().contains(n) implies after.as_map()[n]
        == expected[n] by {
        let i = after.index_of(n);
        assert(after.todo_lists[i].list_name == n);
        lemma_index_of(after, i);
        if n != name {
            assert(manager.todo_lists[i].list_name == n);
            lemma_index_of(manager, i);
        }
    }
    assert(after.as_map() =~= expected);
}

/// Lists that are put in leave the dialog's fields alone and the manager
/// well formed.
pub proof fn lemma_insert_all(manager: ManagerView, lists: Seq<TodoListView>)
    requires
        manager.wf(),
        forall|i: int| 0 <= i < lists.len() ==> (#[trigger] lists[i]).wf(),
    ensures
        manager.insert_all(lists).wf(),
        manager.insert_all(lists).current_list_name == manager.current_list_name,
        manager.insert_all(lists).add_new_list == manager.add_new_list,
    decreases lists.len(),
{
    if lists.len() > 0 {
        lemma_insert_all(manager, lists.drop_last());
        lemma_insert(manager.insert_all(lists.drop_last()), lists.last());
    }
}

/// An event leaves the manager well formed and takes no name away.
pub proof fn lemma_show_keeps_manager(manager: ManagerView, event: ManagerEventView)
    requires
        manager.wf(),
        event.wf(),
    ensures
        manager.show(event).wf(),
        forall|name: Seq<char>| manager.contains(name) ==> manager.show(event).contains(name),
{
    let after = manager.show(event);
    match event {
        ManagerEventView::AddList => {
            if manager.add_new_list && manager.current_list_name.len() > 0 {
                let list = TodoListView::empty(manager.current_list_name);
                lemma_insert(manager, list);
                assert(after.todo_lists == manager.insert(list).todo_lists);
                assert(after.as_map() == manager.insert(list).as_map());
                assert forall|name: Seq<char>| manager.contains(name) implies after.contains(
                    name,
                ) by {
                    assert(manager.as_map().dom().contains(name));
                    assert(after.as_map().dom().contains(name));
                }
            }
        },
        ManagerEventView::List(name, list_event) => {
            if manager.contains(name) {
                let k = manager.index_of(name);
                assert(manager.todo_lists[k].list_name == name);
                assert(manager.todo_lists[k].wf());
                crate::todo_list::lemma_show_keeps_list(manager.todo_lists[k], list_event);
                assert forall|i: int| 0 <= i < after.todo_lists.len() implies (
                #[trigger] after.todo_lists[i]).list_name
                    == manager.todo_lists[i].list_name by {}
                assert forall|i: int, j: int| 0 <= i < j < after.todo_lists.len() implies (
                #[trigger] after.todo_lists[i]).list_name != (
                #[trigger] after.todo_lists[j]).list_name by {
                    assert(manager.todo_lists[i].list_name != manager.todo_lists[j].list_name);
                }
                assert forall|n: Seq<char>| manager.contains(n) implies after.contains(n) by {
                    let i = manager.index_of(n);
                    assert(after.todo_lists[i].list_name == n);
                }
            }
        },
        _ => {},
    }
    assert forall|name: Seq<char>| manager.contains(name) implies after.contains(name) by {
        if after.todo_lists == manager.todo_lists {
            let i = manager.index_of(name);
            assert(after.todo_lists[i].list_name == name);
        }
    }
}

/// Events, however many, leave the manager well formed and take no name away.
pub proof fn lemma_show_all_keeps_manager(manager: ManagerView, events: Seq<ManagerEventView>)
    requires
        manager.wf(),
        forall|i: int| 0 <= i < events.len() ==> (#[trigger] events[i]).wf(),
    ensures
        manager.show_all(events).wf(),
        forall|name: Seq<char>| manager.contains(name) ==> manager.show_all(events).contains(name),
    decreases events.len(),
{
    if events.len() > 0 {
        lemma_show_all_keeps_manager(manager, events.drop_last());
        lemma_show_keeps_manager(manager.show_all(events.drop_last()), events.last());
    }
}

/// Adding a list under a name that is not empty is the insertion of a
/// mapping: afterwards the name keys exactly one list, the new empty one,
/// and every other name keys what it did. The number of lists grows by one
/// where the name was new and stays where it was taken.
pub proof fn lemma_submit_new_list(manager: ManagerView, name: Seq<char>)
    requires
        manager.wf(),
        name.len() > 0,
    ensures
        ({
            let after = manager.submit_new_list(name);
            &&& after.wf()
            &&& after.as_map() == manager.as_map().insert(name, TodoListView::empty(name))
            &&& after.contains(name)
            &&& after.todo_lists.len() == if manager.contains(name) {
                manager.todo_lists.len()
            } else {
                manager.todo_lists.len() + 1
            }
            &&& forall|i: int, j: int|
                0 <= i < after.todo_lists.len() && 0 <= j < after.todo_lists.len()
                    && after.todo_lists[i].list_name == name && after.todo_lists[j].list_name
                    == name ==> i == j
        }),
{
    let list = TodoListView::empty(name);
    let after = manager.submit_new_list(name);
    lemma_insert(manager, list);
    assert(after.todo_lists == manager.insert(list).todo_lists);
    assert(after.as_map() == manager.insert(list).as_map());
    assert(after.as_map().dom().contains(name));
    assert forall|i: int, j: int|
        0 <= i < after.todo_lists.len() && 0 <= j < after.todo_lists.len()
            && after.todo_lists[i].list_name == name && after.todo_lists[j].list_name
            == name implies i == j by {
        if i < j {
            assert(after.todo_lists[i].list_name != after.todo_lists[j].list_name);
        } else if j < i {
            assert(after.todo_lists[j].list_name != after.todo_lists[i].list_name);
        }
    }
}

/// Add a list under a name, let anything happen on the surface, and add a
/// list under the same name again: the name then keys exactly one list, the
/// new empty one of the second addition, and the second addition has not
/// changed the number of lists.
pub proof fn lemma_second_addition_replaces(
    manager: ManagerView,
    name: Seq<char>,
    between: Seq<ManagerEventView>,
)
    requires
        manager.wf(),
        name.len() > 0,
        forall|i: int| 0 <= i < between.len() ==> (#[trigger] between[i]).wf(),
    ensures
        ({
            let before = manager.submit_new_list(name).show_all(between);
            let after = before.submit_new_list(name);
            &&& after.wf()
            &&& after.contains(name)
            &&& after.as_map()[name] == TodoListView::empty(name)
            &&& after.todo_lists.len() == before.todo_lists.len()
            &&& forall|i: int, j: int|
                0 <= i < after.todo_lists.len() && 0 <= j < after.todo_lists.len()
                    && after.todo_lists[i].list_name == name && after.todo_lists[j].list_name
                    == name ==> i == j
        }),
{
    let first = manager.submit_new_list(name);
    lemma_submit_new_list(manager, name);
    lemma_show_all_keeps_manager(first, between);
    lemma_submit_new_list(first.show_all(between), name);
}

/// What the manager's surface reports: a click on "All List", an edit of the
/// dialog's name field, a click on "Add List", or an event in the window of
/// the list of the given name.
#[derive(Debug)]
pub enum ManagerEvent {
    OpenDialog,
    EditListName(String),
    AddList,
    List(String, ListEvent),
}

impl View for ManagerEvent {
    type V = ManagerEventView;

    open spec fn view(&self) -> ManagerEventView {
        match self {
            ManagerEvent::OpenDialog => ManagerEventView::OpenDialog,
            ManagerEvent::EditListName(text) => ManagerEventView::EditListName(text@),
            ManagerEvent::AddList => ManagerEventView::AddList,
            ManagerEvent::List(name, event) => ManagerEventView::List(name@, event@),
        }
    }
}

/// The lists of a planner. A name keys one list; the lists keep the order in
/// which their names were first used.
#[derive(Debug)]
pub struct ListManager {
    todo_lists: Vec<TodoList>,
    current_list_name: String,
    add_new_list: bool,
}

impl View for ListManager {
    type V = ManagerView;

    closed spec fn view(&self) -> ManagerView {
        ManagerView {
            todo_lists: list_views(self.todo_lists@),
            current_list_name: self.current_list_name@,
            add_new_list: self.add_new_list,
        }
    }
}

impl Default for ListManager {
    /// A manager without lists, its dialog closed.
    fn default() -> (manager: ListManager)
        ensures
            manager.wf(),
            manager@ == ManagerView::empty(),
    {
        ListManager::new()
    }
}

impl ListManager {
    /// No two lists share a name, and every date is a day that exists.
    pub open spec fn wf(&self) -> bool {
        self@.wf()
    }

    /// A manager without lists, its dialog closed.
    pub fn new() -> (manager: ListManager)
        ensures
            manager.wf(),
            manager@ == ManagerView::empty(),
    {
        let manager = ListManager {
            todo_lists: Vec::new(),
            current_list_name: String::new(),
            add_new_list: false,
        };
        assert(manager@.todo_lists =~= Seq::empty());
        manager
    }

    /// Sets the dialog's two fields and leaves the lists.
    pub(crate) fn set_dialog(&mut self, current_list_name: String, add_new_list: bool)
        requires
            old(self).wf(),
        ensures
            final(self).wf(),
            final(self)@ == (ManagerView {
                todo_lists: old(self)@.todo_lists,
                current_list_name: current_list_name@,
                add_new_list,
            }),
    {
        self.current_list_name = current_list_name;
        self.add_new_list = add_new_list;
        assert(self@.todo_lists =~= old(self)@.todo_lists);
    }

    /// The place of the list of the given name.
    fn position(&self, name: &String) -> (place: Option<usize>)
        requires
            self.wf(),
        ensures
            match place {
                Some(i) => self@.contains(name@) && i == self@.index_of(name@) && i
                    < self@.todo_lists.len(),
                None => !self@.contains(name@),
            },
    {
        let mut i: usize = 0;
        while i < self.todo_lists.len()
            invariant
                i <= self.todo_lists.len(),
                self.wf(),
                forall|j: int| 0 <= j < i ==> (#[trigger] self@.todo_lists[j]).list_name != name@,
            decreases self.todo_lists.len() - i,
        {
            assert(self@.todo_lists[i as int] == self.todo_lists[i as int]@);
            if *self.todo_lists[i].list_name() == *name {
                proof {
                    lemma_index_of(self@, i as int);
                }
                return Some(i);
            }
            i += 1;
        }
        None
    }

    /// Puts `list` under its name: in the place of the list that had the
    /// name, or at the end.
    pub(crate) fn insert(&mut self, list: TodoList)
        requires
            old(self).wf(),
            list.wf(),
        ensures
            final(self).wf(),
            final(self)@ == old(self)@.insert(list@),
    {
        let place = self.position(list.list_name());
        proof {
            lemma_insert(self@, list@);
        }
        match place {
            Some(i) => {
                self.todo_lists.set(i, list);
                assert(self@.todo_lists =~= old(self)@.todo_lists.update(i as int, list@));
            },
            None => {
                self.todo_lists.push(list);
                assert(self@.todo_lists =~= old(self)@.todo_lists.push(list@));
            },
        }
    }

    /// Opens the "add list" dialog.
    pub fn open_add_list_dialog(&mut self)
        requires
            old(self).wf(),
        ensures
            final(self).wf(),
            final(self)@ == (ManagerView { add_new_list: true, ..old(self)@ }),
    {
        self.add_new_list = true;
        assert(self@.todo_lists =~= old(self)@.todo_lists);
    }

    /// Adds an empty list under `name`, clears the dialog's name field and
    /// closes the dialog. A list that had the name is replaced. With an empty
    /// name nothing happens: the lists stay and the dialog stays as it is.
    pub fn submit_new_list(&mut self, name: String)
        requires
            old(self).wf(),
        ensures
            final(self).wf(),
            final(self)@ == old(self)@.submit_new_list(name@),
            name@.len() == 0 ==> final(self)@ == old(self)@,
            name@.len() > 0 ==> final(self)@.as_map() == old(self)@.as_map().insert(
                name@,
                TodoListView::empty(name@),
            ),
    {
        if name.as_str().is_empty() {
            return ;
        }
        proof {
            lemma_submit_new_list(self@, name@);
        }
        self.insert(TodoList::new(name));
        let ghost inserted = self@;
        self.current_list_name = String::new();
        self.add_new_list = false;
        assert(self@.todo_lists =~= inserted.todo_lists);
    }

    /// Applies one event. An edit of the name field or a click on
    /// "Add List" counts only while the dialog is open; "Add List" submits
    /// the text of the name field. An event for a list that is not there
    /// changes nothing.
    pub fn show(&mut self, event: ManagerEvent)
        requires
            old(self).wf(),
            event@.wf(),
        ensures
            final(self).wf(),
            final(self)@ == old(self)@.show(event@),
    {
        proof {
            lemma_show_keeps_manager(self@, event@);
        }
        match event {
            ManagerEvent::OpenDialog => self.open_add_list_dialog(),
            ManagerEvent::EditListName(text) => {
                if self.add_new_list {
                    self.current_list_name = text;
                    assert(self@.todo_lists =~= old(self)@.todo_lists);
                }
            },
            ManagerEvent::AddList => {
                if self.add_new_list {
                    let mut name = String::new();
                    std::mem::swap(&mut self.current_list_name, &mut name);
                    assert(self@.todo_lists =~= old(self)@.todo_lists);
                    self.submit_new_list(name);
                    assert(self@.current_list_name =~= old(self)@.show(event@).current_list_name);
                }
            },
            ManagerEvent::List(name, list_event) => {
                match self.position(&name) {
                    Some(i) => {
                        self.todo_lists[i].show(list_event);
                        assert(self@.todo_lists =~= old(self)@.todo_lists.update(
                            i as int,
                            old(self)@.todo_lists[i as int].show(list_event@),
                        ));
                    },
                    None => {},
                }
            },
        }
    }

    /// The list of the given name.
    pub fn get(&self, name: &str) -> (found: Option<&TodoList>)
        requires
            self.wf(),
        ensures
            match found {
                Some(list) => self@.contains(name@) && list@ == self@.as_map()[name@],
                None => !self@.contains(name@),
            },
    {
        let name = String::from_str(name);
        match self.position(&name) {
            Some(i) => Some(&self.todo_lists[i]),
            None => None,
        }
    }

    /// The number of lists.
    pub fn len(&self) -> (len: usize)
        ensures
            len == self@.todo_lists.len(),
    {
        self.todo_lists.len()
    }

    /// List `index`, counted from 0 in the order in which the names were
    /// first used.
    pub fn list(&self, index: usize) -> (list: Option<&TodoList>)
        ensures
            list is Some <==> index < self@.todo_lists.len(),
            list matches Some(l) ==> l@ == self@.todo_lists[index as int],
    {
        if index < self.todo_lists.len() {
            Some(&self.todo_lists[index])
        } else {
            None
        }
    }

    /// The text of the dialog's name field.
    pub fn current_list_name(&self) -> (text: &String)
        ensures
            text@ == self@.current_list_name,
    {
        &self.current_list_name
    }

    /// Whether the "add list" dialog is open.
    pub fn add_new_list(&self) -> (open: bool)
        ensures
            open == self@.add_new_list,
    {
        self.add_new_list
    }
}

} // verus!
