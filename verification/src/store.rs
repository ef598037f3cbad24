//! Writing a planner as text and reading it back.

use crate::date::Date;
use crate::item::{item_views, ItemView, ListItem};
use crate::manager::{lemma_insert_all, ListManager, ManagerView};
use crate::planner::TemplateApp;
use crate::record::{
    bool_field, date_field, gathered, items_field, items_of, items_text, lists_field, lists_of,
    lists_text, manager_field, parse_bool_field, parse_date_field, parse_item, parse_items_field,
    parse_items_tail, parse_list, parse_lists_field, parse_lists_tail, parse_manager,
    parse_manager_field, parse_planner, parse_string_field, string_field, ItemRecord, ListRecord,
    ManagerRecord, PlannerRecord,
};
use crate::text::{at, read_bool, read_date, read_string, write_bool, write_date, write_string};
use crate::todo_list::{TodoList, TodoListView};
use vstd::prelude::*;

verus! {

/// The text of items grows at its end as items are added.
proof fn lemma_items_text_push(items: Seq<ItemRecord>, last: ItemRecord)
    ensures
        items_text(items.push(last)) == items_text(items) + last.text(),
    decreases items.len(),
{
    let longer = items.push(last);
    if items.len() == 0 {
        assert(longer.skip(1) =~= Seq::empty());
        assert(items_text(longer.skip(1)) =~= Seq::empty());
        assert(items_text(longer) =~= items_text(items) + last.text());
    } else {
        lemma_items_text_push(items.skip(1), last);
        assert(longer.skip(1) =~= items.skip(1).push(last));
        assert(items_text(longer) =~= items_text(items) + last.text());
    }
}

/// The text of lists grows at its end as lists are added.
proof fn lemma_lists_text_push(lists: Seq<ListRecord>, last: ListRecord)
    ensures
        lists_text(lists.push(last)) == lists_text(lists) + last.text(),
    decreases lists.len(),
{
    let longer = lists.push(last);
    if lists.len() == 0 {
        assert(longer.skip(1) =~= Seq::empty());
        assert(lists_text(longer.skip(1)) =~= Seq::empty());
        assert(lists_text(longer) =~= lists_text(lists) + last.text());
    } else {
        lemma_lists_text_push(lists.skip(1), last);
        assert(longer.skip(1) =~= lists.skip(1).push(last));
        assert(lists_text(longer) =~= lists_text(lists) + last.text());
    }
}

fn write_string_field(out: &mut String, key: char, text: &String)
    ensures
        final(out)@ == old(out)@ + string_field(key, Some(text@)),
{
    reveal(string_field);
    out.push(key);
    write_string(out, text);
    assert(out@ =~= old(out)@ + string_field(key, Some(text@)));
}

fn write_bool_field(out: &mut String, key: char, flag: bool)
    ensures
        final(out)@ == old(out)@ + bool_field(key, Some(flag)),
{
    reveal(bool_field);
    out.push(key);
    write_bool(out, flag);
    assert(out@ =~= old(out)@ + bool_field(key, Some(flag)));
}

fn write_date_field(out: &mut String, key: char, date: Date)
    requires
        date.wf(),
    ensures
        final(out)@ == old(out)@ + date_field(key, Some(date@)),
{
    reveal(date_field);
    out.push(key);
    write_date(out, date);
    assert(out@ =~= old(out)@ + date_field(key, Some(date@)));
}

fn write_item(out: &mut String, item: &ListItem)
    requires
        item.wf(),
    ensures
        final(out)@ == old(out)@ + ItemRecord::of(item@).text(),
{
    out.push('{');
    write_string_field(out, 'n', item.name());
    write_bool_field(out, 'c', item.completed());
    write_date_field(out, 'd', item.date());
    out.push('}');
    assert(out@ =~= old(out)@ + ItemRecord::of(item@).text());
}

fn write_items_field(out: &mut String, key: char, list: &TodoList)
    requires
        list.wf(),
    ensures
        final(out)@ == old(out)@ + items_field(key, Some(items_of(list@.items))),
{
    reveal(items_field);
    let ghost records = items_of(list@.items);
    out.push(key);
    out.push('[');
    let mut i: usize = 0;
    assert(items_text(records.take(0)) =~= Seq::empty());
    while i < list.len()
        invariant
            list.wf(),
            records == items_of(list@.items),
            i <= list@.items.len(),
            out@ == old(out)@ + seq![key, '['] + items_text(records.take(i as int)),
        decreases list@.items.len() - i,
    {
        match list.item(i) {
            Some(item) => {
                assert(list@.items[i as int].wf());
                write_item(out, item);
                proof {
                    lemma_items_text_push(records.take(i as int), records[i as int]);
                    assert(records.take(i + 1) =~= records.take(i as int).push(records[i as int]));
                }
            },
            None => {},
        }
        i += 1;
    }
    out.push(']');
    assert(records.take(i as int) =~= records);
    assert(out@ =~= old(out)@ + items_field(key, Some(records)));
}

fn write_list(out: &mut String, list: &TodoList)
    requires
        list.wf(),
    ensures
        final(out)@ == old(out)@ + ListRecord::of(list@).text(),
{
    out.push('{');
    write_string_field(out, 'n', list.list_name());
    write_items_field(out, 'i', list);
    write_string_field(out, 'e', list.current_item_name());
    write_date_field(out, 'd', list.current_list_date());
    out.push('}');
    assert(out@ =~= old(out)@ + ListRecord::of(list@).text());
}

fn write_lists_field(out: &mut String, key: char, manager: &ListManager)
    requires
        manager.wf(),
    ensures
        final(out)@ == old(out)@ + lists_field(key, Some(lists_of(manager@.todo_lists))),
{
    reveal(lists_field);
    let ghost records = lists_of(manager@.todo_lists);
    out.push(key);
    out.push('[');
    let mut i: usize = 0;
    assert(lists_text(records.take(0)) =~= Seq::empty());
    while i < manager.len()
        invariant
            manager.wf(),
            records == lists_of(manager@.todo_lists),
            i <= manager@.todo_lists.len(),
            out@ == old(out)@ + seq![key, '['] + lists_text(records.take(i as int)),
        decreases manager@.todo_lists.len() - i,
    {
        match manager.list(i) {
            Some(list) => {
                assert(manager@.todo_lists[i as int].wf());
                write_list(out, list);
                proof {
                    lemma_lists_text_push(records.take(i as int), records[i as int]);
                    assert(records.take(i + 1) =~= records.take(i as int).push(records[i as int]));
                }
            },
            None => {},
        }
        i += 1;
    }
    out.push(']');
    assert(records.take(i as int) =~= records);
    assert(out@ =~= old(out)@ + lists_field(key, Some(records)));
}

fn write_manager(out: &mut String, manager: &ListManager)
    requires
        manager.wf(),
    ensures
        final(out)@ == old(out)@ + ManagerRecord::of(manager@).text(),
{
    out.push('{');
    write_lists_field(out, 'l', manager);
    write_string_field(out, 'n', manager.current_list_name());
    write_bool_field(out, 'a', manager.add_new_list());
    out.push('}');
    assert(out@ =~= old(out)@ + ManagerRecord::of(manager@).text());
}

/// Writes the planner at the end of `out`.
pub(crate) fn write_planner(out: &mut String, app: &TemplateApp)
    requires
        app.wf(),
    ensures
        final(out)@ == old(out)@ + PlannerRecord::of(app@).text(),
{
    out.push('{');
    write_bool_field(out, 'a', app.add_new_list());
    let ghost before = out@;
    out.push('m');
    write_manager(out, app.list_manager());
    assert(out@ =~= before + manager_field('m', Some(ManagerRecord::of(app@.list_manager)))) by {
        reveal(manager_field);
    }
    write_string_field(out, 'n', app.new_list_name());
    out.push('}');
    assert(out@ =~= old(out)@ + PlannerRecord::of(app@).text());
}

fn read_string_field(buf: &Vec<char>, pos: usize, key: char) -> (out: Option<(String, usize)>)
    requires
        pos <= buf.len(),
    ensures
        match out {
            Some((text, next)) => pos <= next <= buf.len() && parse_string_field(
                buf@.skip(pos as int),
                key,
            ) == Some((text@, buf@.skip(next as int))),
            None => parse_string_field(buf@.skip(pos as int), key) is None,
        },
{
    reveal(parse_string_field);
    if at(buf, pos, key) {
        read_string(buf, pos + 1)
    } else {
        Some((String::new(), pos))
    }
}

fn read_bool_field(buf: &Vec<char>, pos: usize, key: char) -> (out: Option<(bool, usize)>)
    requires
        pos <= buf.len(),
    ensures
        match out {
            Some((flag, next)) => pos <= next <= buf.len() && parse_bool_field(
                buf@.skip(pos as int),
                key,
            ) == Some((flag, buf@.skip(next as int))),
            None => parse_bool_field(buf@.skip(pos as int), key) is None,
        },
{
    reveal(parse_bool_field);
    if at(buf, pos, key) {
        read_bool(buf, pos + 1)
    } else {
        Some((false, pos))
    }
}

fn read_date_field(buf: &Vec<char>, pos: usize, key: char) -> (out: Option<(Date, usize)>)
    requires
        pos <= buf.len(),
    ensures
        match out {
            Some((date, next)) => date.wf() && pos <= next <= buf.len() && parse_date_field(
                buf@.skip(pos as int),
                key,
            ) == Some((date@, buf@.skip(next as int))),
            None => parse_date_field(buf@.skip(pos as int), key) is None,
        },
{
    reveal(parse_date_field);
    if at(buf, pos, key) {
        read_date(buf, pos + 1)
    } else {
        Some((Date::default(), pos))
    }
}

fn read_item(buf: &Vec<char>, pos: usize) -> (out: Option<(ListItem, usize)>)
    requires
        pos <= buf.len(),
    ensures
        match out {
            Some((item, next)) => item.wf() && pos < next <= buf.len() && parse_item(
                buf@.skip(pos as int),
            ) == Some((item@, buf@.skip(next as int))),
            None => parse_item(buf@.skip(pos as int)) is None,
        },
{
    if !at(buf, pos, '{') {
        return None;
    }
    let (name, after_name) = read_string_field(buf, pos + 1, 'n')?;
    let (completed, after_flag) = read_bool_field(buf, after_name, 'c')?;
    let (date, after_date) = read_date_field(buf, after_flag, 'd')?;
    if !at(buf, after_date, '}') {
        return None;
    }
    Some((ListItem::from_parts(name, completed, date), after_date + 1))
}

fn read_items_field(buf: &Vec<char>, pos: usize, key: char) -> (out: Option<
    (Vec<ListItem>, usize),
>)
    requires
        pos <= buf.len(),
    ensures
        match out {
            Some((items, next)) => {
                &&& forall|i: int| 0 <= i < items.len() ==> (#[trigger] items[i]).wf()
                &&& pos <= next <= buf.len()
                &&& parse_items_field(buf@.skip(pos as int), key) == Some(
                    (item_views(items@), buf@.skip(next as int)),
                )
            },
            None => parse_items_field(buf@.skip(pos as int), key) is None,
        },
{
    reveal(parse_items_field);
    let mut items: Vec<ListItem> = Vec::new();
    if !at(buf, pos, key) {
        assert(item_views(items@) =~= Seq::empty());
        return Some((items, pos));
    }
    if !at(buf, pos + 1, '[') {
        return None;
    }
    let start = pos + 2;
    let mut next = start;
    assert(item_views(items@) =~= Seq::empty());
    assert forall|tail: Seq<ItemView>| #[trigger] (item_views(items@) + tail) == tail by {
        assert(item_views(items@) + tail =~= tail);
    }
    while !at(buf, next, ']')
        invariant
            start <= next <= buf.len(),
            forall|i: int| 0 <= i < items.len() ==> (#[trigger] items[i]).wf(),
            parse_items_field(buf@.skip(pos as int), key) == parse_items_tail(
                buf@.skip(start as int),
            ),
            parse_items_tail(buf@.skip(start as int)) == match parse_items_tail(
                buf@.skip(next as int),
            ) {
                Some((tail, rest)) => Some((item_views(items@) + tail, rest)),
                None => None,
            },
        decreases buf.len() - next,
    {
        let ghost before = item_views(items@);
        match read_item(buf, next) {
            Some((item, after)) => {
                items.push(item);
                proof {
                    assert forall|tail: Seq<ItemView>| #[trigger]
                        (before + (seq![item@] + tail)) == item_views(items@) + tail by {
                        assert(before + (seq![item@] + tail) =~= item_views(items@) + tail);
                    }
                }
                next = after;
            },
            None => {
                return None;
            },
        }
    }
    Some((items, next + 1))
}

fn read_list(buf: &Vec<char>, pos: usize) -> (out: Option<(TodoList, usize)>)
    requires
        pos <= buf.len(),
    ensures
        match out {
            Some((list, next)) => list.wf() && pos < next <= buf.len() && parse_list(
                buf@.skip(pos as int),
            ) == Some((list@, buf@.skip(next as int))),
            None => parse_list(buf@.skip(pos as int)) is None,
        },
{
    if !at(buf, pos, '{') {
        return None;
    }
    let (list_name, after_name) = read_string_field(buf, pos + 1, 'n')?;
    let (items, after_items) = read_items_field(buf, after_name, 'i')?;
    let (current_item_name, after_entry) = read_string_field(buf, after_items, 'e')?;
    let (current_list_date, after_date) = read_date_field(buf, after_entry, 'd')?;
    if !at(buf, after_date, '}') {
        return None;
    }
    Some((TodoList::from_parts(list_name, items, current_item_name, current_list_date), after_date + 1))
}

/// Reads the lists into a manager whose dialog is closed and empty.
fn read_lists_field(buf: &Vec<char>, pos: usize, key: char) -> (out: Option<(ListManager, usize)>)
    requires
        pos <= buf.len(),
    ensures
        match parse_lists_field(buf@.skip(pos as int), key) {
            Some((lists, rest)) => {
                &&& out matches Some((manager, next))
                &&& manager.wf()
                &&& manager@ == (ManagerView { todo_lists: gathered(lists), ..ManagerView::empty() })
                &&& pos <= next <= buf.len()
                &&& rest == buf@.skip(next as int)
            },
            None => out is None,
        },
{
    reveal(parse_lists_field);
    let mut manager = ListManager::new();
    let ghost mut lists: Seq<TodoListView> = Seq::empty();
    assert(gathered(lists) =~= Seq::empty());
    if !at(buf, pos, key) {
        return Some((manager, pos));
    }
    if !at(buf, pos + 1, '[') {
        return None;
    }
    let start = pos + 2;
    let mut next = start;
    assert forall|tail: Seq<TodoListView>| #[trigger] (lists + tail) == tail by {
        assert(lists + tail =~= tail);
    }
    while !at(buf, next, ']')
        invariant
            start <= next <= buf.len(),
            manager.wf(),
            manager@ == ManagerView::empty().insert_all(lists),
            forall|i: int| 0 <= i < lists.len() ==> (#[trigger] lists[i]).wf(),
            parse_lists_field(buf@.skip(pos as int), key) == parse_lists_tail(
                buf@.skip(start as int),
            ),
            parse_lists_tail(buf@.skip(start as int)) == match parse_lists_tail(
                buf@.skip(next as int),
            ) {
                Some((tail, rest)) => Some((lists + tail, rest)),
                None => None,
            },
        decreases buf.len() - next,
    {
        let ghost before = lists;
        match read_list(buf, next) {
            Some((list, after)) => {
                proof {
                    lists = before.push(list@);
                    assert(lists.drop_last() =~= before);
                    assert forall|tail: Seq<TodoListView>| #[trigger]
                        (before + (seq![list@] + tail)) == lists + tail by {
                        assert(before + (seq![list@] + tail) =~= lists + tail);
                    }
                }
                manager.insert(list);
                next = after;
            },
            None => {
                return None;
            },
        }
    }
    proof {
        lemma_insert_all(ManagerView::empty(), lists);
    }
    Some((manager, next + 1))
}

fn read_manager(buf: &Vec<char>, pos: usize) -> (out: Option<(ListManager, usize)>)
    requires
        pos <= buf.len(),
    ensures
        match out {
            Some((manager, next)) => manager.wf() && pos < next <= buf.len() && parse_manager(
                buf@.skip(pos as int),
            ) == Some((manager@, buf@.skip(next as int))),
            None => parse_manager(buf@.skip(pos as int)) is None,
        },
{
    if !at(buf, pos, '{') {
        return None;
    }
    let (mut manager, after_lists) = read_lists_field(buf, pos + 1, 'l')?;
    let (current_list_name, after_name) = read_string_field(buf, after_lists, 'n')?;
    let (add_new_list, after_flag) = read_bool_field(buf, after_name, 'a')?;
    if !at(buf, after_flag, '}') {
        return None;
    }
    manager.set_dialog(current_list_name, add_new_list);
    Some((manager, after_flag + 1))
}

fn read_manager_field(buf: &Vec<char>, pos: usize, key: char) -> (out: Option<
    (ListManager, usize),
>)
    requires
        pos <= buf.len(),
    ensures
        match out {
            Some((manager, next)) => manager.wf() && pos <= next <= buf.len()
                && parse_manager_field(buf@.skip(pos as int), key) == Some(
                (manager@, buf@.skip(next as int)),
            ),
            None => parse_manager_field(buf@.skip(pos as int), key) is None,
        },
{
    reveal(parse_manager_field);
    if at(buf, pos, key) {
        read_manager(buf, pos + 1)
    } else {
        Some((ListManager::new(), pos))
    }
}

/// Reads a planner that begins at `pos`.
pub(crate) fn read_planner(buf: &Vec<char>, pos: usize) -> (out: Option<(TemplateApp, usize)>)
    requires
        pos <= buf.len(),
    ensures
        match out {
            Some((app, next)) => app.wf() && pos < next <= buf.len() && parse_planner(
                buf@.skip(pos as int),
            ) == Some((app@, buf@.skip(next as int))),
            None => parse_planner(buf@.skip(pos as int)) is None,
        },
{
    if !at(buf, pos, '{') {
        return None;
    }
    let (add_new_list, after_flag) = read_bool_field(buf, pos + 1, 'a')?;
    let (list_manager, after_manager) = read_manager_field(buf, after_flag, 'm')?;
    let (new_list_name, after_name) = read_string_field(buf, after_manager, 'n')?;
    if !at(buf, after_name, '}') {
        return None;
    }
    Some((TemplateApp::from_parts(add_new_list, list_manager, new_list_name), after_name + 1))
}

} // verus!
