//! Reading gives back what was written: for every record, with any of its
//! fields missing, and so for every planner.

use crate::date::DateView;
use crate::manager::{has_name, ManagerView};
use crate::planner::PlannerView;
use crate::record::{
    bool_field, bool_or_false, date_field, date_is_valid, date_or_epoch, decode, gathered,
    items_field, items_of, items_text, items_value, items_wf, lists_field, lists_of, lists_text,
    lists_value, lists_wf, manager_field, parse_bool_field, parse_date_field, parse_item,
    parse_items_field, parse_items_tail, parse_list, parse_lists_field, parse_lists_tail,
    parse_manager, parse_manager_field, parse_planner, parse_string_field, planner_text,
    string_field, string_or_empty, ItemRecord, ListRecord, ManagerRecord, PlannerRecord,
};
use crate::text::{head, lemma_parse_bool, lemma_parse_date, lemma_parse_string, starts_with};
use crate::todo_list::TodoListView;
use vstd::prelude::*;

verus! {

pub proof fn lemma_string_field(key: char, value: Option<Seq<char>>, rest: Seq<char>)
    requires
        value is None ==> head(rest) != Some(key),
    ensures
        parse_string_field(string_field(key, value) + rest, key) == Some(
            (string_or_empty(value), rest),
        ),
        head(string_field(key, value) + rest) == if value is Some {
            Some(key)
        } else {
            head(rest)
        },
{
    reveal(string_field);
    reveal(parse_string_field);
    let s = string_field(key, value) + rest;
    match value {
        Some(t) => {
            assert(s.skip(1) =~= crate::text::string_text(t) + rest);
            lemma_parse_string(t, rest);
        },
        None => {
            assert(s =~= rest);
        },
    }
}

pub proof fn lemma_bool_field(key: char, value: Option<bool>, rest: Seq<char>)
    requires
        value is None ==> head(rest) != Some(key),
    ensures
        parse_bool_field(bool_field(key, value) + rest, key) == Some((bool_or_false(value), rest)),
        head(bool_field(key, value) + rest) == if value is Some {
            Some(key)
        } else {
            head(rest)
        },
{
    reveal(bool_field);
    reveal(parse_bool_field);
    let s = bool_field(key, value) + rest;
    match value {
        Some(b) => {
            assert(s.skip(1) =~= crate::text::bool_text(b) + rest);
            lemma_parse_bool(b, rest);
        },
        None => {
            assert(s =~= rest);
        },
    }
}

pub proof fn lemma_date_field(key: char, value: Option<DateView>, rest: Seq<char>)
    requires
        date_is_valid(value),
        value is None ==> head(rest) != Some(key),
    ensures
        parse_date_field(date_field(key, value) + rest, key) == Some((date_or_epoch(value), rest)),
        head(date_field(key, value) + rest) == if value is Some {
            Some(key)
        } else {
            head(rest)
        },
{
    reveal(date_field);
    reveal(parse_date_field);
    let s = date_field(key, value) + rest;
    match value {
        Some(d) => {
            assert(s.skip(1) =~= crate::text::date_text(d) + rest);
            lemma_parse_date(d, rest);
        },
        None => {
            assert(s =~= rest);
        },
    }
}

/// An item record is read back as the item it stands for.
pub proof fn lemma_parse_item(record: ItemRecord, rest: Seq<char>)
    requires
        record.wf(),
    ensures
        parse_item(record.text() + rest) == Some((record.value(), rest)),
        starts_with(record.text() + rest, '{'),
{
    let s3 = seq!['}'] + rest;
    let s2 = date_field('d', record.date) + s3;
    let s1 = bool_field('c', record.completed) + s2;
    let s0 = string_field('n', record.name) + s1;
    let s = record.text() + rest;
    assert(s =~= seq!['{'] + s0);
    assert(s.skip(1) =~= s0);
    lemma_date_field('d', record.date, s3);
    lemma_bool_field('c', record.completed, s2);
    lemma_string_field('n', record.name, s1);
    assert(s3.skip(1) =~= rest);
}

/// Item records between brackets are read back in their order.
pub proof fn lemma_parse_items_tail(items: Seq<ItemRecord>, rest: Seq<char>)
    requires
        items_wf(items),
    ensures
        parse_items_tail(items_text(items) + seq![']'] + rest) == Some((items_value(items), rest)),
    decreases items.len(),
{
    let s = items_text(items) + seq![']'] + rest;
    if items.len() == 0 {
        assert(s =~= seq![']'] + rest);
        assert(s.skip(1) =~= rest);
        assert(items_value(items) =~= Seq::empty());
    } else {
        let tail = items.skip(1);
        let after = items_text(tail) + seq![']'] + rest;
        assert(s =~= items[0].text() + after);
        lemma_parse_item(items[0], after);
        assert(items_wf(tail)) by {
            assert forall|i: int| 0 <= i < tail.len() implies (#[trigger] tail[i]).wf() by {
                assert(tail[i] == items[i + 1]);
            }
        }
        lemma_parse_items_tail(tail, rest);
        assert(seq![items[0].value()] + items_value(tail) =~= items_value(items));
    }
}

pub proof fn lemma_items_field(key: char, value: Option<Seq<ItemRecord>>, rest: Seq<char>)
    requires
        value matches Some(items) ==> items_wf(items),
        value is None ==> head(rest) != Some(key),
    ensures
        parse_items_field(items_field(key, value) + rest, key) == Some(
            (
                match value {
                    Some(items) => items_value(items),
                    None => Seq::empty(),
                },
                rest,
            ),
        ),
        head(items_field(key, value) + rest) == if value is Some {
            Some(key)
        } else {
            head(rest)
        },
{
    reveal(items_field);
    reveal(parse_items_field);
    let s = items_field(key, value) + rest;
    match value {
        Some(items) => {
            let body = items_text(items) + seq![']'] + rest;
            assert(s.skip(1) =~= seq!['['] + body);
            assert((seq!['['] + body).skip(1) =~= body);
            lemma_parse_items_tail(items, rest);
        },
        None => {
            assert(s =~= rest);
        },
    }
}

/// A list record is read back as the list it stands for.
pub proof fn lemma_parse_list(record: ListRecord, rest: Seq<char>)
    requires
        record.wf(),
    ensures
        parse_list(record.text() + rest) == Some((record.value(), rest)),
        starts_with(record.text() + rest, '{'),
{
    let s4 = seq!['}'] + rest;
    let s3 = date_field('d', record.current_list_date) + s4;
    let s2 = string_field('e', record.current_item_name) + s3;
    let s1 = items_field('i', record.items) + s2;
    let s0 = string_field('n', record.list_name) + s1;
    let s = record.text() + rest;
    assert(s =~= seq!['{'] + s0);
    assert(s.skip(1) =~= s0);
    lemma_date_field('d', record.current_list_date, s4);
    lemma_string_field('e', record.current_item_name, s3);
    lemma_items_field('i', record.items, s2);
    lemma_string_field('n', record.list_name, s1);
    assert(s4.skip(1) =~= rest);
}

/// List records between brackets are read back in their order.
pub proof fn lemma_parse_lists_tail(lists: Seq<ListRecord>, rest: Seq<char>)
    requires
        lists_wf(lists),
    ensures
        parse_lists_tail(lists_text(lists) + seq![']'] + rest) == Some((lists_value(lists), rest)),
    decreases lists.len(),
{
    let s = lists_text(lists) + seq![']'] + rest;
    if lists.len() == 0 {
        assert(s =~= seq![']'] + rest);
        assert(s.skip(1) =~= rest);
        assert(lists_value(lists) =~= Seq::empty());
    } else {
        let tail = lists.skip(1);
        let after = lists_text(tail) + seq![']'] + rest;
        assert(s =~= lists[0].text() + after);
        lemma_parse_list(lists[0], after);
        assert(lists_wf(tail)) by {
            assert forall|i: int| 0 <= i < tail.len() implies (#[trigger] tail[i]).wf() by {
                assert(tail[i] == lists[i + 1]);
            }
        }
        lemma_parse_lists_tail(tail, rest);
        assert(seq![lists[0].value()] + lists_value(tail) =~= lists_value(lists));
    }
}

pub proof fn lemma_lists_field(key: char, value: Option<Seq<ListRecord>>, rest: Seq<char>)
    requires
        value matches Some(lists) ==> lists_wf(lists),
        value is None ==> head(rest) != Some(key),
    ensures
        parse_lists_field(lists_field(key, value) + rest, key) == Some(
            (
                match value {
                    Some(lists) => lists_value(lists),
                    None => Seq::empty(),
                },
                rest,
            ),
        ),
        head(lists_field(key, value) + rest) == if value is Some {
            Some(key)
        } else {
            head(rest)
        },
{
    reveal(lists_field);
    reveal(parse_lists_field);
    let s = lists_field(key, value) + rest;
    match value {
        Some(lists) => {
            let body = lists_text(lists) + seq![']'] + rest;
            assert(s.skip(1) =~= seq!['['] + body);
            assert((seq!['['] + body).skip(1) =~= body);
            lemma_parse_lists_tail(lists, rest);
        },
        None => {
            assert(s =~= rest);
        },
    }
}

/// A manager record is read back as the manager it stands for.
pub proof fn lemma_parse_manager(record: ManagerRecord, rest: Seq<char>)
    requires
        record.wf(),
    ensures
        parse_manager(record.text() + rest) == Some((record.value(), rest)),
{
    let s3 = seq!['}'] + rest;
    let s2 = bool_field('a', record.add_new_list) + s3;
    let s1 = string_field('n', record.current_list_name) + s2;
    let s0 = lists_field('l', record.todo_lists) + s1;
    let s = record.text() + rest;
    assert(s =~= seq!['{'] + s0);
    assert(s.skip(1) =~= s0);
    lemma_bool_field('a', record.add_new_list, s3);
    lemma_string_field('n', record.current_list_name, s2);
    lemma_lists_field('l', record.todo_lists, s1);
    assert(s3.skip(1) =~= rest);
    assert(gathered(Seq::<TodoListView>::empty()) =~= Seq::empty());
}

pub proof fn lemma_manager_field(key: char, value: Option<ManagerRecord>, rest: Seq<char>)
    requires
        value matches Some(manager) ==> manager.wf(),
        value is None ==> head(rest) != Some(key),
    ensures
        parse_manager_field(manager_field(key, value) + rest, key) == Some(
            (
                match value {
                    Some(manager) => manager.value(),
                    None => ManagerView::empty(),
                },
                rest,
            ),
        ),
        head(manager_field(key, value) + rest) == if value is Some {
            Some(key)
        } else {
            head(rest)
        },
{
    reveal(manager_field);
    reveal(parse_manager_field);
    let s = manager_field(key, value) + rest;
    match value {
        Some(manager) => {
            assert(s.skip(1) =~= manager.text() + rest);
            lemma_parse_manager(manager, rest);
        },
        None => {
            assert(s =~= rest);
        },
    }
}

/// A planner record is read back as the planner it stands for.
pub proof fn lemma_parse_planner(record: PlannerRecord, rest: Seq<char>)
    requires
        record.wf(),
    ensures
        parse_planner(record.text() + rest) == Some((record.value(), rest)),
{
    let s3 = seq!['}'] + rest;
    let s2 = string_field('n', record.new_list_name) + s3;
    let s1 = manager_field('m', record.list_manager) + s2;
    let s0 = bool_field('a', record.add_new_list) + s1;
    let s = record.text() + rest;
    assert(s =~= seq!['{'] + s0);
    assert(s.skip(1) =~= s0);
    lemma_string_field('n', record.new_list_name, s3);
    lemma_manager_field('m', record.list_manager, s2);
    lemma_bool_field('a', record.add_new_list, s1);
    assert(s3.skip(1) =~= rest);
}

/// A kept text may lack any field of any of its records and is read all
/// the same: each missing field comes out as its zero value (an empty text,
/// a false flag, 1 January 1970, no items, no lists), each field that is
/// there as it was written. The dates that are there must be days that
/// exist.
pub proof fn lemma_missing_fields_are_zero(record: PlannerRecord)
    requires
        record.wf(),
    ensures
        decode(record.text()) == Some(record.value()),
{
    lemma_parse_planner(record, Seq::empty());
    assert(record.text() + Seq::<char>::empty() =~= record.text());
}

/// Lists with distinct names, given to an empty manager one after another,
/// stand there as they came.
pub proof fn lemma_gathered_distinct(lists: Seq<TodoListView>)
    requires
        forall|i: int, j: int|
            0 <= i < j < lists.len() ==> (#[trigger] lists[i]).list_name != (
            #[trigger] lists[j]).list_name,
    ensures
        gathered(lists) == lists,
    decreases lists.len(),
{
    if lists.len() == 0 {
        assert(gathered(lists) =~= lists);
    } else {
        let front = lists.drop_last();
        assert forall|i: int, j: int| 0 <= i < j < front.len() implies (
        #[trigger] front[i]).list_name != (#[trigger] front[j]).list_name by {
            assert(front[i] == lists[i]);
            assert(front[j] == lists[j]);
        }
        lemma_gathered_distinct(front);
        let before = ManagerView::empty().insert_all(front);
        assert(before.todo_lists == front);
        if has_name(front, lists.last().list_name) {
            let i = choose|i: int|
                0 <= i < front.len() && (#[trigger] front[i]).list_name == lists.last().list_name;
            assert(front[i] == lists[i]);
            assert(lists[i].list_name != lists[lists.len() - 1].list_name);
        }
        assert(front.push(lists.last()) =~= lists);
    }
}

/// The record of an item, a list, a manager or a planner stands for it.
pub proof fn lemma_record_of(planner: PlannerView)
    requires
        planner.wf(),
    ensures
        PlannerRecord::of(planner).wf(),
        PlannerRecord::of(planner).value() == planner,
{
    let manager = planner.list_manager;
    let lists = manager.todo_lists;
    let records = lists_of(lists);
    assert forall|i: int| 0 <= i < lists.len() implies (#[trigger] records[i]).wf()
        && records[i].value() == lists[i] by {
        let list = lists[i];
        assert(list.wf());
        let items = items_of(list.items);
        assert forall|k: int| 0 <= k < items.len() implies (#[trigger] items[k]).wf() by {
            assert(list.items[k].wf());
        }
        assert(items_value(items) =~= list.items);
    }
    assert(lists_value(records) =~= lists);
    lemma_gathered_distinct(lists);
}

/// A planner that is written and read again is the planner that was
/// written: the same lists under the same names in the same order, in each
/// the same items in the same order with their names, flags and dates, and
/// the same fields of the surface.
pub proof fn lemma_round_trip(planner: PlannerView)
    requires
        planner.wf(),
    ensures
        decode(planner_text(planner)) == Some(planner),
{
    lemma_record_of(planner);
    lemma_missing_fields_are_zero(PlannerRecord::of(planner));
}

} // verus!
