use rudium_planner::{Date, ListEvent, TodoList};

fn day(year: i32, month: u32, day: u32) -> Date {
    Date::from_ymd_opt(year, month, day).unwrap()
}

#[test]
fn a_new_list_is_empty() {
    let list = TodoList::new("Work".to_string());
    assert_eq!(list.list_name(), "Work");
    assert_eq!(list.len(), 0);
    assert!(list.item(0).is_none());
    assert_eq!(list.current_item_name(), "");
    assert_eq!(list.current_list_date(), day(1970, 1, 1));
}

#[test]
fn items_are_appended_in_call_order() {
    let mut list = TodoList::new("Work".to_string());
    let names = ["write", "", "review", "", "ship"];
    for (i, name) in names.iter().enumerate() {
        list.submit_new_item(name.to_string(), day(2024, 3, 1 + i as u32));
        assert_eq!(list.len(), i + 1);
    }
    assert_eq!(list.len(), names.len());
    for (i, name) in names.iter().enumerate() {
        let item = list.item(i).unwrap();
        assert_eq!(item.name(), name);
        assert!(!item.completed());
        assert_eq!(item.date(), day(2024, 3, 1 + i as u32));
    }
    assert!(list.item(names.len()).is_none());
}

#[test]
fn an_empty_item_name_is_taken() {
    let mut list = TodoList::new("Work".to_string());
    list.submit_new_item(String::new(), day(2024, 1, 1));
    assert_eq!(list.len(), 1);
    assert_eq!(list.item(0).unwrap().name(), "");
}

#[test]
fn adding_clears_the_name_field_and_keeps_the_date_field() {
    let mut list = TodoList::new("Work".to_string());
    list.show(ListEvent::EditItemName("first".to_string()));
    list.show(ListEvent::PickDate(day(2025, 12, 31)));
    assert_eq!(list.current_item_name(), "first");
    assert_eq!(list.current_list_date(), day(2025, 12, 31));

    list.show(ListEvent::AddItem);
    assert_eq!(list.len(), 1);
    assert_eq!(list.item(0).unwrap().name(), "first");
    assert_eq!(list.item(0).unwrap().date(), day(2025, 12, 31));
    assert_eq!(list.current_item_name(), "");
    assert_eq!(list.current_list_date(), day(2025, 12, 31));

    list.show(ListEvent::AddItem);
    assert_eq!(list.len(), 2);
    assert_eq!(list.item(1).unwrap().name(), "");
    assert_eq!(list.item(1).unwrap().date(), day(2025, 12, 31));
}

#[test]
fn submitting_with_a_name_and_a_date_leaves_the_date_field() {
    let mut list = TodoList::new("Work".to_string());
    list.show(ListEvent::EditItemName("typed".to_string()));
    list.submit_new_item("given".to_string(), day(2024, 2, 29));
    assert_eq!(list.item(0).unwrap().name(), "given");
    assert_eq!(list.item(0).unwrap().date(), day(2024, 2, 29));
    assert_eq!(list.current_item_name(), "");
    assert_eq!(list.current_list_date(), day(1970, 1, 1));
}

#[test]
fn toggling_twice_gives_the_item_back() {
    let mut list = TodoList::new("Work".to_string());
    list.submit_new_item("a".to_string(), day(2024, 1, 1));
    list.submit_new_item("b".to_string(), day(2024, 1, 2));

    list.toggle_item(1);
    assert!(!list.item(0).unwrap().completed());
    assert!(list.item(1).unwrap().completed());
    assert_eq!(list.item(1).unwrap().name(), "b");
    assert_eq!(list.item(1).unwrap().date(), day(2024, 1, 2));

    list.toggle_item(1);
    assert!(!list.item(0).unwrap().completed());
    assert!(!list.item(1).unwrap().completed());
    assert_eq!(list.len(), 2);
}

#[test]
fn toggling_an_item_that_is_not_there_changes_nothing() {
    let mut list = TodoList::new("Work".to_string());
    list.submit_new_item("a".to_string(), day(2024, 1, 1));
    list.toggle_item(1);
    list.show(ListEvent::Toggle(usize::MAX));
    assert_eq!(list.len(), 1);
    assert!(!list.item(0).unwrap().completed());
}
