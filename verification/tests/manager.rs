use rudium_planner::{Date, ListEvent, ListManager, ManagerEvent};

fn in_list(name: &str, event: ListEvent) -> ManagerEvent {
    ManagerEvent::List(name.to_string(), event)
}

#[test]
fn a_new_manager_has_no_lists() {
    let manager = ListManager::new();
    assert_eq!(manager.len(), 0);
    assert!(manager.list(0).is_none());
    assert!(manager.get("A").is_none());
    assert!(!manager.add_new_list());
    assert_eq!(manager.current_list_name(), "");
}

#[test]
fn a_second_list_of_a_name_replaces_the_first() {
    let mut manager = ListManager::new();
    manager.submit_new_list("A".to_string());
    manager.submit_new_list("B".to_string());
    manager.show(in_list("A", ListEvent::EditItemName("one".to_string())));
    manager.show(in_list("A", ListEvent::AddItem));
    manager.show(in_list("A", ListEvent::Toggle(0)));
    manager.show(in_list("A", ListEvent::PickDate(Date::from_ymd_opt(2030, 5, 5).unwrap())));
    manager.show(in_list("A", ListEvent::EditItemName("half typed".to_string())));
    assert_eq!(manager.get("A").unwrap().len(), 1);

    manager.submit_new_list("A".to_string());
    assert_eq!(manager.len(), 2);
    let named_a = (0..manager.len())
        .filter(|&i| manager.list(i).unwrap().list_name() == "A")
        .count();
    assert_eq!(named_a, 1);
    let list = manager.get("A").unwrap();
    assert_eq!(list.list_name(), "A");
    assert_eq!(list.len(), 0);
    assert_eq!(list.current_item_name(), "");
    assert_eq!(list.current_list_date(), Date::from_ymd_opt(1970, 1, 1).unwrap());
    assert_eq!(manager.list(0).unwrap().list_name(), "A");
    assert_eq!(manager.list(1).unwrap().list_name(), "B");
}

#[test]
fn an_empty_list_name_is_ignored() {
    let mut manager = ListManager::new();
    manager.submit_new_list("A".to_string());
    manager.open_add_list_dialog();
    assert!(manager.add_new_list());

    manager.submit_new_list(String::new());
    assert_eq!(manager.len(), 1);
    assert!(manager.get("").is_none());
    assert!(manager.add_new_list());

    manager.show(ManagerEvent::AddList);
    assert_eq!(manager.len(), 1);
    assert!(manager.get("").is_none());
    assert!(manager.add_new_list());
}

#[test]
fn adding_a_list_closes_the_dialog_and_clears_its_field() {
    let mut manager = ListManager::new();
    manager.show(ManagerEvent::OpenDialog);
    manager.show(ManagerEvent::EditListName("Home".to_string()));
    assert!(manager.add_new_list());
    assert_eq!(manager.current_list_name(), "Home");

    manager.show(ManagerEvent::AddList);
    assert!(!manager.add_new_list());
    assert_eq!(manager.current_list_name(), "");
    assert_eq!(manager.len(), 1);
    assert_eq!(manager.get("Home").unwrap().len(), 0);
}

#[test]
fn the_dialog_takes_no_event_while_it_is_closed() {
    let mut manager = ListManager::new();
    manager.show(ManagerEvent::EditListName("Home".to_string()));
    assert_eq!(manager.current_list_name(), "");
    manager.show(ManagerEvent::AddList);
    assert_eq!(manager.len(), 0);
    assert!(!manager.add_new_list());
}

#[test]
fn submitting_a_name_needs_no_open_dialog() {
    let mut manager = ListManager::new();
    manager.submit_new_list("Home".to_string());
    assert_eq!(manager.len(), 1);
    assert!(!manager.add_new_list());
}

#[test]
fn lists_keep_the_order_in_which_they_were_added() {
    let mut manager = ListManager::new();
    for name in ["c", "a", "b"] {
        manager.submit_new_list(name.to_string());
    }
    let names: Vec<String> =
        (0..manager.len()).map(|i| manager.list(i).unwrap().list_name().clone()).collect();
    assert_eq!(names, vec!["c", "a", "b"]);
}

#[test]
fn an_event_for_a_list_that_is_not_there_changes_nothing() {
    let mut manager = ListManager::new();
    manager.submit_new_list("A".to_string());
    manager.show(in_list("B", ListEvent::AddItem));
    assert_eq!(manager.len(), 1);
    assert_eq!(manager.get("A").unwrap().len(), 0);
    assert!(manager.get("B").is_none());
}

#[test]
fn an_event_reaches_the_list_it_names_and_no_other() {
    let mut manager = ListManager::new();
    manager.submit_new_list("A".to_string());
    manager.submit_new_list("B".to_string());
    manager.show(in_list("B", ListEvent::EditItemName("x".to_string())));
    manager.show(in_list("B", ListEvent::AddItem));
    assert_eq!(manager.get("A").unwrap().len(), 0);
    assert_eq!(manager.get("B").unwrap().len(), 1);
    assert_eq!(manager.get("B").unwrap().item(0).unwrap().name(), "x");
}

#[test]
fn the_default_manager_is_the_new_one() {
    let manager = ListManager::default();
    assert_eq!(manager.len(), 0);
    assert!(!manager.add_new_list());
    assert_eq!(manager.current_list_name(), "");
}
