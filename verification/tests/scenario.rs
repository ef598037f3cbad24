use rudium_planner::{Date, ListEvent, ListManager, ManagerEvent, TemplateApp};

fn in_list(name: &str, event: ListEvent) -> ManagerEvent {
    ManagerEvent::List(name.to_string(), event)
}

#[test]
fn groceries_milk_toggle() {
    let mut manager = ListManager::new();
    assert_eq!(manager.len(), 0);

    manager.submit_new_list("Groceries".to_string());
    assert_eq!(manager.len(), 1);
    let list = manager.get("Groceries").unwrap();
    assert_eq!(list.list_name(), "Groceries");
    assert_eq!(list.len(), 0);

    let date = Date::from_ymd_opt(2024, 1, 1).unwrap();
    manager.show(in_list("Groceries", ListEvent::EditItemName("Milk".to_string())));
    manager.show(in_list("Groceries", ListEvent::PickDate(date)));
    manager.show(in_list("Groceries", ListEvent::AddItem));
    let list = manager.get("Groceries").unwrap();
    assert_eq!(list.len(), 1);
    let item = list.item(0).unwrap();
    assert_eq!(item.name(), "Milk");
    assert!(!item.completed());
    assert_eq!(item.date(), date);

    manager.show(in_list("Groceries", ListEvent::Toggle(0)));
    let item = manager.get("Groceries").unwrap().item(0).unwrap();
    assert!(item.completed());
    assert_eq!(item.name(), "Milk");
    assert_eq!(item.date(), date);
}

#[test]
fn a_run_from_the_first_click_to_the_kept_text() {
    let mut app = TemplateApp::new(None);
    assert_eq!(app.list_manager().len(), 0);
    assert!(!app.list_manager().add_new_list());

    app.update(ManagerEvent::OpenDialog);
    assert!(app.list_manager().add_new_list());
    app.update(ManagerEvent::EditListName("Groceries".to_string()));
    assert_eq!(app.list_manager().current_list_name(), "Groceries");
    app.update(ManagerEvent::AddList);
    assert!(!app.list_manager().add_new_list());
    assert_eq!(app.list_manager().current_list_name(), "");
    assert_eq!(app.list_manager().len(), 1);

    app.update(in_list("Groceries", ListEvent::EditItemName("Milk".to_string())));
    app.update(in_list("Groceries", ListEvent::PickDate(Date::from_ymd_opt(2024, 1, 1).unwrap())));
    app.update(in_list("Groceries", ListEvent::AddItem));
    app.update(in_list("Groceries", ListEvent::Toggle(0)));

    let kept = app.save();
    assert_eq!(
        kept,
        "{afm{l[{n9:Groceriesi[{n4:Milkctd2024-1-1;}]e0:d2024-1-1;}]n0:af}n0:}"
    );

    let next_run = TemplateApp::new(Some(&kept));
    let list = next_run.list_manager().get("Groceries").unwrap();
    assert_eq!(list.len(), 1);
    let item = list.item(0).unwrap();
    assert_eq!(item.name(), "Milk");
    assert!(item.completed());
    assert_eq!(item.date(), Date::from_ymd_opt(2024, 1, 1).unwrap());
    assert_eq!(next_run.save(), kept);
}
