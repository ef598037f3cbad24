use rudium_planner::{Date, ListEvent, ManagerEvent, TemplateApp};

fn in_list(name: &str, event: ListEvent) -> ManagerEvent {
    ManagerEvent::List(name.to_string(), event)
}

fn day(year: i32, month: u32, day: u32) -> Date {
    Date::from_ymd_opt(year, month, day).unwrap()
}

fn add_list(app: &mut TemplateApp, name: &str) {
    app.update(ManagerEvent::OpenDialog);
    app.update(ManagerEvent::EditListName(name.to_string()));
    app.update(ManagerEvent::AddList);
}

fn add_item(app: &mut TemplateApp, list: &str, name: &str, date: Date) {
    app.update(in_list(list, ListEvent::EditItemName(name.to_string())));
    app.update(in_list(list, ListEvent::PickDate(date)));
    app.update(in_list(list, ListEvent::AddItem));
}

fn assert_same(a: &TemplateApp, b: &TemplateApp) {
    assert_eq!(a.add_new_list(), b.add_new_list());
    assert_eq!(a.new_list_name(), b.new_list_name());
    let (ma, mb) = (a.list_manager(), b.list_manager());
    assert_eq!(ma.add_new_list(), mb.add_new_list());
    assert_eq!(ma.current_list_name(), mb.current_list_name());
    assert_eq!(ma.len(), mb.len());
    for i in 0..ma.len() {
        let (la, lb) = (ma.list(i).unwrap(), mb.list(i).unwrap());
        assert_eq!(la.list_name(), lb.list_name());
        assert_eq!(la.current_item_name(), lb.current_item_name());
        assert_eq!(la.current_list_date(), lb.current_list_date());
        assert_eq!(la.len(), lb.len());
        for k in 0..la.len() {
            let (ia, ib) = (la.item(k).unwrap(), lb.item(k).unwrap());
            assert_eq!(ia.name(), ib.name());
            assert_eq!(ia.completed(), ib.completed());
            assert_eq!(ia.date(), ib.date());
        }
    }
}

fn assert_empty(app: &TemplateApp) {
    assert!(!app.add_new_list());
    assert_eq!(app.new_list_name(), "");
    assert!(!app.list_manager().add_new_list());
    assert_eq!(app.list_manager().current_list_name(), "");
    assert_eq!(app.list_manager().len(), 0);
}

#[test]
fn the_first_run_starts_empty() {
    assert_empty(&TemplateApp::new(None));
    assert_empty(&TemplateApp::default());
}

#[test]
fn the_empty_planner_as_text() {
    assert_eq!(TemplateApp::default().save(), "{afm{l[]n0:af}n0:}");
}

#[test]
fn what_is_written_is_read_back() {
    let mut app = TemplateApp::default();
    add_list(&mut app, "Groceries");
    add_list(&mut app, "Käse 🧀 {n3:}");
    add_list(&mut app, "12");
    add_item(&mut app, "Groceries", "Milk", day(2024, 1, 1));
    add_item(&mut app, "Groceries", "", day(-44, 3, 15));
    add_item(&mut app, "Groceries", "]}", day(262142, 12, 31));
    add_item(&mut app, "12", "7;", day(2000, 2, 29));
    app.update(in_list("Groceries", ListEvent::Toggle(1)));
    app.update(in_list("12", ListEvent::EditItemName("half typed: 3".to_string())));
    app.update(ManagerEvent::OpenDialog);
    app.update(ManagerEvent::EditListName("not yet added".to_string()));

    let kept = app.save();
    let read = TemplateApp::load(&kept).unwrap();
    assert_same(&app, &read);
    assert_same(&app, &TemplateApp::new(Some(&kept)));
    assert_eq!(read.save(), kept);

    let list = read.list_manager().get("Groceries").unwrap();
    assert_eq!(list.len(), 3);
    assert_eq!(list.item(1).unwrap().name(), "");
    assert!(list.item(1).unwrap().completed());
    assert_eq!(list.item(1).unwrap().date(), day(-44, 3, 15));
    assert!(read.list_manager().add_new_list());
    assert_eq!(read.list_manager().current_list_name(), "not yet added");
    assert_eq!(read.list_manager().list(1).unwrap().list_name(), "Käse 🧀 {n3:}");
}

#[test]
fn a_negative_year_is_written_with_its_sign() {
    let mut app = TemplateApp::default();
    add_list(&mut app, "A");
    add_item(&mut app, "A", "x", day(-44, 3, 15));
    assert_eq!(
        app.save(),
        "{afm{l[{n1:Ai[{n1:xcfd-44-3-15;}]e0:d-44-3-15;}]n0:af}n0:}"
    );
}

#[test]
fn a_missing_field_has_its_zero_value() {
    assert_empty(&TemplateApp::load("{}").unwrap());
    assert_empty(&TemplateApp::load("{m{}}").unwrap());
    assert_empty(&TemplateApp::load("{m{l[]}}").unwrap());

    let app = TemplateApp::load("{atn2:ab}").unwrap();
    assert!(app.add_new_list());
    assert_eq!(app.new_list_name(), "ab");
    assert_eq!(app.list_manager().len(), 0);

    let app = TemplateApp::load("{m{l[{n1:A}{}{i[{}{n1:xd2024-2-29;}{ct}]}]at}}").unwrap();
    let manager = app.list_manager();
    assert!(manager.add_new_list());
    assert_eq!(manager.current_list_name(), "");
    assert_eq!(manager.len(), 2);
    let first = manager.list(0).unwrap();
    assert_eq!(first.list_name(), "A");
    assert_eq!(first.len(), 0);
    assert_eq!(first.current_list_date(), day(1970, 1, 1));
    let second = manager.list(1).unwrap();
    assert_eq!(second.list_name(), "");
    assert_eq!(second.len(), 3);
    let item = second.item(0).unwrap();
    assert_eq!(item.name(), "");
    assert!(!item.completed());
    assert_eq!(item.date(), day(1970, 1, 1));
    let item = second.item(1).unwrap();
    assert_eq!(item.name(), "x");
    assert!(!item.completed());
    assert_eq!(item.date(), day(2024, 2, 29));
    let item = second.item(2).unwrap();
    assert_eq!(item.name(), "");
    assert!(item.completed());
    assert_eq!(item.date(), day(1970, 1, 1));
}

#[test]
fn of_two_kept_lists_with_one_name_the_later_stands() {
    let app = TemplateApp::load("{m{l[{n1:Ai[{n1:x}]}{n1:B}{n1:Ai[{n1:y}{n1:z}]}]}}").unwrap();
    let manager = app.list_manager();
    assert_eq!(manager.len(), 2);
    assert_eq!(manager.list(0).unwrap().list_name(), "A");
    assert_eq!(manager.list(1).unwrap().list_name(), "B");
    let list = manager.get("A").unwrap();
    assert_eq!(list.len(), 2);
    assert_eq!(list.item(0).unwrap().name(), "y");
    assert_eq!(list.item(1).unwrap().name(), "z");
}

#[test]
fn a_text_that_holds_no_planner_gives_the_empty_planner() {
    let broken = [
        "",
        "{",
        "}",
        "{}}",
        "{} ",
        " {}",
        "{ax}",
        "{n3:ab}",
        "{n:}",
        "{n-1:}",
        "{n99999999999999999999999999999999:}",
        "{nab}",
        "{af}{af}",
        "{naf}",
        "{n0:af}",
        "{m{l[}}",
        "{m{l[{]}}",
        "{m{l[{n1:A]}}",
        "{m{l[{d2023-2-29;}]}}",
        "{m{l[{d2023-13-1;}]}}",
        "{m{l[{d2023-1-0;}]}}",
        "{m{l[{d262143-1-1;}]}}",
        "{m{l[{d-262144-1-1;}]}}",
        "{m{l[{d2023-1-1}]}}",
        "{m{l[{d2023/1/1;}]}}",
        "{m{l[{d--5-1-1;}]}}",
        "{m{l[{i[{cx}]}]}}",
        "{m{l[{i[{n1:xn1:y}]}]}}",
        "not a planner",
    ];
    for text in broken {
        assert!(TemplateApp::load(text).is_none(), "{:?}", text);
        assert_empty(&TemplateApp::new(Some(text)));
    }
}

#[test]
fn numbers_may_have_leading_zeros() {
    let app = TemplateApp::load("{m{l[{n01:Ad02024-01-09;}]}}").unwrap();
    let list = app.list_manager().get("A").unwrap();
    assert_eq!(list.current_list_date(), day(2024, 1, 9));
}

#[test]
fn a_long_item_name_is_kept() {
    let name: String = std::iter::repeat("ab🧀").take(500).collect();
    let mut app = TemplateApp::default();
    add_list(&mut app, "A");
    add_item(&mut app, "A", &name, day(2024, 1, 1));
    let read = TemplateApp::new(Some(&app.save()));
    assert_eq!(read.list_manager().get("A").unwrap().item(0).unwrap().name(), &name);
    assert_eq!(name.chars().count(), 1500);
    assert!(app.save().contains("n1500:ab"));
}
