use grocery_list::app::{status_is_error, App, Effect, Key, Mode, MENU_LEN};
use grocery_list::catalog::{Catalog, LoadError, Section};
use grocery_list::list::GroceryList;

fn section(name: &str, items: &[&str]) -> Section {
    Section {
        name: name.to_string(),
        items: items.iter().map(|s| s.to_string()).collect(),
    }
}

fn catalog() -> Catalog {
    Catalog {
        sections: vec![
            section("Produce", &["Apples", "Avocado", "Bananas"]),
            section("Dairy", &["Milk", "Butter"]),
            section("Bakery", &["Bread"]),
        ],
    }
}

fn app_with(mode: Mode, items: &[&str]) -> App {
    let mut app = App::new();
    app.catalog_sections = catalog().sections;
    app.working_list = GroceryList { items: items.iter().map(|s| s.to_string()).collect() };
    app.mode = mode;
    app
}

fn typed(app: &mut App, text: &str) {
    app.input = text.to_string();
    app.input_changed();
}

fn status(app: &App) -> Option<&str> {
    app.status.as_deref()
}

#[test]
fn new_app_starts_on_menu() {
    let app = App::new();
    assert!(matches!(app.mode, Mode::Menu));
    assert_eq!(app.menu_selected, 0);
    assert!(app.input.is_empty() && app.suggestions.is_empty() && app.status.is_none());
    assert!(!app.should_quit);
}

#[test]
fn list_command_suggestions() {
    let mut app = app_with(Mode::List, &[]);
    typed(&mut app, "/");
    assert_eq!(app.suggestions, vec!["/add", "/remove", "/clear"]);
    typed(&mut app, "/r");
    assert_eq!(app.suggestions, vec!["/remove"]);
    typed(&mut app, "/R");
    assert!(app.suggestions.is_empty());
    typed(&mut app, "");
    assert!(app.suggestions.is_empty());
}

#[test]
fn menu_and_add_to_section_modes_have_no_suggestions() {
    let mut app = app_with(Mode::Menu, &[]);
    typed(&mut app, "/");
    assert!(app.suggestions.is_empty());
    app.mode = Mode::CatalogAddItem;
    typed(&mut app, "/");
    assert!(app.suggestions.is_empty());
}

#[test]
fn add_item_suggestions_ignore_case() {
    let mut app = app_with(Mode::AddItem, &[]);
    typed(&mut app, "A");
    assert_eq!(app.suggestions, vec!["Apples", "Avocado"]);
    typed(&mut app, "bU");
    assert_eq!(app.suggestions, vec!["Butter"]);
    assert_eq!(app.selected_suggestion, 0);
}

#[test]
fn remove_item_suggestions_drop_case_duplicates() {
    let mut app = app_with(Mode::RemoveItem, &["milk", "Bread", "MILK", "Milk", "mint"]);
    typed(&mut app, "Mi");
    assert_eq!(app.suggestions, vec!["milk", "mint"]);
}

#[test]
fn catalog_suggestions() {
    let mut app = app_with(Mode::Catalog, &[]);
    typed(&mut app, "/");
    assert_eq!(app.suggestions, vec!["/format", "/open"]);
    typed(&mut app, "/open b");
    assert_eq!(app.suggestions, vec!["/open Bakery"]);
    typed(&mut app, "/open ");
    assert_eq!(app.suggestions, vec!["/open Produce", "/open Dairy", "/open Bakery"]);
    app.mode = Mode::CatalogSection;
    typed(&mut app, "/a");
    assert_eq!(app.suggestions, vec!["/add"]);
}

#[test]
fn suggestion_selection_wraps() {
    let mut app = app_with(Mode::List, &[]);
    typed(&mut app, "/");
    app.select_prev_suggestion();
    assert_eq!(app.selected_suggestion, 2);
    app.select_next_suggestion();
    assert_eq!(app.selected_suggestion, 0);
    app.select_next_suggestion();
    assert_eq!(app.selected_suggestion, 1);
    app.select_prev_suggestion();
    assert_eq!(app.selected_suggestion, 0);
}

#[test]
fn suggestion_selection_without_suggestions_stays() {
    let mut app = App::new();
    app.selected_suggestion = 4;
    app.select_next_suggestion();
    app.select_prev_suggestion();
    assert_eq!(app.selected_suggestion, 4);
}

#[test]
fn menu_selection_wraps() {
    let mut app = App::new();
    app.select_menu_prev();
    assert_eq!(app.menu_selected, MENU_LEN - 1);
    app.select_menu_next();
    assert_eq!(app.menu_selected, 0);
    app.select_menu_next();
    app.select_menu_next();
    app.select_menu_next();
    assert_eq!(app.menu_selected, 0);
}

#[test]
fn confirm_menu_entries() {
    let mut app = App::new();
    assert!(matches!(app.confirm_menu(), Effect::OpenList));
    app.menu_selected = 1;
    assert!(matches!(app.confirm_menu(), Effect::OpenCatalog));
    assert!(!app.should_quit);
    app.menu_selected = 2;
    assert!(matches!(app.confirm_menu(), Effect::Done));
    assert!(app.should_quit);
}

#[test]
fn accept_suggestion_fills_input() {
    let mut app = app_with(Mode::List, &[]);
    typed(&mut app, "/c");
    app.accept_suggestion();
    assert_eq!(app.input, "/clear");
    assert!(app.suggestions.is_empty());
    // nothing selected: nothing changes
    app.accept_suggestion();
    assert_eq!(app.input, "/clear");
}

#[test]
fn back_steps_one_level() {
    let cases = [
        (Mode::AddItem, Mode::List),
        (Mode::RemoveItem, Mode::List),
        (Mode::List, Mode::Menu),
        (Mode::Catalog, Mode::Menu),
        (Mode::CatalogAddItem, Mode::CatalogSection),
        (Mode::CatalogSection, Mode::Catalog),
        (Mode::Menu, Mode::Menu),
    ];
    for (from, to) in cases {
        let mut app = app_with(from, &["Milk"]);
        app.current_section = Some("Dairy".to_string());
        app.input = "x".to_string();
        app.status = Some("s".to_string());
        app.back();
        assert_eq!(app.mode, to);
        assert!(app.input.is_empty() && app.suggestions.is_empty() && app.status.is_none());
        if from == Mode::CatalogSection {
            assert!(app.current_section.is_none());
        } else {
            assert_eq!(app.current_section.as_deref(), Some("Dairy"));
        }
    }
}

#[test]
fn back_three_times_reaches_menu() {
    let mut app = app_with(Mode::CatalogAddItem, &[]);
    app.back();
    app.back();
    app.back();
    assert_eq!(app.mode, Mode::Menu);
}

#[test]
fn submit_list_commands() {
    let mut app = app_with(Mode::List, &["Milk"]);
    app.input = "  /add ".to_string();
    assert!(matches!(app.submit_input(), Effect::Done));
    assert_eq!(app.mode, Mode::AddItem);
    assert!(app.input.is_empty());

    let mut app = app_with(Mode::List, &["Milk"]);
    app.input = "/remove".to_string();
    app.submit_input();
    assert_eq!(app.mode, Mode::RemoveItem);

    let mut app = app_with(Mode::List, &["Milk"]);
    app.input = "/clear".to_string();
    match app.submit_input() {
        Effect::SaveList { message } => assert_eq!(message, "Cleared list"),
        _ => panic!("expected a save"),
    }
    assert!(app.working_list.items.is_empty());

    let mut app = app_with(Mode::List, &[]);
    app.input = "/bogus".to_string();
    app.submit_input();
    assert_eq!(status(&app), Some("unknown command: /bogus"));
    assert_eq!(app.mode, Mode::List);
}

#[test]
fn submit_blank_line_does_nothing() {
    let mut app = app_with(Mode::List, &[]);
    app.input = " \t ".to_string();
    typed(&mut app, " \t ");
    assert!(matches!(app.submit_input(), Effect::Done));
    assert!(app.input.is_empty() && app.suggestions.is_empty());
    assert_eq!(app.mode, Mode::List);
    assert!(app.status.is_none());
}

#[test]
fn submit_on_menu_does_nothing() {
    let mut app = App::new();
    app.input = "List".to_string();
    assert!(matches!(app.submit_input(), Effect::Done));
    assert_eq!(app.mode, Mode::Menu);
}

#[test]
fn add_item_uses_catalog_spelling() {
    let mut app = app_with(Mode::AddItem, &[]);
    app.input = "  mILK ".to_string();
    match app.submit_input() {
        Effect::SaveList { message } => assert_eq!(message, "Added Milk"),
        _ => panic!("expected a save"),
    }
    assert_eq!(app.working_list.items, vec!["Milk"]);
    app.finish_list_save("Added Milk".to_string(), Ok(()));
    assert_eq!(status(&app), Some("Added Milk"));
}

#[test]
fn add_unknown_item_is_refused() {
    let mut app = app_with(Mode::AddItem, &[]);
    assert!(matches!(app.add_item("Caviar"), Effect::Done));
    assert_eq!(status(&app), Some("Unknown item 'Caviar' — not in the catalog"));
    assert!(app.working_list.items.is_empty());
}

#[test]
fn remove_item_removes_first_match() {
    let mut app = app_with(Mode::RemoveItem, &["Bread", "Milk", "milk"]);
    match app.remove_item("MILK") {
        Effect::SaveList { message } => assert_eq!(message, "Removed Milk"),
        _ => panic!("expected a save"),
    }
    assert_eq!(app.working_list.items, vec!["Bread", "milk"]);
}

#[test]
fn remove_missing_item_is_refused() {
    let mut app = app_with(Mode::RemoveItem, &["Bread"]);
    assert!(matches!(app.remove_item("Milk"), Effect::Done));
    assert_eq!(status(&app), Some("No such item 'Milk' on the list"));
    assert_eq!(app.working_list.items, vec!["Bread"]);
}

#[test]
fn add_then_remove_restores_list() {
    let mut app = app_with(Mode::AddItem, &["Bread"]);
    app.add_item("apples");
    assert_eq!(app.working_list.items, vec!["Bread", "Apples"]);
    app.remove_item("apples");
    assert_eq!(app.working_list.items, vec!["Bread"]);
}

#[test]
fn list_save_failure_shows_error() {
    let mut app = App::new();
    app.finish_list_save("Cleared list".to_string(), Err("couldn't write list file 'x': denied".to_string()));
    assert_eq!(status(&app), Some("couldn't write list file 'x': denied"));
}

#[test]
fn catalog_commands_open_and_format() {
    let mut app = app_with(Mode::Catalog, &[]);
    app.input = "/format".to_string();
    assert!(matches!(app.submit_input(), Effect::FormatCatalog));

    app.input = "/open   dAIRY  ".to_string();
    assert!(matches!(app.submit_input(), Effect::Done));
    assert_eq!(app.mode, Mode::CatalogSection);
    assert_eq!(app.current_section.as_deref(), Some("Dairy"));
    assert!(app.status.is_none());
}

#[test]
fn open_missing_section_is_refused() {
    let mut app = app_with(Mode::Catalog, &[]);
    app.input = "/open Deli".to_string();
    app.submit_input();
    assert_eq!(status(&app), Some("No such section 'Deli'"));
    assert_eq!(app.mode, Mode::Catalog);
    app.input = "/opened".to_string();
    app.submit_input();
    assert_eq!(status(&app), Some("unknown command: /opened"));
}

#[test]
fn section_commands() {
    let mut app = app_with(Mode::CatalogSection, &[]);
    app.input = "/add".to_string();
    app.submit_input();
    assert_eq!(app.mode, Mode::CatalogAddItem);
    let mut app = app_with(Mode::CatalogSection, &[]);
    app.input = "/format".to_string();
    app.submit_input();
    assert_eq!(status(&app), Some("unknown command: /format"));
}

#[test]
fn add_catalog_item_flow() {
    let mut app = app_with(Mode::CatalogAddItem, &[]);
    app.current_section = Some("Dairy".to_string());
    app.input = " cheese ".to_string();
    let name = match app.submit_input() {
        Effect::AddCatalogItem { name } => name,
        _ => panic!("expected a request to add"),
    };
    assert_eq!(name, "cheese");
    match app.add_catalog_item(&name, Ok(catalog())) {
        Effect::SaveCatalog { catalog, message } => {
            assert_eq!(message, "Added cheese to Dairy");
            assert_eq!(catalog.sections[1].items, vec!["Butter", "cheese", "Milk"]);
            assert_eq!(catalog.sections[0].items, vec!["Apples", "Avocado", "Bananas"]);
            app.finish_catalog_save(catalog, message, Ok(()));
        }
        _ => panic!("expected a save"),
    }
    assert_eq!(status(&app), Some("Added cheese to Dairy"));
    assert_eq!(app.catalog_sections[1].items, vec!["Butter", "cheese", "Milk"]);
}

#[test]
fn add_catalog_item_errors() {
    let mut app = app_with(Mode::CatalogAddItem, &[]);
    assert!(matches!(app.add_catalog_item("Tea", Ok(catalog())), Effect::Done));
    assert_eq!(status(&app), Some("No section open"));

    app.current_section = Some("dairy".to_string());
    assert!(matches!(app.add_catalog_item("Tea", Ok(catalog())), Effect::Done));
    assert_eq!(status(&app), Some("No such section 'dairy'"));

    let err = LoadError::Parse("oops".to_string());
    assert!(matches!(app.add_catalog_item("Tea", Err(err)), Effect::Done));
    assert_eq!(status(&app), Some("couldn't parse catalog YAML: oops"));
}

#[test]
fn catalog_save_failure_keeps_sections() {
    let mut app = app_with(Mode::Catalog, &[]);
    app.finish_catalog_save(Catalog { sections: vec![] }, "Catalog formatted".to_string(), Err("denied".to_string()));
    assert_eq!(status(&app), Some("denied"));
    assert_eq!(app.catalog_sections.len(), 3);
}

#[test]
fn format_catalog_sorts_and_asks_to_save() {
    let mut app = app_with(Mode::Catalog, &[]);
    let loaded = Catalog { sections: vec![section("Dairy", &["milk", "Butter", "eggs"])] };
    match app.format_catalog(Ok(loaded)) {
        Effect::SaveCatalog { catalog, message } => {
            assert_eq!(message, "Catalog formatted");
            assert_eq!(catalog.sections[0].items, vec!["Butter", "eggs", "milk"]);
        }
        _ => panic!("expected a save"),
    }
    let err = LoadError::Io { path: "data/catalog.yml".to_string(), source: "gone".to_string() };
    assert!(matches!(app.format_catalog(Err(err)), Effect::Done));
    assert_eq!(status(&app), Some("couldn't read catalog file 'data/catalog.yml': gone"));
}

#[test]
fn open_list_loads_both() {
    let mut app = App::new();
    let list = GroceryList { items: vec!["Milk".to_string()] };
    app.open_list(Ok(catalog()), Ok(list));
    assert_eq!(app.mode, Mode::List);
    assert_eq!(app.catalog_sections.len(), 3);
    assert_eq!(app.working_list.items, vec!["Milk"]);
    assert!(app.status.is_none());
}

#[test]
fn open_list_errors() {
    let mut app = App::new();
    let err = LoadError::Parse("tab".to_string());
    app.open_list(Err(err), Ok(GroceryList::default()));
    assert_eq!(status(&app), Some("Error loading catalog: couldn't parse catalog YAML: tab"));
    let mut app = App::new();
    app.open_list(Ok(catalog()), Err("couldn't parse list file 'data/list.json': eof".to_string()));
    assert_eq!(status(&app), Some("couldn't parse list file 'data/list.json': eof"));
    assert_eq!(app.catalog_sections.len(), 3);
}

#[test]
fn open_catalog_loads() {
    let mut app = App::new();
    app.status = Some("old".to_string());
    app.open_catalog(Ok(catalog()));
    assert_eq!(app.mode, Mode::Catalog);
    assert!(app.status.is_none());
    let err = LoadError::Io { path: "p".to_string(), source: "gone".to_string() };
    app.open_catalog(Err(err));
    assert_eq!(status(&app), Some("couldn't read catalog file 'p': gone"));
    assert_eq!(app.catalog_sections.len(), 3);
}

#[test]
fn grouped_list_groups_in_catalog_order() {
    let app = app_with(Mode::List, &["milk", "Bread", "bananas", "Apples", "Caviar", "BUTTER"]);
    let grouped = app.grouped_list();
    assert_eq!(
        grouped,
        vec![
            ("Produce", vec!["Apples", "bananas"]),
            ("Dairy", vec!["BUTTER", "milk"]),
            ("Bakery", vec!["Bread"]),
        ]
    );
}

#[test]
fn grouped_list_omits_empty_sections() {
    let app = app_with(Mode::List, &["Bread"]);
    assert_eq!(app.grouped_list(), vec![("Bakery", vec!["Bread"])]);
    let empty = app_with(Mode::List, &[]);
    assert!(empty.grouped_list().is_empty());
}

#[test]
fn catalog_items_flatten_in_order() {
    let app = app_with(Mode::List, &[]);
    assert_eq!(app.catalog_items(), vec!["Apples", "Avocado", "Bananas", "Milk", "Butter", "Bread"]);
}

#[test]
fn submit_without_open_section_asks_for_nothing() {
    let mut app = app_with(Mode::CatalogAddItem, &[]);
    app.input = "Eggs".to_string();
    assert!(matches!(app.submit_input(), Effect::Done));
    assert_eq!(status(&app), Some("No section open"));
    assert_eq!(app.mode, Mode::CatalogAddItem);
    assert_eq!(app.catalog_sections.len(), 3);
}

#[test]
fn next_suggestion_with_none_at_largest_index() {
    let mut app = App::new();
    app.selected_suggestion = usize::MAX;
    app.select_next_suggestion();
    assert_eq!(app.selected_suggestion, usize::MAX);
}

#[test]
fn keys_on_the_menu() {
    let mut app = App::new();
    assert!(matches!(app.handle_key(Key::Char('x')), Effect::Done));
    assert!(app.input.is_empty());
    app.handle_key(Key::Down);
    assert_eq!(app.menu_selected, 1);
    app.handle_key(Key::Up);
    app.handle_key(Key::Up);
    assert_eq!(app.menu_selected, 2);
    assert!(matches!(app.handle_key(Key::Enter), Effect::Done));
    assert!(app.should_quit);
    let mut app = App::new();
    assert!(matches!(app.handle_key(Key::Enter), Effect::OpenList));
    app.handle_key(Key::Esc);
    assert!(app.should_quit);
}

#[test]
fn keys_edit_and_submit_the_line() {
    let mut app = app_with(Mode::List, &[]);
    app.handle_key(Key::Char('/'));
    app.handle_key(Key::Char('r'));
    assert_eq!(app.input, "/r");
    assert_eq!(app.suggestions, vec!["/remove"]);
    app.handle_key(Key::Backspace);
    assert_eq!(app.input, "/");
    assert_eq!(app.suggestions, vec!["/add", "/remove", "/clear"]);
    app.handle_key(Key::Down);
    app.handle_key(Key::Down);
    app.handle_key(Key::Up);
    assert_eq!(app.selected_suggestion, 1);
    app.handle_key(Key::Tab);
    assert_eq!(app.input, "/remove");
    assert!(matches!(app.handle_key(Key::Enter), Effect::Done));
    assert_eq!(app.mode, Mode::RemoveItem);
    app.handle_key(Key::Backspace);
    assert!(app.input.is_empty());
    app.handle_key(Key::Other);
    app.handle_key(Key::Esc);
    assert_eq!(app.mode, Mode::List);
    assert!(!app.should_quit);
}

#[test]
fn error_statuses() {
    assert!(status_is_error("Unknown item 'x' — not in the catalog"));
    assert!(status_is_error("unknown command: /x"));
    assert!(status_is_error("couldn't read catalog file 'p': gone"));
    assert!(status_is_error("No such item 'x' on the list"));
    assert!(!status_is_error("No such section 'x'"));
    assert!(!status_is_error("Added Milk"));
}
