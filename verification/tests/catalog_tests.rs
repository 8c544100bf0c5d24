use grocery_list::catalog::{Catalog, LoadError, Section};
use grocery_list::list::GroceryList;

fn section(name: &str, items: &[&str]) -> Section {
    Section {
        name: name.to_string(),
        items: items.iter().map(|s| s.to_string()).collect(),
    }
}

#[test]
fn validate_accepts_valid_catalog() {
    let catalog = Catalog {
        sections: vec![section("Produce", &["Apples", "Bananas"]), section("Dairy", &["Milk"])],
    };
    assert!(catalog.validate().is_empty());
}

#[test]
fn validate_reports_every_problem_in_order() {
    let catalog = Catalog {
        sections: vec![
            section("  ", &["Bread"]),
            section("Dairy", &["Milk", " ", "Milk"]),
            section("Dairy", &[]),
        ],
    };
    assert_eq!(
        catalog.validate(),
        vec![
            "a section has an empty name".to_string(),
            "section 'Dairy' has an empty item name".to_string(),
            "duplicate item 'Milk' in section 'Dairy'".to_string(),
            "duplicate section: Dairy".to_string(),
            "section 'Dairy' has no items".to_string(),
        ]
    );
}

#[test]
fn validate_duplicates_are_case_sensitive() {
    let catalog = Catalog {
        sections: vec![section("Dairy", &["milk", "Milk"]), section("dairy", &["Eggs"])],
    };
    assert!(catalog.validate().is_empty());
}

#[test]
fn validate_blank_item_is_not_counted_as_duplicate() {
    let catalog = Catalog { sections: vec![section("Dairy", &["", ""])] };
    assert_eq!(
        catalog.validate(),
        vec![
            "section 'Dairy' has an empty item name".to_string(),
            "section 'Dairy' has an empty item name".to_string(),
        ]
    );
}

#[test]
fn validate_unicode_whitespace_name_is_blank() {
    let catalog = Catalog { sections: vec![section("\u{3000}\t", &["Tofu"])] };
    assert_eq!(catalog.validate(), vec!["a section has an empty name".to_string()]);
}

#[test]
fn sort_items_is_case_insensitive_and_stable() {
    let mut catalog = Catalog {
        sections: vec![
            section("Produce", &["banana", "Apple", "apple", "Cherry", "APPLE"]),
            section("Dairy", &["Milk", "butter"]),
        ],
    };
    catalog.sort_items();
    assert_eq!(catalog.sections[0].name, "Produce");
    assert_eq!(catalog.sections[0].items, vec!["Apple", "apple", "APPLE", "banana", "Cherry"]);
    assert_eq!(catalog.sections[1].items, vec!["butter", "Milk"]);
}

#[test]
fn sort_items_orders_by_unicode_lowercase() {
    let mut catalog = Catalog { sections: vec![section("S", &["Éclair", "zucchini", "éa"])] };
    catalog.sort_items();
    // lower-case forms: "éclair", "zucchini", "éa"; 'z' < 'é'
    assert_eq!(catalog.sections[0].items, vec!["zucchini", "éa", "Éclair"]);
}

#[test]
fn sort_items_twice_changes_nothing() {
    let mut catalog = Catalog { sections: vec![section("S", &["b", "A", "a", "C"])] };
    catalog.sort_items();
    let once = catalog.sections[0].items.clone();
    catalog.sort_items();
    assert_eq!(catalog.sections[0].items, once);
}

#[test]
fn catalog_text_lists_sections_and_items() {
    let catalog = Catalog {
        sections: vec![section("Produce", &["Apples", "Kale"]), section("Dairy", &[])],
    };
    assert_eq!(catalog.to_text(), "Produce\n  - Apples\n  - Kale\nDairy\n");
}

#[test]
fn empty_catalog_text_is_empty() {
    let catalog = Catalog { sections: vec![] };
    assert_eq!(catalog.to_text(), "");
}

#[test]
fn load_error_texts() {
    let io = LoadError::Io { path: "data/catalog.yml".to_string(), source: "No such file".to_string() };
    assert_eq!(io.to_text(), "couldn't read catalog file 'data/catalog.yml': No such file");
    let parse = LoadError::Parse("bad indent".to_string());
    assert_eq!(parse.to_text(), "couldn't parse catalog YAML: bad indent");
}

#[test]
fn grocery_list_add_appends() {
    let mut list = GroceryList::default();
    assert!(list.items.is_empty());
    list.add("Milk".to_string());
    list.add("Eggs".to_string());
    list.add("Milk".to_string());
    assert_eq!(list.items, vec!["Milk", "Eggs", "Milk"]);
}
