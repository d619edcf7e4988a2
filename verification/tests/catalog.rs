use document_parser::catalog::{CatalogError, CatalogStore};
use document_parser::record::Record;

fn record(title: Option<&str>, content: &str) -> Record {
    Record {
        id: match title {
            Some(t) => format!("id of {}", t),
            None => String::new(),
        },
        title: title.map(|t| t.to_string()),
        date: Some(1673481600),
        content: content.to_string(),
        link: "https://sig.unb.br/sigrh/downloadArquivo?idArquivo=1&key=k".to_string(),
    }
}

#[test]
fn a_new_catalog_is_empty() {
    let catalog = CatalogStore::new();
    assert_eq!(catalog.len(), 0);
    assert_eq!(catalog.save(), Vec::<Record>::new());
    assert!(catalog.get(0).is_none());
    assert!(!catalog.knows("RESOLUÇÃO 1"));
}

#[test]
fn loading_keeps_the_records_and_their_order() {
    let records = vec![
        record(Some("RESOLUÇÃO 2"), "b"),
        record(None, "x"),
        record(Some("RESOLUÇÃO 1"), "a"),
        record(None, "x"),
        record(Some(""), "empty title"),
    ];
    let catalog = CatalogStore::load(records.clone()).unwrap();
    assert_eq!(catalog.len(), 5);
    assert_eq!(catalog.save(), records);
    assert_eq!(catalog.get(0), Some(&records[0]));
    assert_eq!(catalog.get(4), Some(&records[4]));
    assert_eq!(catalog.get(5), None);
    assert!(catalog.knows("RESOLUÇÃO 1"));
    assert!(catalog.knows("RESOLUÇÃO 2"));
    assert!(catalog.knows(""));
    assert!(!catalog.knows("RESOLUÇÃO 3"));
    assert!(!catalog.knows("resolução 1"));
}

#[test]
fn loading_what_was_saved_gives_the_catalog_back() {
    let mut catalog = CatalogStore::new();
    assert!(catalog.accept(record(Some("um"), "1")));
    assert!(catalog.accept(record(None, "2")));
    assert!(catalog.accept(record(Some("três"), "3")));
    let saved = catalog.save();
    let again = CatalogStore::load(saved.clone()).unwrap();
    assert_eq!(again.save(), saved);
    assert_eq!(again.len(), catalog.len());
    let empty = CatalogStore::load(CatalogStore::new().save()).unwrap();
    assert_eq!(empty.len(), 0);
}

#[test]
fn a_list_with_a_title_twice_is_no_catalog() {
    let records = vec![
        record(Some("a"), "1"),
        record(Some("b"), "2"),
        record(None, "3"),
        record(Some("b"), "4"),
        record(Some("a"), "5"),
    ];
    assert_eq!(
        CatalogStore::load(records).err(),
        Some(CatalogError::RepeatedTitle { index: 3 })
    );
    let records = vec![record(Some(""), "1"), record(Some(""), "2")];
    assert_eq!(
        CatalogStore::load(records).err(),
        Some(CatalogError::RepeatedTitle { index: 1 })
    );
}

#[test]
fn records_without_a_title_may_be_many() {
    let records = vec![record(None, "1"), record(None, "1"), record(None, "2")];
    let catalog = CatalogStore::load(records).unwrap();
    assert_eq!(catalog.len(), 3);
}

#[test]
fn a_known_title_is_not_accepted_again() {
    let mut catalog = CatalogStore::new();
    assert!(catalog.accept(record(Some("RESOLUÇÃO 1"), "a")));
    assert!(!catalog.accept(record(Some("RESOLUÇÃO 1"), "b")));
    assert_eq!(catalog.len(), 1);
    assert_eq!(catalog.get(0).unwrap().content, "a");
    assert!(catalog.accept(record(Some("RESOLUÇÃO 2"), "c")));
    assert!(catalog.accept(record(None, "d")));
    assert!(catalog.accept(record(None, "d")));
    assert_eq!(catalog.len(), 4);
    assert_eq!(catalog.get(3).unwrap().content, "d");
}

#[test]
fn a_copy_of_a_record_is_the_record() {
    let one = record(Some("RESOLUÇÃO 1"), "a");
    assert_eq!(one.clone(), one);
    let none = record(None, "a");
    assert_eq!(none.clone(), none);
    assert!(one.has_title(&"RESOLUÇÃO 1".to_string()));
    assert!(!one.has_title(&"RESOLUÇÃO 2".to_string()));
    assert!(!none.has_title(&"".to_string()));
}
