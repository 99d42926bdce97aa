use person_codec::{Document, Value};

#[test]
fn new_document_is_empty() {
    let document = Document::new();
    assert_eq!(document.len(), 0);
    assert!(document.get_item("name").is_none());
    assert!(document.entry(0).is_none());
}

#[test]
fn set_item_appends_new_keys_in_order() {
    let mut document = Document::new();
    document.set_item("b", Value::Integer(1));
    document.set_item("a", Value::Text("x".to_string()));
    document.set_item("c", Value::List(vec![]));
    assert_eq!(document.len(), 3);
    let (key, value) = document.entry(0).unwrap();
    assert_eq!(key, "b");
    assert_eq!(value, &Value::Integer(1));
    let (key, value) = document.entry(1).unwrap();
    assert_eq!(key, "a");
    assert_eq!(value, &Value::Text("x".to_string()));
    let (key, value) = document.entry(2).unwrap();
    assert_eq!(key, "c");
    assert_eq!(value, &Value::List(vec![]));
    assert!(document.entry(3).is_none());
}

#[test]
fn set_item_replaces_in_place() {
    let mut document = Document::new();
    document.set_item("a", Value::Integer(1));
    document.set_item("b", Value::Integer(2));
    document.set_item("a", Value::Integer(3));
    assert_eq!(document.len(), 2);
    let (key, value) = document.entry(0).unwrap();
    assert_eq!(key, "a");
    assert_eq!(value, &Value::Integer(3));
    let (key, value) = document.entry(1).unwrap();
    assert_eq!(key, "b");
    assert_eq!(value, &Value::Integer(2));
}

#[test]
fn get_item_finds_what_was_set() {
    let mut inner = Document::new();
    inner.set_item("k", Value::Other("None".to_string()));
    let mut document = Document::new();
    document.set_item("text", Value::Text("hello".to_string()));
    document.set_item("number", Value::Integer(-7));
    document.set_item("nested", Value::Document(inner));
    assert_eq!(document.get_item("text"), Some(&Value::Text("hello".to_string())));
    assert_eq!(document.get_item("number"), Some(&Value::Integer(-7)));
    match document.get_item("nested") {
        Some(Value::Document(found)) => {
            assert_eq!(found.get_item("k"), Some(&Value::Other("None".to_string())));
        }
        _ => panic!("the nested document is missing"),
    }
    assert_eq!(document.get_item("tex"), None);
    assert_eq!(document.get_item("texts"), None);
    assert_eq!(document.get_item(""), None);
}

#[test]
fn keys_are_compared_exactly() {
    let mut document = Document::new();
    document.set_item("Name", Value::Integer(1));
    document.set_item("name", Value::Integer(2));
    document.set_item("", Value::Integer(3));
    assert_eq!(document.len(), 3);
    assert_eq!(document.get_item("Name"), Some(&Value::Integer(1)));
    assert_eq!(document.get_item("name"), Some(&Value::Integer(2)));
    assert_eq!(document.get_item(""), Some(&Value::Integer(3)));
}

#[test]
fn documents_compare_by_entries_in_order() {
    let mut a = Document::new();
    a.set_item("x", Value::Integer(1));
    a.set_item("y", Value::Integer(2));
    let mut b = Document::new();
    b.set_item("x", Value::Integer(1));
    b.set_item("y", Value::Integer(2));
    let mut c = Document::new();
    c.set_item("y", Value::Integer(2));
    c.set_item("x", Value::Integer(1));
    assert_eq!(a, b);
    assert_ne!(a, c);
}
