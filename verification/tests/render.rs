use person_codec::render::{decimal_text, format_debug, format_display, join_texts};
use person_codec::{new_person, Person};

fn family() -> Person {
    let mut bob = new_person("Bob".to_string(), 40);
    bob.add_child(new_person("Gil".to_string(), 7));
    let mut ada = new_person("Ada".to_string(), 70);
    ada.add_child(bob);
    ada.add_child(new_person("Cy".to_string(), 38));
    ada
}

#[test]
fn decimal_text_writes_numerals() {
    assert_eq!(decimal_text(0), "0");
    assert_eq!(decimal_text(7), "7");
    assert_eq!(decimal_text(9), "9");
    assert_eq!(decimal_text(10), "10");
    assert_eq!(decimal_text(99), "99");
    assert_eq!(decimal_text(100), "100");
    assert_eq!(decimal_text(1234567890), "1234567890");
    assert_eq!(decimal_text(4294967295), "4294967295");
}

#[test]
fn decimal_text_agrees_with_the_standard_formatting() {
    let mut number: u32 = 1;
    for _ in 0..200 {
        assert_eq!(decimal_text(number), format!("{}", number));
        number = number.wrapping_mul(2654435761).wrapping_add(12345);
    }
}

#[test]
fn join_texts_puts_the_separator_between() {
    let none: Vec<String> = vec![];
    assert_eq!(join_texts(&none, ", "), "");
    assert_eq!(join_texts(&vec!["a".to_string()], ", "), "a");
    assert_eq!(join_texts(&vec!["a".to_string(), "b".to_string()], ", "), "a, b");
    assert_eq!(
        join_texts(&vec!["a".to_string(), String::new(), "c".to_string()], "-"),
        "a--c"
    );
    assert_eq!(join_texts(&vec!["a".to_string(), "b".to_string()], ""), "ab");
}

#[test]
fn format_debug_lays_out_the_fields() {
    assert_eq!(
        format_debug("\"Ada\"", 36, &vec![]),
        "Person { name: \"Ada\", age: 36, children: [] }"
    );
    assert_eq!(
        format_debug("N", 0, &vec!["x".to_string(), "y".to_string()]),
        "Person { name: N, age: 0, children: [x, y] }"
    );
}

#[test]
fn format_display_lays_out_the_fields() {
    assert_eq!(format_display("Ada", 36, &vec![]), "Person(name=Ada, age=36, children=[])");
    assert_eq!(
        format_display("N", 0, &vec!["x".to_string(), "y".to_string()]),
        "Person(name=N, age=0, children=[x, y])"
    );
}

#[test]
fn repr_of_a_leaf() {
    assert_eq!(
        new_person("John".to_string(), 30).__repr__(),
        "Person { name: \"John\", age: 30, children: [] }"
    );
}

#[test]
fn repr_of_a_tree() {
    assert_eq!(
        family().__repr__(),
        "Person { name: \"Ada\", age: 70, children: [Person { name: \"Bob\", age: 40, \
         children: [Person { name: \"Gil\", age: 7, children: [] }] }, Person { name: \"Cy\", \
         age: 38, children: [] }] }"
    );
}

#[test]
fn repr_quotes_and_escapes_the_name() {
    assert_eq!(
        new_person("a\"b\\c\nd\te'f".to_string(), 1).__repr__(),
        "Person { name: \"a\\\"b\\\\c\\nd\\te'f\", age: 1, children: [] }"
    );
    assert_eq!(
        new_person(String::new(), 1).__repr__(),
        "Person { name: \"\", age: 1, children: [] }"
    );
}

#[test]
fn repr_agrees_with_the_debug_formatting() {
    let mut odd = new_person("Zoë \u{301}\u{0}\u{7f} \"quoted\" \\ \r\n".to_string(), u32::MAX);
    odd.add_child(family());
    odd.add_child(new_person("'".to_string(), 0));
    for person in [family(), odd, new_person(String::new(), 0)] {
        assert_eq!(person.__repr__(), format!("{:?}", person));
    }
}

#[test]
fn str_of_a_leaf() {
    assert_eq!(new_person("John".to_string(), 30).__str__(), "Person(name=John, age=30, children=[])");
}

#[test]
fn str_of_a_tree() {
    assert_eq!(
        family().__str__(),
        "Person(name=Ada, age=70, children=[Person(name=Bob, age=40, children=[Person(name=Gil, \
         age=7, children=[])]), Person(name=Cy, age=38, children=[])])"
    );
}

#[test]
fn str_writes_the_name_as_it_is() {
    assert_eq!(
        new_person("a \"b\"\n".to_string(), 4294967295).__str__(),
        "Person(name=a \"b\"\n, age=4294967295, children=[])"
    );
}

#[test]
fn texts_of_a_deep_tree() {
    let mut person = new_person("x".to_string(), 1);
    let mut debug = "Person { name: \"x\", age: 1, children: [] }".to_string();
    let mut display = "Person(name=x, age=1, children=[])".to_string();
    for _ in 0..1000 {
        let mut parent = new_person("x".to_string(), 1);
        parent.add_child(person);
        person = parent;
        debug = format!("Person {{ name: \"x\", age: 1, children: [{}] }}", debug);
        display = format!("Person(name=x, age=1, children=[{}])", display);
    }
    assert!(person.__repr__() == debug);
    assert!(person.__str__() == display);
}
