use dscheck::text::{
    all_contained, all_distinct, contains_text, decimal_text, join_texts, position_of,
    same_members, split_text, text_of,
};

fn texts(items: &[&str]) -> Vec<String> {
    items.iter().map(|s| s.to_string()).collect()
}

#[test]
fn splitting_follows_the_separator() {
    assert_eq!(split_text("milk,eggs,ham", ','), texts(&["milk", "eggs", "ham"]));
    assert_eq!(split_text("milk", ','), texts(&["milk"]));
    assert_eq!(split_text("", ','), texts(&[""]));
    assert_eq!(split_text(",a,", ','), texts(&["", "a", ""]));
}

#[test]
fn joining_puts_the_separator_between() {
    assert_eq!(join_texts(&texts(&["milk", "eggs", "ham"]), ','), "milk,eggs,ham");
    assert_eq!(join_texts(&texts(&["milk"]), ','), "milk");
    assert_eq!(join_texts(&texts(&[]), ','), "");
    assert_eq!(join_texts(&texts(&["", ""]), ','), ",");
}

#[test]
fn joining_the_parts_of_a_text_gives_it_back() {
    for s in ["", "a", "a,b", ",,", "beer,snacks,milk,eggs"] {
        assert_eq!(join_texts(&split_text(s, ','), ','), s);
    }
}

#[test]
fn decimal_numerals() {
    assert_eq!(decimal_text(0), "0");
    assert_eq!(decimal_text(7), "7");
    assert_eq!(decimal_text(10), "10");
    assert_eq!(decimal_text(2021), "2021");
    assert_eq!(decimal_text(u32::MAX), "4294967295");
}

#[test]
fn membership_and_position() {
    let list = texts(&["a", "b", "a", "c"]);
    assert!(contains_text(&list, &text_of("b")));
    assert!(!contains_text(&list, &text_of("z")));
    assert_eq!(position_of(&list, &text_of("a")), Some(0));
    assert_eq!(position_of(&list, &text_of("c")), Some(3));
    assert_eq!(position_of(&list, &text_of("z")), None);
}

#[test]
fn lists_compare_as_sets() {
    assert!(same_members(&texts(&["a", "b"]), &texts(&["b", "a", "a"])));
    assert!(!same_members(&texts(&["a", "b"]), &texts(&["a"])));
    assert!(same_members(&texts(&[]), &texts(&[])));
    assert!(all_contained(&texts(&["a"]), &texts(&["b", "a"])));
    assert!(!all_contained(&texts(&["a", "c"]), &texts(&["b", "a"])));
    assert!(all_distinct(&texts(&["a", "b", "c"])));
    assert!(!all_distinct(&texts(&["a", "b", "a"])));
}
