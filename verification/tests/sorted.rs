use artifact_executor::sorted::contains_key;
use artifact_executor::sorted::find_key;
use artifact_executor::sorted::insert_by_key;
use artifact_executor::sorted::is_ordered;
use artifact_executor::sorted::is_strictly_ordered;
use artifact_executor::sorted::put_by_key;
use artifact_executor::sorted::remove_by_key;
use artifact_executor::sorted::sort_by_key;
use artifact_executor::sorted::Keyed;
use artifact_executor::text::bytes_equal;
use artifact_executor::text::bytes_less;
use artifact_executor::text::lines_of;
use artifact_executor::text::str_equal;
use artifact_executor::text::str_less;

fn texts(items: &[&str]) -> Vec<String> {
    items.iter().map(|item| String::from(*item)).collect()
}

#[test]
fn text_is_ordered_as_its_bytes_are() {
    assert!(str_less("a", "b"));
    assert!(str_less("a", "ab"));
    assert!(str_less("", "a"));
    assert!(!str_less("a", "a"));
    assert!(!str_less("b", "a"));
    assert!(str_less("a.b", "a/b"));
    assert!(str_less("Z", "a"));
    assert!(str_less("z", "é"));
    assert!(str_less("é", "€"));
    assert!(str_equal("é", "é"));
    assert!(!str_equal("e", "é"));
    assert!(bytes_less(&[1, 2], &[1, 3]));
    assert!(bytes_less(&[1, 2], &[1, 2, 0]));
    assert!(!bytes_less(&[2], &[1, 9]));
    assert!(bytes_equal(&[], &[]));
    assert!(!bytes_equal(&[1], &[1, 1]));
    for (a, b) in [("a", "b"), ("ab", "a"), ("", ""), ("é", "z"), ("a/b", "a.b")] {
        assert_eq!(a < b, str_less(a, b));
        assert_eq!(a == b, str_equal(a, b));
    }
}

#[test]
fn sorting_is_stable() {
    let pairs = vec![
        (String::from("b"), String::from("1")),
        (String::from("a"), String::from("2")),
        (String::from("b"), String::from("0")),
        (String::from("a"), String::from("1")),
    ];
    assert!(!is_ordered(&pairs));
    let sorted = sort_by_key(pairs);
    assert_eq!(
        vec![
            (String::from("a"), String::from("2")),
            (String::from("a"), String::from("1")),
            (String::from("b"), String::from("1")),
            (String::from("b"), String::from("0")),
        ],
        sorted
    );
    assert!(is_ordered(&sorted));
    assert!(!is_strictly_ordered(&sorted));
    let mut more = sorted;
    insert_by_key(&mut more, (String::from("a"), String::from("9")));
    assert_eq!((String::from("a"), String::from("9")), more[2]);
    assert_eq!(Vec::<String>::new(), sort_by_key(Vec::<String>::new()));
}

#[test]
fn a_set_in_order_has_each_key_once() {
    let mut set: Vec<String> = vec![];
    assert!(put_by_key(&mut set, String::from("m")));
    assert!(put_by_key(&mut set, String::from("a")));
    assert!(put_by_key(&mut set, String::from("z")));
    assert!(!put_by_key(&mut set, String::from("m")));
    assert_eq!(texts(&["a", "m", "z"]), set);
    assert!(is_strictly_ordered(&set));
    assert_eq!(Some(1), find_key(&set, &String::from("m")));
    assert_eq!(None, find_key(&set, &String::from("n")));
    assert!(contains_key(&set, &String::from("z")));
    assert!(remove_by_key(&mut set, &String::from("a")));
    assert!(!remove_by_key(&mut set, &String::from("a")));
    assert_eq!(texts(&["m", "z"]), set);
    let mut entries = vec![(String::from("k"), String::from("old"))];
    assert!(!put_by_key(&mut entries, (String::from("k"), String::from("new"))));
    assert_eq!(vec![(String::from("k"), String::from("new"))], entries);
}

#[test]
fn sequences_are_ordered_item_by_item() {
    let shorter = texts(&["a", "b"]);
    let longer = texts(&["a", "b", "a"]);
    let other = texts(&["a", "c"]);
    assert!(shorter.key_less(&longer));
    assert!(longer.key_less(&other));
    assert!(shorter.key_less(&other));
    assert!(!other.key_less(&shorter));
    assert!(!shorter.key_less(&shorter));
    assert!(shorter.key_equal(&texts(&["a", "b"])));
    assert!(!shorter.key_equal(&longer));
    assert!(Vec::<String>::new().key_less(&shorter));
}

#[test]
fn lines_end_at_a_line_feed() {
    assert_eq!(Some(texts(&["a", "", "b"])), lines_of(&b"a\n\nb".to_vec()));
    assert_eq!(Some(texts(&["a", "b"])), lines_of(&b"a\r\nb\n".to_vec()));
    assert_eq!(Some(texts(&["a\r"])), lines_of(&b"a\r".to_vec()));
    assert_eq!(Some(texts(&[])), lines_of(&b"".to_vec()));
    assert_eq!(Some(texts(&[""])), lines_of(&b"\n".to_vec()));
    assert_eq!(Some(texts(&["é€"])), lines_of(&"é€\n".as_bytes().to_vec()));
    assert_eq!(None, lines_of(&vec![0x61, 0x0A, 0x80, 0x0A]));
    assert_eq!(None, lines_of(&vec![0xC3]));
    for text in ["a\nb\n", "\n\nx", "a\r\n\r\nb", "no end"] {
        let expected: Vec<String> = text.lines().map(String::from).collect();
        assert_eq!(Some(expected), lines_of(&text.as_bytes().to_vec()));
    }
}

#[test]
fn two_lists_are_set_side_by_side() {
    let a = vec!["a".to_string(), "c".to_string(), "b".to_string(), "z".to_string()];
    let b = vec!["a".to_string(), "b".to_string(), "c".to_string(), "z".to_string()];
    let text = artifact_executor::context::diff_items_to_string("input vs. sorted:\n", &a, &b);
    assert_eq!(
        text,
        "input vs. sorted:\n  \"a\"\n- \"c\"\n- \"b\"\n+ \"b\"\n+ \"c\"\n  \"z\"\n"
    );
}

#[test]
fn equal_lists_have_nothing_taken_or_put() {
    let a = vec!["x".to_string(), "y".to_string()];
    let text = artifact_executor::context::diff_items_to_string("", &a, &a);
    assert_eq!(text, "  \"x\"\n  \"y\"\n");
}

#[test]
fn pushed_items_are_written_with_their_quotes() {
    let items = vec!["a\"b".to_string()];
    let text = artifact_executor::context::push_diff_items("t:".to_string(), "+ ", &items);
    assert_eq!(text, "t:+ \"a\\\"b\"\n");
}

#[test]
fn an_explanation_sets_the_texts_beside_their_order() {
    let items = vec!["b".to_string(), "a".to_string(), "b".to_string()];
    let text = artifact_executor::context::explain_order(&items);
    assert_eq!(
        text,
        "input vs. sorted\n- \"b\"\n- \"a\"\n+ \"a\"\n+ \"b\"\n  \"b\"\n\
         sorted vs. sorted+deduped\n  \"a\"\n  \"b\"\n- \"b\"\n"
    );
}
