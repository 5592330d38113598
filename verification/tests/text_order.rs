use hypha::text::{file_name_of, join, str_eq, str_lt};

#[test]
fn order_is_that_of_strings() {
    let words = ["", "a", "ab", "b", "B", "é", "ä", "zz", "z"];
    for a in words {
        for b in words {
            assert_eq!(str_lt(a, b), a < b, "{a:?} < {b:?}");
            assert_eq!(str_eq(a, b), a == b);
        }
    }
}

#[test]
fn join_with_separator() {
    let items: Vec<String> = vec!["a".into(), "b".into(), "c".into()];
    assert_eq!(join(&items, ", "), "a, b, c");
    assert_eq!(join(&vec!["only".to_string()], ", "), "only");
    assert_eq!(join(&vec![], ", "), "");
}

#[test]
fn file_names() {
    assert_eq!(file_name_of("/usr/lib/systemd/system/tlp.service"), "tlp.service");
    assert_eq!(file_name_of("tlp.service"), "tlp.service");
    assert_eq!(file_name_of("dir/"), "");
    assert_eq!(file_name_of("/"), "");
    assert_eq!(file_name_of("a//b"), "b");
}
