use cfdpip::utils::{get_list_string, random_string_from_indices};

#[test]
fn get_list_string_new_line_with_comments() {
    let mut text = String::new();
    text.push_str("# this is a comment\n");
    text.push_str("123456\n");
    text.push_str("\n");
    text.push_str("   \n");
    text.push_str("\n");
    text.push_str("\t\n");
    text.push_str("654321\n");
    text.push_str("    888  \n");
    text.push_str("    999 # another comment \n");
    text.push_str("   \n");

    assert_eq!(
        get_list_string(&text),
        vec![
            "123456".to_string(),
            "654321".to_string(),
            "888".to_string(),
            "999".to_string(),
        ]
    );
}

#[test]
fn get_list_string_basic() {
    let mut text = String::new();
    text.push_str("");
    assert_eq!(get_list_string(&text), Vec::<String>::new());
}

#[test]
fn get_list_string_comma_seperated() {
    let mut text = String::new();
    text.push_str("123456,987654, 456789");
    assert_eq!(get_list_string(&text), vec!["123456", "987654", "456789"]);
}

#[test]
fn get_list_string_keeps_empty_entries_between_commas() {
    assert_eq!(get_list_string("a,,b"), vec!["a", "", "b"]);
    assert_eq!(get_list_string("a, ,b,"), vec!["a", "", "b", ""]);
}

#[test]
fn get_list_string_handles_crlf_and_mixed_lines() {
    assert_eq!(get_list_string("a, b\r\nc\r\n#x, y\r\n d # e, f"), vec!["a", "b", "c", "d"]);
}

#[test]
fn get_list_string_comment_only_lines() {
    assert_eq!(get_list_string("   # nothing here\n#,\n"), Vec::<String>::new());
}

#[test]
fn get_list_string_unicode_whitespace() {
    assert_eq!(get_list_string("\u{3000}x\u{a0},\u{2003}y\u{85}"), vec!["x", "y"]);
}

#[test]
fn list_values_are_clean() {
    for v in get_list_string(" a ,b#c\n\t d\t,e  \n,\n") {
        assert!(!v.contains('#') && !v.contains(',') && !v.contains('\n'));
        assert_eq!(v.trim(), v);
    }
}

#[test]
fn random_string_from_indices_maps_charset() {
    assert_eq!(random_string_from_indices(&vec![0, 5, 6, 15, 10]), "af094");
    assert_eq!(random_string_from_indices(&Vec::new()), "");
}

#[test]
fn list_joined_by_line_feed_concatenates() {
    for (a, b) in [("a,b", "c"), ("x # y", " z,w\n"), ("", "q"), ("r\r", ""), ("#only", "s")] {
        let mut expected = get_list_string(a);
        expected.extend(get_list_string(b));
        assert_eq!(get_list_string(&format!("{a}\n{b}")), expected, "{a:?} {b:?}");
    }
}

#[test]
fn list_rejoined_with_commas_reads_back() {
    for text in ["a, b\nc", ",\n x ,,y", "", "# c\n  \nz", "p,q #r\r\ns"] {
        let values = get_list_string(text);
        assert_eq!(get_list_string(&values.join(",")), values, "{text:?}");
    }
}

#[test]
fn list_trailing_comment_changes_nothing() {
    for (a, c) in [("a, b", "c, d"), ("", "x"), ("  z ", "#"), ("#", "q"), ("u\r", "v")] {
        assert_eq!(get_list_string(&format!("{a}#{c}")), get_list_string(a), "{a:?} {c:?}");
    }
}
