use operation_ids::extract_params;

#[test]
fn test_extract_params() {
    assert_eq!(extract_params("/foo/bar"), None);
    assert_eq!(
        extract_params("/foo/{bar}/baz"),
        Some((vec!["bar"], String::from("/foo/{}/baz")))
    );
    assert_eq!(
        extract_params("/foo/{bar}/baz/{quux}"),
        Some((vec!["bar", "quux"], String::from("/foo/{}/baz/{}")))
    );
    assert_eq!(
        extract_params("/{foo}/{bar}"),
        Some((vec!["foo", "bar"], String::from("/{}/{}")))
    );
}

#[test]
fn path_without_braces_names_no_parameter() {
    assert_eq!(extract_params(""), None);
    assert_eq!(extract_params("/"), None);
    assert_eq!(extract_params("/pets"), None);
    assert_eq!(extract_params("/pets/by-name/all.json"), None);
}

#[test]
fn names_come_in_order_and_texts_stay() {
    assert_eq!(
        extract_params("a{x}b{y}c{z}d"),
        Some((vec!["x", "y", "z"], String::from("a{}b{}c{}d")))
    );
    assert_eq!(
        extract_params("{only}"),
        Some((vec!["only"], String::from("{}")))
    );
    assert_eq!(
        extract_params("/v1/{id}/tail/without/parameters"),
        Some((vec!["id"], String::from("/v1/{}/tail/without/parameters")))
    );
}

#[test]
fn same_name_twice_is_kept_twice() {
    assert_eq!(
        extract_params("/{id}/{id}"),
        Some((vec!["id", "id"], String::from("/{}/{}")))
    );
}

#[test]
fn empty_name_is_not_captured() {
    assert_eq!(extract_params("/foo/{}"), None);
    assert_eq!(extract_params("{}{}"), None);
    assert_eq!(
        extract_params("/foo/{}/bar/{id}"),
        Some((vec!["id"], String::from("/foo/{}/bar/{}")))
    );
}

#[test]
fn unterminated_brace_opens_no_region() {
    assert_eq!(extract_params("/foo/{bar"), None);
    assert_eq!(extract_params("{"), None);
    assert_eq!(
        extract_params("/a/{b}/c/{d"),
        Some((vec!["b"], String::from("/a/{}/c/{}/c/{d")))
    );
}

#[test]
fn closing_brace_outside_a_region_is_text() {
    assert_eq!(extract_params("/a}b"), None);
    assert_eq!(
        extract_params("/a}b/{c}"),
        Some((vec!["c"], String::from("/a}b/{}")))
    );
    assert_eq!(
        extract_params("/{a}}"),
        Some((vec!["a"], String::from("/{}}")))
    );
}

#[test]
fn opening_brace_inside_a_region_is_part_of_the_name() {
    assert_eq!(
        extract_params("/{a{b}/c"),
        Some((vec!["a{b"], String::from("/{}/c")))
    );
}

#[test]
fn characters_beyond_ascii_are_kept() {
    assert_eq!(
        extract_params("/caf\u{e9}/{na\u{ef}ve}/\u{1f600}"),
        Some((
            vec!["na\u{ef}ve"],
            String::from("/caf\u{e9}/{}/\u{1f600}")
        ))
    );
}
