use operation_ids::opid::{base_token, compose_operation_id};

#[test]
fn base_token_of_plain_paths() {
    assert_eq!(base_token("/foo/bar"), "foo_bar");
    assert_eq!(base_token("/some.json"), "some_json");
    assert_eq!(base_token("foo"), "foo");
    assert_eq!(base_token("/Foo/BAR/bAz9"), "foo_bar_baz9");
}

#[test]
fn base_token_strips_underscores_at_both_ends_only() {
    assert_eq!(base_token("___a___b___"), "a___b");
    assert_eq!(base_token("/a/{}/b/{}"), "a____b");
    assert_eq!(base_token("_"), "");
    assert_eq!(base_token("/{}/"), "");
    assert_eq!(base_token(""), "");
}

#[test]
fn base_token_gets_an_n_before_a_digit() {
    assert_eq!(base_token("/0"), "n0");
    assert_eq!(base_token("/9lives"), "n9lives");
    assert_eq!(base_token("__42__"), "n42");
    assert_eq!(base_token("/a1"), "a1");
    assert_eq!(base_token("/\u{663}"), "");
}

#[test]
fn base_token_takes_letters_beyond_ascii_for_separators() {
    assert_eq!(base_token("/stra\u{df}e/\u{e9}t\u{e9}"), "stra_e__t");
    assert_eq!(base_token("/\u{c9}COLE"), "cole");
}

#[test]
fn composed_id_has_the_attempt_between_base_and_method() {
    let none: Vec<String> = vec![];
    assert_eq!(compose_operation_id("foo_bar", 0, "get", &none), "foo_bar_get");
    assert_eq!(compose_operation_id("foo_bar", 1, "get", &none), "foo_bar1_get");
    assert_eq!(compose_operation_id("foo_bar", 9, "get", &none), "foo_bar9_get");
    assert_eq!(compose_operation_id("foo_bar", 10, "get", &none), "foo_bar10_get");
    assert_eq!(
        compose_operation_id("foo_bar", 1234567890, "get", &none),
        "foo_bar1234567890_get"
    );
    assert_eq!(
        compose_operation_id("x", 18446744073709551615, "get", &none),
        "x18446744073709551615_get"
    );
    assert_eq!(compose_operation_id("", 0, "", &none), "_");
    assert_eq!(compose_operation_id("", 100, "", &none), "100_");
}

#[test]
fn composed_id_ends_with_the_names() {
    let names = vec![String::from("id"), String::from(""), String::from("name")];
    assert_eq!(
        compose_operation_id("pets", 0, "get", &names),
        "pets_get_by_id_by__by_name"
    );
    assert_eq!(
        compose_operation_id("pets", 2, "get", &names[..1].to_vec()),
        "pets2_get_by_id"
    );
}

#[test]
fn composed_id_takes_method_and_names_as_they_are() {
    let names = vec![String::from("ID")];
    assert_eq!(
        compose_operation_id("Pets", 0, "GET", &names),
        "Pets_GET_by_ID"
    );
}
