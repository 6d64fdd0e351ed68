use operation_ids::{gen_operation_ids, Endpoint, Refusal, RegistryError};

fn endpoint(path: &str, method: &str, operation_id: Option<&str>) -> Endpoint {
    Endpoint {
        path: String::from(path),
        method: String::from(method),
        operation_id: operation_id.map(String::from),
    }
}

#[test]
fn description_without_endpoints_gets_no_ids() {
    assert_eq!(gen_operation_ids(&vec![]), Ok(vec![]));
}

#[test]
fn given_ids_are_kept_and_missing_ids_are_made() {
    let endpoints = vec![
        endpoint("/pets", "get", Some("listPets")),
        endpoint("/pets", "post", None),
        endpoint("/pets/{petId}", "get", None),
        endpoint("/pets/{petId}", "delete", Some("removePet")),
    ];
    assert_eq!(
        gen_operation_ids(&endpoints),
        Ok(vec![
            String::from("listPets"),
            String::from("pets_post"),
            String::from("pets_get_by_petid"),
            String::from("removePet"),
        ])
    );
}

#[test]
fn made_ids_avoid_the_ids_given_before() {
    let endpoints = vec![
        endpoint("/a", "get", Some("foo_get")),
        endpoint("/foo", "get", None),
        endpoint("/foo/", "get", None),
    ];
    assert_eq!(
        gen_operation_ids(&endpoints),
        Ok(vec![
            String::from("foo_get"),
            String::from("foo1_get"),
            String::from("foo2_get"),
        ])
    );
}

#[test]
fn given_id_that_was_made_before_is_refused() {
    let endpoints = vec![
        endpoint("/foo", "get", None),
        endpoint("/a", "get", Some("foo_get")),
    ];
    assert_eq!(
        gen_operation_ids(&endpoints),
        Err(Refusal {
            index: 1,
            reason: RegistryError::DuplicateId
        })
    );
}

#[test]
fn first_refused_endpoint_is_reported() {
    let endpoints = vec![
        endpoint("/a", "get", Some("a")),
        endpoint("/b", "get", None),
        endpoint("/b", "get", None),
        endpoint("/c", "get", Some("a")),
    ];
    assert_eq!(
        gen_operation_ids(&endpoints),
        Err(Refusal {
            index: 2,
            reason: RegistryError::DuplicateEndpoint
        })
    );

    let endpoints = vec![
        endpoint("/a", "get", Some("a")),
        endpoint("/b", "", None),
    ];
    assert_eq!(
        gen_operation_ids(&endpoints),
        Err(Refusal {
            index: 1,
            reason: RegistryError::InvalidKey
        })
    );

    let endpoints = vec![endpoint("", "get", Some("a"))];
    assert_eq!(
        gen_operation_ids(&endpoints),
        Err(Refusal {
            index: 0,
            reason: RegistryError::InvalidKey
        })
    );
}

#[test]
fn assigned_ids_are_all_different() {
    let endpoints = vec![
        endpoint("/foo/bar", "get", None),
        endpoint("/foo_bar", "get", None),
        endpoint("/foo-bar", "GET", None),
        endpoint("/foo.bar", "get", Some("foo_bar4_get")),
        endpoint("/foo+bar", "get", None),
        endpoint("/foo bar", "get", None),
    ];
    let ids = gen_operation_ids(&endpoints).unwrap();
    assert_eq!(
        ids,
        vec![
            "foo_bar_get",
            "foo_bar1_get",
            "foo_bar2_get",
            "foo_bar4_get",
            "foo_bar3_get",
            "foo_bar5_get",
        ]
    );
}
