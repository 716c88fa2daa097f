use user_service::{
    decode_user, encode_user, encode_users, get_param_value, parse_param, parse_query_params,
    user_from_columns, AppError, Endpoints, Method, Sex, User, UserTable,
};

fn user(id: &str, name: &str, age: i32, sex: Sex) -> User {
    User { id: id.to_string(), name: name.to_string(), age, sex }
}

// --- sex wire codes ---

#[test]
fn sex_codes_encode() {
    assert_eq!(Sex::Male.code(), "m");
    assert_eq!(Sex::Female.code(), "f");
}

#[test]
fn sex_codes_decode() {
    assert!(matches!(Sex::from_code("m"), Ok(Sex::Male)));
    assert!(matches!(Sex::from_code("f"), Ok(Sex::Female)));
}

#[test]
fn sex_code_round_trip_is_identity() {
    for code in ["m", "f"] {
        let sex = Sex::from_code(code).unwrap();
        assert_eq!(sex.code(), code);
    }
}

#[test]
fn sex_unknown_codes_fail() {
    for bad in ["", "x", "mm", "M", "F", " m"] {
        assert!(Sex::from_code(bad).is_err(), "code {:?} must not decode", bad);
    }
}

#[test]
fn row_conversion_checks_sex_code() {
    let u = user_from_columns("u1".to_string(), "Ann".to_string(), 30, "f").unwrap();
    assert_eq!(u, user("u1", "Ann", 30, Sex::Female));
    let bad = user_from_columns("u1".to_string(), "Ann".to_string(), 30, "z");
    assert!(bad.is_err());
}

// --- the wire codec ---

#[test]
fn encode_exact_wire_form() {
    let u = user("u1", "Ann", 30, Sex::Female);
    assert_eq!(encode_user(&u), "{\"id\":\"u1\",\"name\":\"Ann\",\"age\":30,\"sex\":\"f\"}");
}

#[test]
fn encode_negative_and_zero_age() {
    let a = user("a", "A", 0, Sex::Male);
    assert_eq!(encode_user(&a), "{\"id\":\"a\",\"name\":\"A\",\"age\":0,\"sex\":\"m\"}");
    let b = user("b", "B", -7, Sex::Male);
    assert_eq!(encode_user(&b), "{\"id\":\"b\",\"name\":\"B\",\"age\":-7,\"sex\":\"m\"}");
}

#[test]
fn encode_escapes_quotes_and_backslashes() {
    let u = user("a\"b", "c\\d", 1, Sex::Male);
    assert_eq!(
        encode_user(&u),
        "{\"id\":\"a\\\"b\",\"name\":\"c\\\\d\",\"age\":1,\"sex\":\"m\"}"
    );
}

#[test]
fn round_trip_all_field_shapes() {
    let cases = vec![
        user("u1", "Ann", 30, Sex::Female),
        user("u2", "Bob", 0, Sex::Male),
        user("", "", -2147483648, Sex::Male),
        user("q\"uote", "back\\slash", 2147483647, Sex::Female),
        user("x=y&z", "white space", 95, Sex::Male),
    ];
    for u in cases {
        let wire = encode_user(&u);
        let back = decode_user(&wire).expect("canonical wire form must decode");
        assert_eq!(back, u);
    }
}

#[test]
fn decode_exact_example() {
    let u = decode_user("{\"id\":\"u1\",\"name\":\"Ann\",\"age\":30,\"sex\":\"f\"}").unwrap();
    assert_eq!(u, user("u1", "Ann", 30, Sex::Female));
}

#[test]
fn decode_rejects_malformed_bodies() {
    let bad = [
        "",
        "not json",
        "{}",
        "{\"id\":\"u1\"}",
        "{\"id\":\"u1\",\"name\":\"Ann\",\"age\":30}",
        "{\"id\":\"u1\",\"name\":\"Ann\",\"age\":30,\"sex\":\"f\"} ",
        "{\"id\":\"u1\",\"name\":\"Ann\",\"age\":30,\"sex\":\"f\"}}",
        "{\"id\":\"u1\",\"name\":\"Ann\",\"age\":030,\"sex\":\"f\"}",
        "{\"id\":\"u1\",\"name\":\"Ann\",\"age\":-0,\"sex\":\"f\"}",
        "{\"id\":\"u1\",\"name\":\"Ann\",\"age\":3000000000,\"sex\":\"f\"}",
        "{\"id\":\"u1\",\"name\":\"Ann\",\"age\":30,\"sex\":\"x\"}",
        "{\"id\":\"u1\",\"name\":\"Ann\",\"age\":,\"sex\":\"f\"}",
        "{\"id\":u1,\"name\":\"Ann\",\"age\":30,\"sex\":\"f\"}",
    ];
    for b in bad {
        let r = decode_user(b);
        assert!(r.is_err(), "body {:?} must not decode", b);
        assert_eq!(r.unwrap_err().message, "Malformed user body");
    }
}

#[test]
fn encode_user_sequences() {
    assert_eq!(encode_users(&vec![]), "[]");
    let us = vec![user("u1", "Ann", 30, Sex::Female), user("u2", "Ann", 31, Sex::Male)];
    assert_eq!(
        encode_users(&us),
        "[{\"id\":\"u1\",\"name\":\"Ann\",\"age\":30,\"sex\":\"f\"},{\"id\":\"u2\",\"name\":\"Ann\",\"age\":31,\"sex\":\"m\"}]"
    );
}

// --- the user table ---

#[test]
fn init_db_is_idempotent() {
    let mut t = UserTable::new();
    t.init_db();
    t.insert_user(&user("u1", "Ann", 30, Sex::Female)).unwrap();
    t.init_db();
    let found = t.get_user_by_id("u1").unwrap();
    assert_eq!(found, Some(user("u1", "Ann", 30, Sex::Female)));
}

#[test]
fn find_absent_key_is_none_not_error() {
    let mut t = UserTable::new();
    t.init_db();
    let r = t.get_user_by_id("missing");
    assert_eq!(r.unwrap(), None);
}

#[test]
fn duplicate_key_first_succeeds_second_fails() {
    let mut t = UserTable::new();
    t.init_db();
    assert!(t.insert_user(&user("u1", "Ann", 30, Sex::Female)).is_ok());
    let second = t.insert_user(&user("u1", "Other", 9, Sex::Male));
    assert!(second.is_err());
    // the stored record is untouched
    assert_eq!(t.get_user_by_id("u1").unwrap(), Some(user("u1", "Ann", 30, Sex::Female)));
}

#[test]
fn find_by_name_returns_all_matches() {
    let mut t = UserTable::new();
    t.init_db();
    t.insert_user(&user("u1", "Ann", 30, Sex::Female)).unwrap();
    t.insert_user(&user("u2", "Bob", 40, Sex::Male)).unwrap();
    t.insert_user(&user("u3", "Ann", 50, Sex::Female)).unwrap();
    let anns = t.get_users_by_name("Ann").unwrap();
    assert_eq!(anns.len(), 2);
    assert!(anns.contains(&user("u1", "Ann", 30, Sex::Female)));
    assert!(anns.contains(&user("u3", "Ann", 50, Sex::Female)));
    assert_eq!(t.get_users_by_name("Zoe").unwrap(), vec![]);
}

// --- query-string parsing ---

#[test]
fn parse_param_splits_on_first_equals() {
    let p = parse_param("a=b").unwrap();
    assert_eq!((p.name.as_str(), p.value.as_str()), ("a", "b"));
    let p = parse_param("a=b=c").unwrap();
    assert_eq!((p.name.as_str(), p.value.as_str()), ("a", "b=c"));
    let p = parse_param("a=").unwrap();
    assert_eq!((p.name.as_str(), p.value.as_str()), ("a", ""));
    let p = parse_param("=b").unwrap();
    assert_eq!((p.name.as_str(), p.value.as_str()), ("", "b"));
}

#[test]
fn parse_param_without_equals_fails() {
    let e = parse_param("justaname").unwrap_err();
    assert_eq!(e.message, "Invalid query param");
}

#[test]
fn parse_query_params_handles_absence_and_failure() {
    assert_eq!(parse_query_params(None).unwrap().len(), 0);
    let ps = parse_query_params(Some("a=1&b=2")).unwrap();
    assert_eq!(ps.len(), 2);
    assert_eq!((ps[0].name.as_str(), ps[0].value.as_str()), ("a", "1"));
    assert_eq!((ps[1].name.as_str(), ps[1].value.as_str()), ("b", "2"));
    assert!(parse_query_params(Some("a=1&oops")).is_err());
}

#[test]
fn get_param_value_finds_and_misses() {
    assert_eq!(get_param_value(Some("x=1&id=u1"), "id").unwrap(), "u1");
    let e = get_param_value(Some("x=1"), "id").unwrap_err();
    assert_eq!(e.message, "No id param specified");
    let e = get_param_value(None, "id").unwrap_err();
    assert_eq!(e.message, "No id param specified");
}

#[test]
fn app_error_wraps_message() {
    let e = AppError::new("boom".to_string());
    assert_eq!(e.message, "boom");
}

// --- the dispatcher ---

fn ready_endpoints() -> Endpoints {
    let mut t = UserTable::new();
    t.init_db();
    Endpoints::new(t)
}

#[test]
fn health_always_succeeds() {
    let mut ep = ready_endpoints();
    let r = ep.routes_with_error_handling(Method::Get, "/health", None, "");
    assert_eq!((r.status, r.body.as_str()), (200, "healthy"));
}

#[test]
fn unknown_routes_are_not_found_with_empty_body() {
    let mut ep = ready_endpoints();
    let r = ep.routes_with_error_handling(Method::Get, "/nope", None, "");
    assert_eq!((r.status, r.body.as_str()), (404, ""));
    let r = ep.routes_with_error_handling(Method::Post, "/health", None, "");
    assert_eq!((r.status, r.body.as_str()), (404, ""));
    let r = ep.routes_with_error_handling(Method::Other, "/users", None, "");
    assert_eq!((r.status, r.body.as_str()), (404, ""));
}

#[test]
fn missing_id_param_names_it_in_the_error() {
    let mut ep = ready_endpoints();
    let r = ep.routes_with_error_handling(Method::Get, "/users/by-id", None, "");
    assert_eq!((r.status, r.body.as_str()), (500, "No id param specified"));
}

#[test]
fn malformed_query_string_is_a_uniform_error() {
    let mut ep = ready_endpoints();
    let r = ep.routes_with_error_handling(Method::Get, "/users/by-id", Some("broken"), "");
    assert_eq!((r.status, r.body.as_str()), (500, "Invalid query param"));
}

#[test]
fn malformed_body_is_rejected_and_nothing_persists() {
    let mut ep = ready_endpoints();
    let r = ep.routes_with_error_handling(Method::Post, "/users", None, "{\"id\":\"u1\"");
    assert_eq!(r.status, 500);
    assert_eq!(r.body, "Malformed user body");
    let r = ep.routes_with_error_handling(Method::Get, "/users/by-id", Some("id=u1"), "");
    assert_eq!((r.status, r.body.as_str()), (404, "User u1 not found"));
}

#[test]
fn duplicate_insert_surfaces_as_server_error() {
    let mut ep = ready_endpoints();
    let body = "{\"id\":\"u1\",\"name\":\"Ann\",\"age\":30,\"sex\":\"f\"}";
    let first = ep.routes_with_error_handling(Method::Post, "/users", None, body);
    assert_eq!(first.status, 200);
    let again = "{\"id\":\"u1\",\"name\":\"Else\",\"age\":9,\"sex\":\"m\"}";
    let second = ep.routes_with_error_handling(Method::Post, "/users", None, again);
    assert_eq!(second.status, 500);
}

#[test]
fn end_to_end_scenario() {
    let mut ep = ready_endpoints();
    let body = "{\"id\":\"u1\",\"name\":\"Ann\",\"age\":30,\"sex\":\"f\"}";

    let created = ep.routes_with_error_handling(Method::Post, "/users", None, body);
    assert_eq!((created.status, created.body.as_str()), (200, body));

    let fetched = ep.routes_with_error_handling(Method::Get, "/users/by-id", Some("id=u1"), "");
    assert_eq!((fetched.status, fetched.body.as_str()), (200, body));

    let by_name =
        ep.routes_with_error_handling(Method::Get, "/users/by-name", Some("name=Ann"), "");
    assert_eq!(by_name.status, 200);
    assert_eq!(by_name.body, format!("[{}]", body));

    let missing =
        ep.routes_with_error_handling(Method::Get, "/users/by-id", Some("id=missing"), "");
    assert_eq!((missing.status, missing.body.as_str()), (404, "User missing not found"));
}
