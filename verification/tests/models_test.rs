use flight_booking::dates::Date;
use flight_booking::models::{RegisterResponse, Role};

#[test]
fn register_response_example_values() {
    let example = RegisterResponse::example();
    assert_eq!(example.user_id, 123);
    assert_eq!(example.status, "success");
}

#[test]
fn role_defaults_to_user() {
    assert_eq!(Role::default(), Role::User);
}

#[test]
fn role_names_parse_case_insensitively() {
    assert_eq!(Role::from_name(b"user"), Some(Role::User));
    assert_eq!(Role::from_name(b"uSeR"), Some(Role::User));
    assert_eq!(Role::from_name(b"ADMIN"), Some(Role::Admin));
    assert_eq!(Role::from_name(b"Admin"), Some(Role::Admin));
    assert_eq!(Role::from_name(b"root"), None);
    assert_eq!(Role::from_name(b"users"), None);
    assert_eq!(Role::from_name(b""), None);
}

#[test]
fn date_order_is_lexicographic() {
    let earlier = Date { year: 2024, month: 1, day: 31 };
    let later = Date { year: 2024, month: 2, day: 1 };
    assert!(earlier.is_on_or_before(&later));
    assert!(!later.is_on_or_before(&earlier));
    assert!(earlier.is_on_or_before(&earlier));
    assert_eq!(Date::new(2024, 2, 1), later);
}
