use flight_booking::dates::Date;
use flight_booking::models::{Role, UserRegistrationRequest};
use flight_booking::user_service::{UserService, UserStore};

fn date(y: i32, m: u32, d: u32) -> Date {
    Date { year: y, month: m, day: d }
}

#[test]
fn user_service_test_copy_test_user_registration_success() {
    let mut store = UserStore::new();
    let test_user = UserRegistrationRequest {
        username: "test_user_registration".to_string(),
        password: "test_password123".to_string(),
        role: Role::User,
        name: "Test User".to_string(),
        birth_date: date(1990, 1, 1),
        gender: "male".to_string(),
    };
    let expected_username = test_user.username.clone();
    let expected_name = test_user.name.clone();
    let expected_gender = test_user.gender.clone();

    let user_id = UserService::new().register_user(&mut store, test_user).unwrap();

    assert!(user_id > 0, "User ID should be positive");
    let saved_user = store.users.iter().find(|u| u.id == user_id).unwrap();
    let saved_info = store.customer_infos.iter().find(|c| c.id == user_id).unwrap();
    assert_eq!(saved_user.username, expected_username);
    assert_eq!(saved_user.role, "USER");
    assert_eq!(saved_info.name, expected_name);
    assert_eq!(saved_info.gender, expected_gender);
}

#[test]
fn test_user_registration_success_two() {
    let mut store = UserStore::new();
    let test_user = UserRegistrationRequest {
        username: "test_user_registration_duplicate".to_string(),
        password: "test_password123".to_string(),
        role: Role::User,
        name: "Test User".to_string(),
        birth_date: date(1990, 1, 1),
        gender: "male".to_string(),
    };
    let expected_username = test_user.username.clone();
    let expected_name = test_user.name.clone();
    let expected_gender = test_user.gender.clone();

    let user_id = UserService::new().register_user(&mut store, test_user).unwrap();

    assert!(user_id > 0, "User ID should be positive");
    let saved_user = store.users.iter().find(|u| u.id == user_id).unwrap();
    let saved_info = store.customer_infos.iter().find(|c| c.id == user_id).unwrap();
    assert_eq!(saved_user.username, expected_username);
    assert_eq!(saved_user.role, "USER");
    assert_eq!(saved_info.name, expected_name);
    assert_eq!(saved_info.gender, expected_gender);
}
