use flight_booking::dates::Date;
use flight_booking::error::AppError;
use flight_booking::models::{Role, User, UserLoginRequest, UserRegistrationRequest};
use flight_booking::user_service::{UserService, UserStore};

fn date(y: i32, m: u32, d: u32) -> Date {
    Date { year: y, month: m, day: d }
}

const TEST_SECRET: &str = "SECRET-REDACTED";
const TEST_NOW: u64 = 1700000000;

#[test]
fn test_user_registration_success() {
    let mut store = UserStore::new();
    let test_user = UserRegistrationRequest {
        username: "test_user_registration".to_string(),
        password: "test_password123".to_string(),
        role: Role::User,
        name: "Test User".to_string(),
        birth_date: date(1990, 1, 1),
        gender: "male".to_string(),
    };
    let expected_username = test_user.username.clone();
    let expected_name = test_user.name.clone();
    let expected_gender = test_user.gender.clone();

    let user_id = UserService::new().register_user(&mut store, test_user).unwrap();

    assert!(user_id > 0, "User ID should be positive");
    let saved_user = store.users.iter().find(|u| u.id == user_id).unwrap();
    let saved_info = store.customer_infos.iter().find(|c| c.id == user_id).unwrap();
    assert_eq!(saved_user.username, expected_username);
    assert_eq!(saved_user.role, "USER");
    assert_eq!(saved_info.name, expected_name);
    assert_eq!(saved_info.gender, expected_gender);
    // the password itself is never stored
    assert_ne!(saved_user.password, "test_password123");
}

#[test]
fn test_user_registration_duplicate_username() {
    let mut store = UserStore::new();
    let existing_username = "duplicate_test_user";
    store.users.push(User {
        id: store.next_user_id,
        username: existing_username.to_string(),
        password: "an-unrelated-hash".to_string(),
        role: "USER".to_string(),
    });
    store.next_user_id += 1;

    let test_user = UserRegistrationRequest {
        username: existing_username.to_string(),
        password: "new_password123".to_string(),
        role: Role::User,
        name: "Test User".to_string(),
        birth_date: date(1990, 1, 1),
        gender: "male".to_string(),
    };

    let result = UserService::new().register_user(&mut store, test_user);

    match result {
        Err(AppError::Conflict(msg)) => {
            assert_eq!(msg, "Username already exists");
        }
        _ => panic!("Expected Conflict error for duplicate username"),
    }
}

#[test]
fn test_user_login_success() {
    let mut store = UserStore::new();
    let service = UserService::new();
    let test_username = "login_test_user";
    let test_password = "test_password123";
    service
        .register_user(
            &mut store,
            UserRegistrationRequest {
                username: test_username.to_string(),
                password: test_password.to_string(),
                role: Role::User,
                name: "Login Test User".to_string(),
                birth_date: date(1990, 1, 1),
                gender: "female".to_string(),
            },
        )
        .unwrap();

    let login_request = UserLoginRequest {
        username: test_username.to_string(),
        password: test_password.to_string(),
    };

    let login_response = service.login_user(&store, login_request, TEST_NOW, TEST_SECRET).unwrap();

    assert!(login_response.user_id > 0, "User ID should be positive");
    assert!(!login_response.token.is_empty(), "Token should not be empty");
    // a signed token has its three dot-separated parts
    assert_eq!(login_response.token.split('.').count(), 3);
}

#[test]
fn test_user_login_nonexistent_username() {
    let mut store = UserStore::new();
    let service = UserService::new();
    service
        .register_user(
            &mut store,
            UserRegistrationRequest {
                username: "another_test_user".to_string(),
                password: "test_password123".to_string(),
                role: Role::User,
                name: "Another Test User".to_string(),
                birth_date: date(1990, 1, 1),
                gender: "male".to_string(),
            },
        )
        .unwrap();

    let login_request = UserLoginRequest {
        username: "nonexistent_user".to_string(),
        password: "some_password".to_string(),
    };

    let result = service.login_user(&store, login_request, TEST_NOW, TEST_SECRET);

    match result {
        Err(AppError::AuthError(msg)) => {
            assert_eq!(msg, "Invalid credentials");
        }
        _ => panic!("Expected AuthError for non-existent username"),
    }
}

#[test]
fn test_user_login_wrong_password() {
    let mut store = UserStore::new();
    let service = UserService::new();
    let test_username = "password_test_user";
    service
        .register_user(
            &mut store,
            UserRegistrationRequest {
                username: test_username.to_string(),
                password: "correct_password".to_string(),
                role: Role::User,
                name: "Password Test User".to_string(),
                birth_date: date(1990, 1, 1),
                gender: "male".to_string(),
            },
        )
        .unwrap();

    let login_request = UserLoginRequest {
        username: test_username.to_string(),
        password: "wrong_password".to_string(),
    };

    let result = service.login_user(&store, login_request, TEST_NOW, TEST_SECRET);

    match result {
        Err(AppError::AuthError(msg)) => {
            assert_eq!(msg, "Invalid credentials");
        }
        _ => panic!("Expected AuthError for wrong password"),
    }
}

#[test]
fn registration_rejects_unknown_gender() {
    let mut store = UserStore::new();
    let test_user = UserRegistrationRequest {
        username: "gender_test_user".to_string(),
        password: "test_password123".to_string(),
        role: Role::User,
        name: "Gender Test User".to_string(),
        birth_date: date(1990, 1, 1),
        gender: "other".to_string(),
    };

    let result = UserService::new().register_user(&mut store, test_user);

    match result {
        Err(AppError::ValidationError(msg)) => {
            assert_eq!(msg, "Invalid gender: choose between male or female.");
        }
        _ => panic!("Expected ValidationError for an unknown gender"),
    }
    assert!(store.users.is_empty());
}

#[test]
fn admin_role_is_stored_in_upper_case() {
    let mut store = UserStore::new();
    let user_id = UserService::new()
        .register_user(
            &mut store,
            UserRegistrationRequest {
                username: "admin_user".to_string(),
                password: "admin_password".to_string(),
                role: Role::Admin,
                name: "Admin User".to_string(),
                birth_date: date(1980, 6, 15),
                gender: "female".to_string(),
            },
        )
        .unwrap();
    assert_eq!(store.users.iter().find(|u| u.id == user_id).unwrap().role, "ADMIN");
}
