//! User registration and login.
//!
//! Passwords are salted-hashed through bcrypt and never stored in the
//! clear; a successful login hands back a signed token for the request
//! layer to attach. Both cryptographic calls are outside work, named and
//! bounded by the trusted wrappers below.

use vstd::prelude::*;

use crate::error::AppError;
use crate::models::{CustomerInfo, Role, User, UserLoginRequest, UserLoginResponse,
    UserRegistrationRequest};

verus! {

/// The users' store: registered accounts and their profile rows.
#[derive(Debug, Clone)]
pub struct UserStore {
    pub users: Vec<User>,
    pub customer_infos: Vec<CustomerInfo>,
    pub next_user_id: i32,
}

/// The mathematical shadow of the users' store.
#[verifier::ext_equal]
pub ghost struct UserStoreModel {
    pub users: Seq<User>,
    pub customer_infos: Seq<CustomerInfo>,
    pub next_user_id: int,
}

impl View for UserStore {
    type V = UserStoreModel;

    open spec fn view(&self) -> UserStoreModel {
        UserStoreModel {
            users: self.users@,
            customer_infos: self.customer_infos@,
            next_user_id: self.next_user_id as int,
        }
    }
}

/// Usernames and user ids are unique, and ids stay below the counter.
pub open spec fn users_wf(m: UserStoreModel) -> bool {
    &&& forall|i: int, j: int|
        #![trigger m.users[i], m.users[j]]
        0 <= i < j < m.users.len() ==> m.users[i].id != m.users[j].id && m.users[i].username@
            != m.users[j].username@
    &&& forall|i: int| 0 <= i < m.users.len() ==> (#[trigger] m.users[i]).id < m.next_user_id
}

/// Whether some account already carries this username.
pub open spec fn username_taken(users: Seq<User>, name: Seq<char>) -> bool {
    exists|i: int| 0 <= i < users.len() && users[i].username@ == name
}

pub open spec fn user_idx(users: Seq<User>, name: Seq<char>) -> int {
    choose|i: int| 0 <= i < users.len() && users[i].username@ == name
}

/// The gender values a registration accepts.
pub open spec fn gender_ok(g: Seq<char>) -> bool {
    g == "male"@ || g == "female"@
}

/// Checks a registration's gender field.
pub fn validate_gender(gender: &String) -> (r: bool)
    ensures
        r == gender_ok(gender@),
{
    let male: String = "male".to_owned();
    let female: String = "female".to_owned();
    *gender == male || *gender == female
}

/// What `bcrypt::verify` answers for a password against a stored hash:
/// a function of the two alone (`None` stands for a malformed hash).
pub uninterp spec fn bcrypt_verify_result(password: Seq<char>, hash: Seq<char>) -> Option<bool>;

/// The token `jsonwebtoken::encode` mints for a subject, an expiry and a
/// signing secret: HS256 over a fixed claim layout, a function of the
/// three alone.
pub uninterp spec fn token_of(sub: int, exp: int, secret: Seq<char>) -> Seq<char>;

#[verifier::external_type_specification]
#[verifier::external_body]
pub struct ExBcryptError(bcrypt::BcryptError);

#[verifier::external_type_specification]
#[verifier::external_body]
pub struct ExJwtError(jsonwebtoken::errors::Error);

/// Relies on `bcrypt::hash`: the salt is drawn fresh, so the hash itself
/// is not a function of the password, but `bcrypt::verify` re-derives the
/// same hash from the embedded salt and accepts it.
#[verifier::external_body]
fn hash_password(password: &str, cost: u32) -> (r: Result<String, bcrypt::BcryptError>)
    ensures
        r matches Ok(h) ==> bcrypt_verify_result(password@, h@) == Some(true),
{
    bcrypt::hash(password.as_bytes(), cost)
}

/// Relies on `bcrypt::verify`: it parses the cost and salt out of the
/// hash, recomputes, and compares; deterministic in its two arguments.
#[verifier::external_body]
fn verify_password(password: &str, hash: &str) -> (r: Result<bool, bcrypt::BcryptError>)
    ensures
        r matches Ok(b) ==> bcrypt_verify_result(password@, hash@) == Some(b),
        r is Err ==> bcrypt_verify_result(password@, hash@) is None,
{
    bcrypt::verify(password.as_bytes(), hash)
}

/// Relies on `bcrypt::BcryptError`'s `Display` rendering, with no claim
/// about the text.
#[verifier::external_body]
fn bcrypt_error_message(e: &bcrypt::BcryptError) -> String {
    e.to_string()
}

/// Relies on `jsonwebtoken::errors::Error`'s `Display` rendering, with no
/// claim about the text.
#[verifier::external_body]
fn jwt_error_message(e: &jsonwebtoken::errors::Error) -> String {
    e.to_string()
}

/// Relies on `jsonwebtoken::encode` with the default header (HS256) and a
/// key from the raw secret: header and claim serialization are fixed and
/// infallible, HMAC accepts a key of any length, so the call always
/// succeeds and the token depends on the subject, expiry and secret alone.
/// A signed token is never empty: it is three dot-joined base64 parts.
#[verifier::external_body]
fn encode_token(sub: i32, exp: u64, secret: &str) -> (r: Result<
    String,
    jsonwebtoken::errors::Error,
>)
    ensures
        r is Ok,
        r matches Ok(t) ==> t@ == token_of(sub as int, exp as int, secret@) && t@.len() > 0,
{
    let mut claims: std::collections::BTreeMap<&str, i64> = std::collections::BTreeMap::new();
    claims.insert("sub", sub as i64);
    claims.insert("exp", exp as i64);
    jsonwebtoken::encode(
        &jsonwebtoken::Header::default(),
        &claims,
        &jsonwebtoken::EncodingKey::from_secret(secret.as_bytes()),
    )
}

/// How long a freshly minted token lives, in seconds.
pub const TOKEN_LIFETIME_SECS: u64 = 86400;

/// The bcrypt work factor used for new passwords, the crate's default.
pub const PASSWORD_HASH_COST: u32 = 12;

/// Mints the login token for `user_id`, valid for a day from `now_secs`
/// (seconds since the epoch), signed with `secret`.
pub fn generate_token(user_id: i32, now_secs: u64, secret: &str) -> (r: Result<
    String,
    jsonwebtoken::errors::Error,
>)
    requires
        now_secs + TOKEN_LIFETIME_SECS <= u64::MAX,
    ensures
        r is Ok,
        r matches Ok(t) ==> t@ == token_of(
            user_id as int,
            now_secs + TOKEN_LIFETIME_SECS,
            secret@,
        ) && t@.len() > 0,
{
    let expiration = now_secs + TOKEN_LIFETIME_SECS;
    encode_token(user_id, expiration, secret)
}

/// Registration and login against the users' store.
pub struct UserService {}

impl UserService {
    pub fn new() -> (r: UserService)
    {
        UserService {  }
    }

    /// The registration rules on a password already hashed: rejects a bad
    /// gender or a taken username, otherwise inserts the account. Nothing
    /// here can fail for any other reason.
    pub fn register_user_hashed(
        &self,
        store: &mut UserStore,
        request: UserRegistrationRequest,
        hashed_password: String,
    ) -> (r: Result<i32, AppError>)
        requires
            users_wf(old(store)@),
            i32::MIN <= old(store)@.next_user_id < i32::MAX,
        ensures
            users_wf(final(store)@),
            !gender_ok(request.gender@) ==> (r matches Err(e) && e matches
                AppError::ValidationError(msg) && msg@
                == "Invalid gender: choose between male or female."@ && final(store)@ =~= old(
                store,
            )@),
            gender_ok(request.gender@) && username_taken(old(store)@.users, request.username@)
                ==> (r matches Err(e) && e matches AppError::Conflict(msg) && msg@
                == "Username already exists"@ && final(store)@ =~= old(store)@),
            gender_ok(request.gender@) && !username_taken(old(store)@.users, request.username@)
                ==> (r matches Ok(id) && id == old(store)@.next_user_id
                && final(store)@.next_user_id == old(store)@.next_user_id + 1
                && final(store)@.users.len() == old(store)@.users.len() + 1 && (forall|k: int|
                0 <= k < old(store)@.users.len() ==> final(store)@.users[k] == #[trigger] old(
                    store,
                )@.users[k]) && final(store)@.users.last().id == id
                && final(store)@.users.last().username == request.username
                && final(store)@.users.last().password == hashed_password
                && final(store)@.users.last().role@ == (match request.role {
                Role::Admin => "ADMIN"@,
                Role::User => "USER"@,
            }) && final(store)@.customer_infos =~= old(store)@.customer_infos.push(
                CustomerInfo {
                    id,
                    name: request.name,
                    birth_date: request.birth_date,
                    gender: request.gender,
                },
            )),
    {
        // the gender field is constrained to two values
        if !validate_gender(&request.gender) {
            return Err(AppError::ValidationError(
                "Invalid gender: choose between male or female.".to_owned(),
            ));
        }
        // usernames are unique
        let mut i: usize = 0;
        while i < store.users.len()
            invariant
                store@ == old(store)@,
                i <= store@.users.len(),
                forall|k: int| 0 <= k < i ==> (#[trigger] store@.users[k]).username@
                    != request.username@,
            decreases store@.users.len() - i,
        {
            if store.users[i].username == request.username {
                return Err(AppError::Conflict("Username already exists".to_owned()));
            }
            i = i + 1;
        }
        let role_str: String = match request.role {
            Role::Admin => "ADMIN".to_owned(),
            Role::User => "USER".to_owned(),
        };
        let id = store.next_user_id;
        store.users.push(
            User { id, username: request.username, password: hashed_password, role: role_str },
        );
        store.customer_infos.push(
            CustomerInfo {
                id,
                name: request.name,
                birth_date: request.birth_date,
                gender: request.gender,
            },
        );
        store.next_user_id = store.next_user_id + 1;
        Ok(id)
    }

    /// Registers a new account: the gender field must be `male` or
    /// `female`, the username must be free, and the password is stored
    /// only as its salted bcrypt hash. Returns the new user's id.
    pub fn register_user(&self, store: &mut UserStore, request: UserRegistrationRequest) -> (r:
        Result<i32, AppError>)
        requires
            users_wf(old(store)@),
            i32::MIN <= old(store)@.next_user_id < i32::MAX,
        ensures
            users_wf(final(store)@),
            !gender_ok(request.gender@) ==> (r matches Err(e) && e matches
                AppError::ValidationError(msg) && msg@
                == "Invalid gender: choose between male or female."@ && final(store)@ =~= old(
                store,
            )@),
            gender_ok(request.gender@) && username_taken(old(store)@.users, request.username@)
                ==> (r matches Err(e) && e matches AppError::Conflict(msg) && msg@
                == "Username already exists"@ && final(store)@ =~= old(store)@),
            gender_ok(request.gender@) && !username_taken(old(store)@.users, request.username@)
                ==> match r {
                Ok(id) => id == old(store)@.next_user_id && final(store)@.next_user_id == old(
                    store,
                )@.next_user_id + 1 && final(store)@.users.len() == old(store)@.users.len() + 1
                    && final(store)@.users =~= old(store)@.users.push(
                    final(store)@.users.last(),
                ) && final(store)@.users.last().id == id && final(store)@.users.last().username@
                    == request.username@ && final(store)@.users.last().role@ == (
                match request.role {
                    Role::Admin => "ADMIN"@,
                    Role::User => "USER"@,
                }) && bcrypt_verify_result(
                    request.password@,
                    final(store)@.users.last().password@,
                ) == Some(true) && final(store)@.customer_infos =~= old(
                    store,
                )@.customer_infos.push(
                    CustomerInfo {
                        id,
                        name: request.name,
                        birth_date: request.birth_date,
                        gender: request.gender,
                    },
                ),
                // only the hashing itself can fail here
                Err(e) => e matches AppError::ValidationError(_) && final(store)@ =~= old(store)@,
            },
    {
        // reject bad requests before paying for the hash
        if !validate_gender(&request.gender) {
            return Err(AppError::ValidationError(
                "Invalid gender: choose between male or female.".to_owned(),
            ));
        }
        let mut i: usize = 0;
        while i < store.users.len()
            invariant
                store@ == old(store)@,
                i <= store@.users.len(),
                forall|k: int| 0 <= k < i ==> (#[trigger] store@.users[k]).username@
                    != request.username@,
            decreases store@.users.len() - i,
        {
            if store.users[i].username == request.username {
                return Err(AppError::Conflict("Username already exists".to_owned()));
            }
            i = i + 1;
        }
        // never store the password itself
        let hashed_password = match hash_password(request.password.as_str(), PASSWORD_HASH_COST) {
            Ok(h) => h,
            Err(e) => {
                return Err(AppError::ValidationError(bcrypt_error_message(&e)));
            },
        };
        self.register_user_hashed(store, request, hashed_password)
    }

    /// Logs a user in: the username must exist and the password must
    /// verify against the stored hash; the response carries a token for
    /// `user_id` minted at `now_secs` with `secret`. Any mismatch answers
    /// with the same `Invalid credentials` error, so a caller cannot
    /// probe which usernames exist.
    pub fn login_user(
        &self,
        store: &UserStore,
        request: UserLoginRequest,
        now_secs: u64,
        secret: &str,
    ) -> (r: Result<UserLoginResponse, AppError>)
        requires
            users_wf(store@),
            now_secs + TOKEN_LIFETIME_SECS <= u64::MAX,
        ensures
            !username_taken(store@.users, request.username@) ==> (r matches Err(e) && e matches
                AppError::AuthError(msg) && msg@ == "Invalid credentials"@),
            username_taken(store@.users, request.username@) ==> {
                let u = store@.users[user_idx(store@.users, request.username@)];
                let checked = bcrypt_verify_result(
                    request.password@,
                    u.password@,
                );
                // the token calls cannot fail, so success is owed exactly
                // when the password verifies
                &&& (checked == Some(true) ==> r is Ok)
                &&& match r {
                    Ok(resp) => checked == Some(true) && resp.user_id == u.id && resp.token@
                        == token_of(
                        u.id as int,
                        now_secs + TOKEN_LIFETIME_SECS,
                        secret@,
                    ) && resp.token@.len() > 0,
                    Err(e) => e matches AppError::AuthError(msg) && (checked == Some(false)
                        ==> msg@ == "Invalid credentials"@),
                }
            },
    {
        let ghost name = request.username@;
        let mut i: usize = 0;
        let mut found: Option<usize> = None;
        while i < store.users.len()
            invariant
                i <= store@.users.len(),
                match found {
                    Some(x) => 0 <= x < store@.users.len() && store@.users[x as int].username@
                        == name,
                    None => forall|k: int|
                        0 <= k < i ==> (#[trigger] store@.users[k]).username@ != name,
                },
                found is Some ==> i == store@.users.len(),
                name == request.username@,
            decreases store@.users.len() - i,
        {
            if store.users[i].username == request.username {
                found = Some(i);
                break ;
            }
            i = i + 1;
        }
        let ui = match found {
            Some(x) => x,
            None => {
                return Err(AppError::AuthError("Invalid credentials".to_owned()));
            },
        };
        proof {
            lemma_user_idx_unique(store@.users, name, ui as int);
        }
        let user = &store.users[ui];
        let password_matches = match verify_password(
            request.password.as_str(),
            user.password.as_str(),
        ) {
            Ok(b) => b,
            Err(e) => {
                return Err(AppError::AuthError(bcrypt_error_message(&e)));
            },
        };
        if !password_matches {
            return Err(AppError::AuthError("Invalid credentials".to_owned()));
        }
        let token = match generate_token(user.id, now_secs, secret) {
            Ok(t) => t,
            Err(e) => {
                return Err(AppError::AuthError(jwt_error_message(&e)));
            },
        };
        Ok(UserLoginResponse { token, user_id: user.id })
    }
}

impl UserStore {
    /// An empty users' store.
    pub fn new() -> (r: UserStore)
        ensures
            r@.users =~= Seq::<User>::empty(),
            r@.customer_infos =~= Seq::<CustomerInfo>::empty(),
            r@.next_user_id == 1,
            users_wf(r@),
    {
        UserStore { users: Vec::new(), customer_infos: Vec::new(), next_user_id: 1 }
    }
}

/// Under uniqueness, any index with a matching username is the canonical
/// one.
pub proof fn lemma_user_idx_unique(users: Seq<User>, name: Seq<char>, i: int)
    requires
        forall|x: int, y: int|
            #![trigger users[x], users[y]]
            0 <= x < y < users.len() ==> users[x].username@ != users[y].username@,
        0 <= i < users.len(),
        users[i].username@ == name,
    ensures
        username_taken(users, name),
        user_idx(users, name) == i,
{
    let j = user_idx(users, name);
    assert(0 <= j < users.len() && users[j].username@ == name);
}

} // verus!
