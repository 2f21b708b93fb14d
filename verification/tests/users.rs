use quebrix::creds::acl_add_user::IAddUser;
use quebrix::creds::auth::Authenticator;
use quebrix::creds::cred_manager::{
    ACLResult, CredsManager, ParseUserRoleError, RoleManagement, User, ENCRYPT_KEY, IV_PATTERN,
};
use quebrix::creds::cred_users::CredUsers;
use quebrix::creds::del_user::DeletUser;
use quebrix::creds::load_user_from_file::{parse_password, LoadUserFromFile};
use quebrix::creds::remove_user_from_cred_file::RemoveUserFromCredFile;
use quebrix::creds::role_manager::IRoleManager;
use quebrix::creds::who_am_i::WhowAmI;
use quebrix::crypto::crypto_service::Encryptor;
use quebrix::public_api::server::{authorized, credentials, ApiResponse};

fn text(s: &str) -> String {
    s.to_string()
}

fn admin() -> User {
    User { username: text("root"), password: vec![], role: RoleManagement::Admin }
}

fn developer() -> User {
    User { username: text("dev"), password: vec![], role: RoleManagement::Developer }
}

fn manager_with(users: &[(&str, &str, RoleManagement)]) -> CredsManager {
    let mut manager = CredsManager::new(false);
    for (name, password, role) in users {
        let result = manager.add_user(text(name), text(password), *role, None);
        assert!(result.is_success);
    }
    manager
}

#[test]
fn encryption_puts_the_vector_before_the_ciphertext() {
    let encryptor = Encryptor::new(ENCRYPT_KEY, IV_PATTERN);
    let encrypted = encryptor.encrypt("123456");
    assert_eq!(encrypted.len(), 32);
    assert_eq!(&encrypted[..16], &IV_PATTERN[..]);
    assert_ne!(&encrypted[16..22], "123456".as_bytes());
    assert_eq!(encryptor.encrypt("123456"), encrypted);
    assert_eq!(encryptor.encrypt("").len(), 32);
    assert_eq!(encryptor.encrypt("0123456789abcdef").len(), 48);
}

#[test]
fn what_was_encrypted_decrypts_to_the_same_text() {
    let encryptor = Encryptor::new("some key", [7u8; 16]);
    for plaintext in ["", "a", "123456", "exactly sixteen!", "a longer text with ünïcödé in it"] {
        let encrypted = encryptor.encrypt(plaintext);
        assert_eq!(encryptor.decrypt(&encrypted), Some(text(plaintext)));
    }
}

#[test]
fn the_key_is_cut_after_32_bytes_and_filled_up_with_zeros() {
    let long = Encryptor::new("0123456789abcdef0123456789abcdefTAIL", [1u8; 16]);
    let cut = Encryptor::new("0123456789abcdef0123456789abcdef", [1u8; 16]);
    assert_eq!(long.encrypt("secret"), cut.encrypt("secret"));
    let short = Encryptor::new("abc", [1u8; 16]);
    let filled = Encryptor::new("abc\0\0\0", [1u8; 16]);
    assert_eq!(short.encrypt("secret"), filled.encrypt("secret"));
    let other = Encryptor::new("abd", [1u8; 16]);
    assert_ne!(short.encrypt("secret"), other.encrypt("secret"));
}

#[test]
fn decryption_uses_the_vector_that_the_data_carries() {
    let writer = Encryptor::new("key", [3u8; 16]);
    let reader = Encryptor::new("key", [9u8; 16]);
    let encrypted = writer.encrypt("carried");
    assert_eq!(reader.decrypt(&encrypted), Some(text("carried")));
}

#[test]
fn what_is_no_encrypted_text_decrypts_to_nothing() {
    let encryptor = Encryptor::new("key", [3u8; 16]);
    assert_eq!(encryptor.decrypt(&[]), None);
    assert_eq!(encryptor.decrypt(&[1, 2, 3]), None);
    assert_eq!(encryptor.decrypt(&[0u8; 15]), None);
    assert_eq!(encryptor.decrypt(&[0u8; 16]), None);
    assert_eq!(encryptor.decrypt(&[0u8; 20]), None);
    let mut encrypted = encryptor.encrypt("secret");
    let other = Encryptor::new("another key", [3u8; 16]);
    assert_ne!(other.decrypt(&encrypted), Some(text("secret")));
    encrypted.truncate(31);
    assert_eq!(encryptor.decrypt(&encrypted), None);
}

#[test]
fn roles_are_named_whatever_the_case() {
    assert!(matches!(RoleManagement::from_text("admin"), Ok(RoleManagement::Admin)));
    assert!(matches!(RoleManagement::from_text("Admin"), Ok(RoleManagement::Admin)));
    assert!(matches!(RoleManagement::from_text("ADMIN"), Ok(RoleManagement::Admin)));
    assert!(matches!(RoleManagement::from_text("Developer"), Ok(RoleManagement::Developer)));
    assert!(matches!(RoleManagement::from_text("dEvElOpEr"), Ok(RoleManagement::Developer)));
    assert!(matches!("admin".parse::<RoleManagement>(), Ok(RoleManagement::Admin)));
    assert!(matches!("developer".parse::<RoleManagement>(), Ok(RoleManagement::Developer)));
}

#[test]
fn other_texts_name_no_role() {
    for name in ["", "root", "admin ", " admin", "admins", "develope", "adm1n"] {
        assert!(matches!(RoleManagement::from_text(name), Err(ParseUserRoleError)));
        assert!(name.parse::<RoleManagement>().is_err());
    }
    assert_eq!(ParseUserRoleError.message(), "Invalid user role");
}

#[test]
fn roles_have_their_names_and_rights() {
    assert_eq!(RoleManagement::Admin.as_str(), "Admin");
    assert_eq!(RoleManagement::Developer.as_str(), "Developer");
    assert!(RoleManagement::Admin.can_manage_users());
    assert!(!RoleManagement::Developer.can_manage_users());
    assert!(RoleManagement::Admin.can_manage_cache());
    assert!(RoleManagement::Developer.can_manage_cache());
}

#[test]
fn results_say_whether_they_succeeded() {
    let ok = ACLResult::ok("fine");
    assert!(ok.is_success);
    assert_eq!(ok.message, "fine");
    let failed = ACLResult::faild("bad");
    assert!(!failed.is_success);
    assert_eq!(failed.message, "bad");
    let answer = ApiResponse::ok(5);
    assert!(answer.is_success);
    assert_eq!(answer.data, 5);
    let refusal = ApiResponse::fail("no");
    assert!(!refusal.is_success);
    assert_eq!(refusal.data, "no");
}

#[test]
fn a_new_manager_knows_nobody() {
    let manager = CredsManager::new(true);
    assert!(manager.enable_log);
    assert!(manager.users.is_empty());
    assert!(!manager.authenticate("admin", "123456"));
    assert!(manager.load_users().is_empty());
    assert_eq!(manager.user_line("admin"), None);
}

#[test]
fn an_added_user_is_known_by_the_password() {
    let mut manager = CredsManager::new(false);
    let result = manager.add_user(text("alice"), text("wonder"), RoleManagement::Developer, None);
    assert!(result.is_success);
    assert_eq!(result.message, "new user added");
    assert!(manager.authenticate("alice", "wonder"));
    assert!(!manager.authenticate("alice", "wrong"));
    assert!(!manager.authenticate("alice", ""));
    assert!(!manager.authenticate("bob", "wonder"));
    let stored = manager.get_user("alice");
    assert_eq!(stored.username, "alice");
    assert_eq!(stored.role, RoleManagement::Developer);
    assert_eq!(stored.password, Encryptor::new(ENCRYPT_KEY, IV_PATTERN).encrypt("wonder"));
}

#[test]
fn only_an_administrator_may_add_users() {
    let mut manager = CredsManager::new(false);
    let refused = manager.add_user(text("eve"), text("pw"), RoleManagement::Admin, Some(&developer()));
    assert!(!refused.is_success);
    assert_eq!(refused.message, "Permission denied: Admin role required to add users");
    assert!(manager.users.is_empty());
    let granted = manager.add_user(text("eve"), text("pw"), RoleManagement::Admin, Some(&admin()));
    assert!(granted.is_success);
    assert!(manager.authenticate("eve", "pw"));
}

#[test]
fn adding_a_known_name_replaces_the_user_in_place() {
    let mut manager = manager_with(&[
        ("a", "one", RoleManagement::Developer),
        ("b", "two", RoleManagement::Developer),
    ]);
    assert!(manager.add_user(text("a"), text("new"), RoleManagement::Admin, None).is_success);
    assert!(!manager.authenticate("a", "one"));
    assert!(manager.authenticate("a", "new"));
    let listed = manager.load_users();
    assert_eq!(listed.len(), 2);
    assert_eq!(listed[0].username, "a");
    assert_eq!(listed[0].role, RoleManagement::Admin);
    assert_eq!(listed[1].username, "b");
}

#[test]
fn the_first_administrator_is_admin_with_the_default_password() {
    let mut manager = CredsManager::new(false);
    manager.create_admin();
    assert!(manager.authenticate("admin", "123456"));
    assert!(manager.is_admin(&User { username: text("admin"), password: vec![], role: RoleManagement::Developer }));
}

#[test]
fn users_are_listed_without_their_passwords() {
    let manager = manager_with(&[
        ("a", "one", RoleManagement::Admin),
        ("b", "two", RoleManagement::Developer),
    ]);
    let listed = manager.load_users();
    assert_eq!(listed.len(), 2);
    assert_eq!(listed[0].username, "a");
    assert_eq!(listed[0].role, RoleManagement::Admin);
    assert!(listed[0].password.is_empty());
    assert_eq!(listed[1].username, "b");
    assert_eq!(listed[1].role, RoleManagement::Developer);
    assert!(listed[1].password.is_empty());
    let me = manager.who_am_i("b");
    assert_eq!(me.username, "b");
    assert_eq!(me.role, RoleManagement::Developer);
    assert!(me.password.is_empty());
}

#[test]
fn the_role_is_that_of_the_known_user() {
    let mut manager = manager_with(&[
        ("a", "one", RoleManagement::Admin),
        ("b", "two", RoleManagement::Developer),
    ]);
    let a = User { username: text("a"), password: vec![], role: RoleManagement::Developer };
    let b = User { username: text("b"), password: vec![], role: RoleManagement::Admin };
    assert!(manager.is_admin(&a));
    assert!(!manager.is_developer(&a));
    assert!(!manager.is_admin(&b));
    assert!(manager.is_developer(&b));
}

#[test]
fn a_user_can_be_removed() {
    let mut manager = manager_with(&[
        ("a", "one", RoleManagement::Admin),
        ("b", "two", RoleManagement::Developer),
    ]);
    let result = manager.delete_user("a", None);
    assert!(result.is_success);
    assert_eq!(result.message, "user deleted");
    assert!(!manager.authenticate("a", "one"));
    assert!(manager.authenticate("b", "two"));
    let again = manager.delete_user("a", Some(&admin()));
    assert!(!again.is_success);
    assert_eq!(again.message, "User not found");
}

#[test]
fn only_an_administrator_may_remove_users() {
    let mut manager = manager_with(&[("a", "one", RoleManagement::Admin)]);
    let refused = manager.delete_user("a", Some(&developer()));
    assert!(!refused.is_success);
    assert_eq!(
        refused.message,
        "Access denied:your role do not have access to run this command."
    );
    assert!(manager.authenticate("a", "one"));
    assert!(manager.delete_user("a", Some(&admin())).is_success);
}

#[test]
fn the_line_of_a_user_holds_name_password_and_role() {
    let mut manager = CredsManager::new(false);
    manager.users.push(User { username: text("al"), password: vec![1, 20, 255], role: RoleManagement::Admin });
    manager.users.push(User { username: text("bo"), password: vec![], role: RoleManagement::Developer });
    assert_eq!(manager.user_line("al"), Some(text("al:[1, 20, 255]:Admin")));
    assert_eq!(manager.user_line("bo"), Some(text("bo:[]:Developer")));
    assert_eq!(manager.user_line("cy"), None);
}

#[test]
fn the_users_file_reads_back() {
    let first = manager_with(&[
        ("admin", "123456", RoleManagement::Admin),
        ("dev", "hunter2", RoleManagement::Developer),
    ]);
    let lines = vec![first.user_line("admin").unwrap(), first.user_line("dev").unwrap()];
    let mut second = CredsManager::new(false);
    let result = second.load_users_from_file(&lines);
    assert!(result.is_success);
    assert_eq!(result.message, "Users loaded successfully");
    assert!(second.authenticate("admin", "123456"));
    assert!(second.authenticate("dev", "hunter2"));
    assert!(!second.authenticate("dev", "123456"));
    assert_eq!(second.get_user("dev").password, first.users[1].password);
    assert_eq!(second.get_user("dev").role, RoleManagement::Developer);
}

#[test]
fn reading_the_users_file_stops_at_a_line_that_names_no_user() {
    let mut manager = CredsManager::new(false);
    let lines = vec![text("a:[1, 2]:admin"), text("b:[3]:wizard"), text("c:[4]:developer")];
    let result = manager.load_users_from_file(&lines);
    assert!(!result.is_success);
    assert_eq!(result.message, "invalid role format");
    assert_eq!(manager.users.len(), 1);
    assert_eq!(manager.users[0].username, "a");
    assert_eq!(manager.users[0].password, vec![1, 2]);

    let mut other = CredsManager::new(false);
    let short = vec![text("a:[1]:admin"), text("only:two"), text("c:[4]:developer")];
    let failed = other.load_users_from_file(&short);
    assert!(!failed.is_success);
    assert_eq!(failed.message, "invalid line format");
    assert_eq!(other.users.len(), 1);
    let long = vec![text("a:b:c:d")];
    assert_eq!(other.load_users_from_file(&long).message, "invalid line format");
    assert_eq!(other.load_users_from_file(&vec![text("")]).message, "invalid line format");
    assert!(other.load_users_from_file(&vec![]).is_success);
}

#[test]
fn a_password_byte_that_cannot_be_read_counts_as_zero() {
    let field: Vec<char> = "[1, x, 300, 4]".chars().collect();
    assert_eq!(parse_password(&field), vec![1, 0, 0, 4]);
    let tight: Vec<char> = "[7,8]".chars().collect();
    assert_eq!(parse_password(&tight), vec![7, 8]);
    let empty: Vec<char> = "[]".chars().collect();
    assert_eq!(parse_password(&empty), vec![0]);
}

#[test]
fn lines_that_begin_with_the_name_are_taken_out_of_the_users_file() {
    let manager = CredsManager::new(false);
    let lines = vec![
        text("al:[1]:Admin"),
        text("bo:[2]:Developer"),
        text("alice:[3]:Developer"),
        text("x:al:[4]"),
        text(""),
    ];
    assert_eq!(
        manager.remove_user_from_file(&lines, "al"),
        vec![text("bo:[2]:Developer"), text("x:al:[4]"), text("")]
    );
    assert_eq!(manager.remove_user_from_file(&lines, "nobody"), lines);
    assert_eq!(manager.remove_user_from_file(&lines, ""), Vec::<String>::new());
}

#[test]
fn an_authorization_carries_a_name_and_a_password() {
    assert_eq!(credentials("YWRtaW46MTIzNDU2"), Some((text("admin"), text("123456"))));
    assert_eq!(credentials("YTpiOmM="), Some((text("a"), text("b"))));
    assert_eq!(credentials("Og=="), Some((text(""), text(""))));
    assert_eq!(credentials("YWRtaW4="), None);
    assert_eq!(credentials("not base64"), None);
    assert_eq!(credentials(""), None);
}

#[test]
fn an_authorization_is_granted_to_a_known_user_with_the_right_password() {
    let manager = manager_with(&[("admin", "123456", RoleManagement::Admin)]);
    assert!(authorized(&manager, "YWRtaW46MTIzNDU2"));
    assert!(!authorized(&manager, "YWRtaW46MTIzNDU3"));
    assert!(!authorized(&manager, "YWRtaW4="));
    assert!(!authorized(&manager, "garbage"));
    assert!(!authorized(&CredsManager::new(false), "YWRtaW46MTIzNDU2"));
}
