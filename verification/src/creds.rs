//! Users, their roles and their passwords.

pub mod acl_add_user;
pub mod auth;
pub mod cred_manager;
pub mod cred_users;
pub mod del_user;
pub mod load_user_from_file;
pub mod remove_user_from_cred_file;
pub mod role_manager;
pub mod who_am_i;
