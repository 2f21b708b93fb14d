//! Encryption of stored secrets.

pub mod crypto_service;
