//! Verified rules of a self-hosted identity provider.
pub mod browser;
pub mod engine;
pub mod error;
pub mod exchange;
pub mod headers;
pub mod issuer;
pub mod jose;
pub mod json;
pub mod keyring;
pub mod kms;
pub mod ldap_server;
pub mod lifecycle;
pub mod logout;
pub mod migration;
pub mod model;
pub mod mtls;
pub mod names;
pub mod offboarding;
pub mod oidc;
pub mod operations;
pub mod outpost;
pub mod pam;
pub mod passkey;
pub mod password_history;
pub mod portal;
pub mod postgres_store;
pub mod provider;
pub mod provisioning;
pub mod proxy_server;
pub mod radius;
pub mod registration;
pub mod reports;
pub mod resource;
pub mod outside;
pub mod rules;
pub mod store;
pub mod table;
pub mod text;
pub mod timeline;
pub mod trust;
