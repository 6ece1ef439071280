//! A registry for container images, verified.
//!
//! The registry stores blobs by their SHA-256 digest, takes uploads in resumable sessions
//! of chunks, records manifests with the layers they reference and the tags that point at
//! them, counts the references on every blob, and checks on every request who asks and
//! what the scopes of the credentials allow.
//!
//! State is held as plain values: `database::DbConn` is the metadata store,
//! `storage::LocalStorageDriver` the content store. Every operation is a function on the
//! two with a contract over their mathematical models, `database::DbModel` and a map from
//! paths to bytes. What holds of every state is stated in `laws`, `session_law`,
//! `wellformed`, `links`, `order`, `scope` and `auth`, and proved there.

pub mod accounts;
pub mod action;
pub mod assoc;
pub mod auth;
pub mod blobs;
pub mod chunks;
pub mod codes;
pub mod content_discovery;
pub mod credentials;
pub mod database;
pub mod digest;
pub mod endpoints;
pub mod error;
pub mod index;
pub mod laws;
pub mod links;
pub mod manifest_store;
pub mod manifests;
pub mod order;
pub mod paths;
pub mod response;
pub mod rows;
pub mod scope;
pub mod screens;
pub mod session_law;
pub mod shared;
pub mod storage;
pub mod storage_driver;
pub mod table;
pub mod text;
pub mod uploads;
pub mod users;
pub mod util;
pub mod wellformed;
