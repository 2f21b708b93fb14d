//! The clustered store and the operations on it.

pub mod cache;
pub mod clear_all;
pub mod clear_cluster;
pub mod clear_expired;
pub mod decr;
pub mod delete;
pub mod evict;
pub mod exist_key;
pub mod expire_key;
pub mod get;
pub mod get_all_clusters;
pub mod get_cluster_keys;
pub mod get_del;
pub mod get_range;
pub mod incr;
pub mod keys_count;
pub mod mget;
pub mod model;
pub mod move_cluster;
pub mod move_del_cluster;
pub mod scan;
pub mod set;
pub mod set_cluster;
pub mod shape;
pub mod strlen;
pub mod text;
pub mod type_of_key;

pub use cache::Cache;
