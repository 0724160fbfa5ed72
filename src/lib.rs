pub mod slice;
pub mod primitives;
pub mod frame;
pub mod block;
pub mod letter;
pub mod models;
pub mod api;
pub mod routes;
pub mod db;
pub mod reqs;
