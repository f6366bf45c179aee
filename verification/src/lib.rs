//! An in-memory key/value server core speaking the RESP wire protocol:
//! the snapshot codec, the incremental connection parser, the stores and the
//! command executor, each with a machine-checked contract.
//!
//! The library touches no socket, file or clock. Bytes that were read come
//! in, bytes to write and requests for outside work come out, and the time is
//! an argument.

pub mod broadcast_info;
pub mod byte_map;
pub mod bytes;
pub mod constants;
pub mod database;
pub mod encoding;
pub mod entry_stream;
pub mod entry_utils;
pub mod error;
pub mod handler;
pub mod header;
pub mod metadata;
pub mod print_hex;
pub mod rdb;
pub mod redis_connection;
pub mod redis_list;
pub mod redis_sorted_set;
pub mod redis_subscriber;
pub mod resp_parser;
pub mod types;
pub mod utils;

pub use error::{RdbError, Result};
pub use rdb::{read_rdb, write_rdb};
pub use types::{Expiration, RdbFile, RedisDatabase, RedisValue};
