//! wheelfs: turn FreeBSD python packages into wheels.
pub mod chars;
pub mod convert;
pub mod egg;
pub mod external;
pub mod laws;
pub mod materialize;
pub mod naming;
pub mod package;
pub mod paths;
pub mod sorted_map;
pub mod text;
pub mod wheel;
