//! A per-user file-storage core that keeps a relational catalog of bucket and
//! file rows consistent with a blob store of directories and file bytes.
//!
//! The two halves live in [`catalog`] and [`blob`]; [`store`] drives them as
//! one state, ordering every operation so that no failure leaves the two in
//! contradiction: a failed bucket creation rolls its directory back, an
//! upload makes its blob durable before the row appears and removes it again
//! if the insert fails, and deletions drop rows before blobs or directories.
//! Each operation takes the pattern of backend faults it suffers as an
//! argument, so the compensation rules are verified for every failure
//! pattern; [`laws`] states and proves what the operations guarantee when
//! composed. [`user_info`] holds the salted-digest credential scheme and
//! [`jwt_token`] the bearer-token claims that identify a caller.

pub mod blob;
pub mod bucket;
pub mod catalog;
pub mod digest;
pub mod jwt_token;
pub mod laws;
pub mod store;
pub mod user_file;
pub mod user_info;
pub mod utility;
