//! A documentation server library built around a verified streaming
//! search-and-replace filter: a chunked byte stream is passed through
//! unchanged except that every leftmost, non-overlapping occurrence of a
//! fixed non-empty needle is replaced by a fixed replacement, even when an
//! occurrence straddles arbitrary chunk boundaries.

pub mod cargo_book;
pub mod cargo_docs;
pub mod chunks;
pub mod engine;
pub mod freezer;
pub mod locate;
pub mod matcher;
pub mod replace_spec;
pub mod tower;
