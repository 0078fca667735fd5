//! An append-only, hash-linked event log.
//!
//! Each event commits to its own payload and, through a parent digest, to the
//! entire history preceding it.  A [`fragment::Fragment`] stores one
//! observer's locally known slice of such a chain together with its current
//! tip, and a [`fragment::Chain`] walks that slice backwards from tip to
//! origin.

pub mod event;
pub mod fragment;
pub mod hash;
pub mod summary;
