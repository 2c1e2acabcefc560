//! Storage-backend building blocks of a mail store: a fixed-capacity bitset
//! for presence sets, the change-log key codec, retry-policy resolution and
//! the version clock of a transactional key-value cluster.

use vstd::prelude::*;

pub mod bitset;
pub mod clock;
pub mod log_key;
pub mod purge;
pub mod retry;
