//! Issue delivery: validation of stored subscriber data, the mail request that
//! one delivery sends, a lock-based work queue of delivery tasks, and the
//! decisions of the background worker that drains it.
pub mod domain;
pub mod mail;
pub mod newsletter;
pub mod queue;
pub mod subscriber;
pub mod worker;
