//! Watches a feed of hauntings, tells new ones from those that were announced
//! already, and hands them in batches to the subscribers' webhooks.
//!
//! The library decides; its host does the input and output. The watch loop and the
//! dispatch of a batch are state machines: each hands out a task, the host performs
//! it and reports what came of it, and the machine says what is to be done next.

pub mod calendar;
pub mod category;
pub mod cycle;
pub mod dispatch;
pub mod embed;
pub mod hauntings;
pub mod players;
pub mod seeding;
pub mod store;
pub mod text;
pub mod watch;
