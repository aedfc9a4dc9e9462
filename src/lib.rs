//! An in-process message queue with visibility leases, bounded retry and
//! dead-letter routing.
pub mod dead_letter_queue;
pub mod message;
pub mod queue;
pub mod visibility;

pub use dead_letter_queue::DeadLetterQueue;
pub use message::Message;
pub use queue::MessageQueue;
pub use visibility::VisibilityControl;
