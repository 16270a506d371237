//! What the subsystems share.

pub mod listener;
pub mod seqs;

pub use self::listener::EventListener;
