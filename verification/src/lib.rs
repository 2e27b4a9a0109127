//! Makes a prompt that asks how an assistant should improve, out of the recordings of its last
//! sessions.
//!
//! `recent` chooses the sessions, `session` analyzes the recording of each, `digest` sums the
//! analyses up, and `prompt` renders the digest. What they need of texts, phrases, shell commands,
//! counts and orders stands in modules of its own, and `laws` states what holds across functions.
pub mod command;
pub mod counts;
pub mod digest;
pub mod laws;
pub mod order;
pub mod phrase;
pub mod prompt;
pub mod recent;
pub mod rollout;
pub mod session;
pub mod text;
