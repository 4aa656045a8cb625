//! A chat-bot library that keeps a per-chat, per-user reputation counter.
//!
//! A participant votes on another participant by replying to one of their
//! messages with text whose first character is `+` or `-`. The library
//! classifies an incoming message into an optional vote command, guards
//! against self-votes and quoted dialogue transcripts, applies the vote to
//! the counter store through a single atomic upsert, and renders the reply
//! line that announces the new rating.

use vstd::prelude::*;

pub mod extract;
pub mod message;
pub mod reply;
pub mod store;

verus! {

/// The two directions a vote can take a rating.
#[derive(Clone, Copy, Debug, PartialEq, Eq, Structural)]
pub enum RatingUpdate {
    Dec,
    Inc,
}

/// The amount a single vote adds to a rating.
pub open spec fn delta_of(update: RatingUpdate) -> int {
    match update {
        RatingUpdate::Dec => -1,
        RatingUpdate::Inc => 1,
    }
}

} // verus!
