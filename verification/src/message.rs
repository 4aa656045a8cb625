//! The shape of an incoming chat message, reduced to the fields that vote
//! classification reads: who sent it, what it replies to, and its votable
//! content. The transport layer converts its own message type into these
//! values before calling into the library.

use vstd::prelude::*;

verus! {

/// A resolvable chat participant: a numeric identity plus the parts that
/// make up a display name.
#[derive(Clone, Debug, PartialEq, Eq)]
pub struct UserInfo {
    pub id: i64,
    pub username: Option<String>,
    pub first_name: String,
    pub last_name: Option<String>,
}

/// The media kinds that carry an optional caption usable as votable text.
#[derive(Clone, Copy, Debug, PartialEq, Eq, Structural)]
pub enum CaptionKind {
    Animation,
    Audio,
    Photo,
    Video,
    Voice,
    Document,
}

/// What a message holds: plain text, captioned media, or content that can
/// never carry a vote.
#[derive(Clone, Debug, PartialEq, Eq)]
pub enum MessageContent {
    Text(String),
    Captioned(CaptionKind, Option<String>),
    Other,
}

/// The message being replied to, as far as classification cares: its
/// author, when that author is resolvable.
#[derive(Clone, Debug, PartialEq, Eq)]
pub struct RepliedMessage {
    pub sender: Option<UserInfo>,
}

/// An incoming message together with its reply context.
#[derive(Clone, Debug, PartialEq, Eq)]
pub struct ChatMessage {
    pub chat_id: i64,
    pub sender: Option<UserInfo>,
    pub forwarded: bool,
    pub reply_to: Option<RepliedMessage>,
    pub content: MessageContent,
}

/// The name a reply addresses a user by: `@username` when a username is
/// set, otherwise first name followed by last name when one is present.
pub open spec fn spec_display_name(user: UserInfo) -> Seq<char> {
    match user.username {
        Some(name) => seq!['@'] + name@,
        None => match user.last_name {
            Some(last) => user.first_name@ + seq![' '] + last@,
            None => user.first_name@,
        },
    }
}

impl UserInfo {
    /// The mention handle when available, else the full name.
    pub fn display_name(&self) -> (r: String)
        ensures
            r@ == spec_display_name(*self),
    {
        match &self.username {
            Some(name) => {
                let mut s = "@".to_owned();
                proof {
                    reveal_strlit("@");
                }
                s.append(name.as_str());
                proof {
                    assert(s@ =~= seq!['@'] + name@);
                }
                s
            },
            None => match &self.last_name {
                Some(last) => {
                    let mut s = self.first_name.clone();
                    proof {
                        reveal_strlit(" ");
                    }
                    s.append(" ");
                    s.append(last.as_str());
                    proof {
                        assert(s@ =~= self.first_name@ + seq![' '] + last@);
                    }
                    s
                },
                None => self.first_name.clone(),
            },
        }
    }
}

} // verus!
