//! Classification of an incoming message into an optional vote command:
//! the message must be an unforwarded reply between two distinct resolvable
//! users, its votable text decides the direction, and multi-line quoted
//! dialogue transcripts are never read as votes.

use vstd::prelude::*;

use crate::RatingUpdate;
use crate::message::ChatMessage;
use crate::message::MessageContent;
use crate::message::UserInfo;

verus! {

/// A vote command: who to rate, in which chat, and in which direction.
#[derive(Clone, Debug, PartialEq, Eq)]
pub struct ReplyCmd {
    pub chat_id: i64,
    pub user: UserInfo,
    pub update: RatingUpdate,
}

/// The characters Rust's `char::is_whitespace` recognizes, which is what
/// leading-whitespace trimming removes from a line.
pub open spec fn is_white(c: char) -> bool {
    let u = c as u32;
    u == 0x09 || u == 0x0A || u == 0x0B || u == 0x0C || u == 0x0D || u == 0x20 || u == 0x85
        || u == 0xA0 || u == 0x1680 || (0x2000 <= u && u <= 0x200A) || u == 0x2028 || u == 0x2029
        || u == 0x202F || u == 0x205F || u == 0x3000
}

/// Runtime test for `is_white`.
fn is_white_char(c: char) -> (b: bool)
    ensures
        b == is_white(c),
{
    let u: u32 = c as u32;
    u == 0x09 || u == 0x0A || u == 0x0B || u == 0x0C || u == 0x0D || u == 0x20 || u == 0x85
        || u == 0xA0 || u == 0x1680 || (0x2000 <= u && u <= 0x200A) || u == 0x2028 || u == 0x2029
        || u == 0x202F || u == 0x205F || u == 0x3000
}

/// A line with its leading whitespace removed.
pub open spec fn trim_start_chars(line: Seq<char>) -> Seq<char>
    decreases line.len(),
{
    if line.len() > 0 && is_white(line[0]) {
        trim_start_chars(line.drop_first())
    } else {
        line
    }
}

/// A line that still holds something after trimming.
pub open spec fn nonblank(line: Seq<char>) -> bool {
    trim_start_chars(line).len() > 0
}

/// A speaker turn of a quoted dialogue: after trimming, the line starts
/// with the two characters `- `.
pub open spec fn dialogue_line(line: Seq<char>) -> bool {
    let t = trim_start_chars(line);
    t.len() >= 2 && t[0] == '-' && t[1] == ' '
}

/// The index of the first newline, or the length when there is none.
pub open spec fn first_nl(s: Seq<char>) -> nat
    decreases s.len(),
{
    if s.len() == 0 {
        0
    } else if s[0] == '\n' {
        0
    } else {
        1 + first_nl(s.drop_first())
    }
}

/// The lines of a text, split on newline characters. A text without a
/// newline is a single line; every newline separates two lines, so a
/// trailing newline yields a final empty line.
pub open spec fn split_lines(s: Seq<char>) -> Seq<Seq<char>>
    decreases s.len(),
{
    let i = first_nl(s) as int;
    if i >= s.len() {
        seq![s]
    } else {
        seq![s.subrange(0, i)] + split_lines(s.subrange(i + 1, s.len() as int))
    }
}

/// How many lines are nonblank.
pub open spec fn nonblank_count(lines: Seq<Seq<char>>) -> int
    decreases lines.len(),
{
    if lines.len() == 0 {
        0
    } else {
        nonblank_count(lines.drop_last()) + if nonblank(lines.last()) {
            1int
        } else {
            0int
        }
    }
}

/// Every nonblank line among the first `k` is a dialogue speaker turn.
pub open spec fn dialogue_prefix(lines: Seq<Seq<char>>, k: int) -> bool {
    forall|i: int| 0 <= i < k ==> (nonblank(#[trigger] lines[i]) ==> dialogue_line(lines[i]))
}

/// Every nonblank line is a dialogue speaker turn.
pub open spec fn all_dialogue(lines: Seq<Seq<char>>) -> bool {
    dialogue_prefix(lines, lines.len() as int)
}

/// A quoted dialogue transcript: more than one nonblank line, and every
/// nonblank line is a speaker turn.
pub open spec fn spec_is_dialogue(s: Seq<char>) -> bool {
    nonblank_count(split_lines(s)) > 1 && all_dialogue(split_lines(s))
}

/// A count capped at two: the classification only cares whether more than
/// one line is nonblank.
spec fn cap2(x: int) -> int {
    if x >= 2 {
        2
    } else {
        x
    }
}

/// `first_nl` is the scan's stopping point: no newline before it, and a
/// newline or the end at it.
proof fn lemma_first_nl_at(s: Seq<char>, j: int)
    requires
        0 <= j <= s.len(),
        forall|i: int| 0 <= i < j ==> #[trigger] s[i] != '\n',
        j == s.len() || s[j] == '\n',
    ensures
        first_nl(s) == j,
    decreases j,
{
    if j == 0 {
    } else {
        assert(s[0] != '\n');
        assert forall|i: int| 0 <= i < j - 1 implies #[trigger] s.drop_first()[i] != '\n' by {
            assert(s.drop_first()[i] == s[i + 1]);
        }
        if j < s.len() {
            assert(s.drop_first()[j - 1] == s[j]);
        }
        lemma_first_nl_at(s.drop_first(), j - 1);
    }
}

/// Trimming removes exactly the leading run of whitespace: when the first
/// `m` characters are white and the next one is not, the trimmed line is
/// the line from `m` on.
proof fn lemma_trim_at(line: Seq<char>, m: int)
    requires
        0 <= m <= line.len(),
        forall|i: int| 0 <= i < m ==> is_white(#[trigger] line[i]),
        m == line.len() || !is_white(line[m]),
    ensures
        trim_start_chars(line) == line.skip(m),
    decreases m,
{
    if m == 0 {
        assert(line.skip(0) =~= line);
    } else {
        assert(is_white(line[0]));
        assert forall|i: int| 0 <= i < m - 1 implies is_white(#[trigger] line.drop_first()[i]) by {
            assert(line.drop_first()[i] == line[i + 1]);
        }
        if m < line.len() {
            assert(line.drop_first()[m - 1] == line[m]);
        }
        lemma_trim_at(line.drop_first(), m - 1);
        assert(line.drop_first().skip(m - 1) =~= line.skip(m));
    }
}

/// Whether a text is a quoted dialogue transcript: split into lines, more
/// than one is nonblank and every nonblank one starts (after trimming)
/// with `- `.
pub fn is_dialogue(text: &str) -> (b: bool)
    ensures
        b == spec_is_dialogue(text@),
{
    let ghost s = text@;
    let ghost ls = split_lines(s);
    let n: usize = text.unicode_len();
    let mut pos: usize = 0;
    let ghost mut li: int = 0;
    let mut count: u64 = 0;
    let mut all_ok: bool = true;
    proof {
        assert(s.subrange(0, n as int) =~= s);
        assert(ls.subrange(0, ls.len() as int) =~= ls);
    }
    loop
        invariant_except_break
            pos <= n,
            split_lines(s.subrange(pos as int, n as int)) == ls.subrange(li, ls.len() as int),
        invariant
            n == s.len(),
            s == text@,
            ls == split_lines(s),
            0 <= li <= ls.len(),
            count == cap2(nonblank_count(ls.subrange(0, li))),
            all_ok == dialogue_prefix(ls, li),
        ensures
            li == ls.len(),
        decreases n - pos,
    {
        let ghost rem = s.subrange(pos as int, n as int);

        // Find the end of the current line.
        let mut j: usize = pos;
        while j < n && !(text.get_char(j) == '\n')
            invariant
                pos <= j <= n,
                n == s.len(),
                s == text@,
                forall|i: int| pos <= i < j ==> #[trigger] s[i] != '\n',
            decreases n - j,
        {
            j = j + 1;
        }
        proof {
            assert forall|i: int| 0 <= i < j - pos implies #[trigger] rem[i] != '\n' by {
                assert(rem[i] == s[pos + i]);
            }
            if j < n {
                assert(rem[j - pos] == s[j as int]);
            }
            lemma_first_nl_at(rem, j - pos);
        }
        let ghost line = s.subrange(pos as int, j as int);
        proof {
            assert(ls.subrange(li, ls.len() as int).len() >= 1);
            if j == n {
                assert(rem =~= line);
                assert(split_lines(rem) == seq![line]);
                assert(ls.subrange(li, ls.len() as int)[0] == ls[li]);
                assert(ls[li] == line);
            } else {
                assert(rem.subrange(0, j - pos) =~= line);
                assert(rem.subrange(j - pos + 1, rem.len() as int) =~= s.subrange(
                    j + 1,
                    n as int,
                ));
                let tail = split_lines(s.subrange(j + 1, n as int));
                assert(split_lines(rem) == seq![line] + tail);
                assert((seq![line] + tail)[0] == line);
                assert(ls.subrange(li, ls.len() as int)[0] == ls[li]);
                assert(ls[li] == line);
                assert forall|x: int| 0 <= x < tail.len() implies tail[x] == ls.subrange(
                    li + 1,
                    ls.len() as int,
                )[x] by {
                    assert((seq![line] + tail)[x + 1] == tail[x]);
                    assert(ls.subrange(li, ls.len() as int)[x + 1] == ls[li + 1 + x]);
                    assert(ls.subrange(li + 1, ls.len() as int)[x] == ls[li + 1 + x]);
                }
                assert(tail =~= ls.subrange(li + 1, ls.len() as int));
            }
        }

        // Trim the line's leading whitespace.
        let mut k: usize = pos;
        while k < j && is_white_char(text.get_char(k))
            invariant
                pos <= k <= j <= n,
                n == s.len(),
                s == text@,
                forall|i: int| pos <= i < k ==> is_white(#[trigger] s[i]),
            decreases j - k,
        {
            k = k + 1;
        }
        proof {
            assert forall|i: int| 0 <= i < k - pos implies is_white(#[trigger] line[i]) by {
                assert(line[i] == s[pos + i]);
            }
            if k < j {
                assert(line[k - pos] == s[k as int]);
            }
            lemma_trim_at(line, k - pos);
            assert(line.skip(k - pos) =~= s.subrange(k as int, j as int));
        }

        // Classify the line and fold it into the counters.
        let line_nonblank = k < j;
        let mut line_dialogue = false;
        if k < j && text.get_char(k) == '-' {
            if k + 1 < j && text.get_char(k + 1) == ' ' {
                line_dialogue = true;
            }
        }
        proof {
            assert(trim_start_chars(line) == s.subrange(k as int, j as int));
            assert(nonblank(line) == line_nonblank);
            assert(dialogue_line(line) == line_dialogue);
        }
        if line_nonblank {
            if count < 2 {
                count = count + 1;
            }
            if !line_dialogue {
                all_ok = false;
            }
        }
        proof {
            assert(ls.subrange(0, li + 1).drop_last() =~= ls.subrange(0, li));
            assert(ls.subrange(0, li + 1).last() == ls[li]);
            li = li + 1;
        }
        if j == n {
            proof {
                assert(ls.subrange(li - 1, ls.len() as int).len() == 1);
                assert(li == ls.len());
            }
            break;
        } else {
            pos = j + 1;
        }
    }
    proof {
        assert(ls.subrange(0, ls.len() as int) =~= ls);
    }
    count > 1 && all_ok
}

/// The text a vote is read from: the message text, a caption, the empty
/// string for captioned media without a caption, or nothing for content
/// that cannot carry a vote.
pub open spec fn votable_text(content: MessageContent) -> Option<Seq<char>> {
    match content {
        MessageContent::Text(t) => Some(t@),
        MessageContent::Captioned(_, Some(c)) => Some(c@),
        MessageContent::Captioned(_, None) => Some(Seq::empty()),
        MessageContent::Other => None,
    }
}

/// The direction a votable text asks for: a leading `+` increments, a
/// leading `-` decrements unless the text is a dialogue transcript, and
/// anything else is no vote.
///
/// The transcript test stands after the `+` test, so it only ever guards
/// would-be downvotes. The placement makes no difference: a transcript's
/// first line starts (after trimming) with `- `, so a transcript can
/// never begin with `+` — `lemma_dialogue_never_votes` proves that an
/// unconditional guard would classify every text the same way.
pub open spec fn vote_sign(t: Seq<char>) -> Option<RatingUpdate> {
    if t.len() > 0 && t[0] == '+' {
        Some(RatingUpdate::Inc)
    } else if spec_is_dialogue(t) {
        None
    } else if t.len() > 0 && t[0] == '-' {
        Some(RatingUpdate::Dec)
    } else {
        None
    }
}

/// The whole classification: an unforwarded reply, both authors
/// resolvable and distinct, votable content, and a sign; the command
/// targets the replied-to author in the message's chat.
pub open spec fn spec_extract(m: ChatMessage) -> Option<ReplyCmd> {
    if m.forwarded || m.reply_to is None || m.sender is None
        || m.reply_to->Some_0.sender is None {
        None
    } else if m.sender->Some_0.id == m.reply_to->Some_0.sender->Some_0.id {
        None
    } else {
        match votable_text(m.content) {
            None => None,
            Some(t) => match vote_sign(t) {
                None => None,
                Some(update) => Some(
                    ReplyCmd {
                        chat_id: m.chat_id,
                        user: m.reply_to->Some_0.sender->Some_0,
                        update,
                    },
                ),
            },
        }
    }
}

/// Classify a message into an optional vote command, as `spec_extract`
/// describes.
pub fn extract_command(message: ChatMessage) -> (r: Option<ReplyCmd>)
    ensures
        r == spec_extract(message),
{
    let ghost m0 = message;
    if message.forwarded {
        return None;
    }
    let author_id: i64 = match &message.sender {
        Some(author) => author.id,
        None => {
            return None;
        },
    };
    let replied_author_id: i64 = match &message.reply_to {
        Some(replied) => match &replied.sender {
            Some(user) => user.id,
            None => {
                return None;
            },
        },
        None => {
            return None;
        },
    };
    if author_id == replied_author_id {
        return None;
    }
    let text: &str = match &message.content {
        MessageContent::Text(t) => t.as_str(),
        MessageContent::Captioned(_, Some(c)) => c.as_str(),
        MessageContent::Captioned(_, None) => "",
        MessageContent::Other => {
            return None;
        },
    };
    proof {
        reveal_strlit("");
        assert(""@ =~= Seq::<char>::empty());
        assert(votable_text(m0.content) == Some(text@));
    }
    let update: RatingUpdate;
    let n = text.unicode_len();
    if n > 0 && text.get_char(0) == '+' {
        update = RatingUpdate::Inc;
    } else if is_dialogue(text) {
        return None;
    } else if n > 0 && text.get_char(0) == '-' {
        update = RatingUpdate::Dec;
    } else {
        return None;
    }
    proof {
        assert(vote_sign(text@) == Some(update));
    }
    let ChatMessage { chat_id, reply_to, .. } = message;
    match reply_to {
        Some(replied) => match replied.sender {
            Some(user) => Some(ReplyCmd { chat_id, user, update }),
            None => None,
        },
        None => None,
    }
}

/// A user can never vote on themselves: when the replying author and the
/// replied-to author resolve to the same id, no command results, whatever
/// the text and content.
pub proof fn lemma_self_vote_rejected(m: ChatMessage)
    requires
        m.sender is Some,
        m.reply_to is Some,
        m.reply_to->Some_0.sender is Some,
        m.sender->Some_0.id == m.reply_to->Some_0.sender->Some_0.id,
    ensures
        spec_extract(m) is None,
{
}

/// Sign mapping: a leading `+` yields an increment; a leading `-` on a
/// text that is not a dialogue transcript yields a decrement; any other
/// leading character, or no character at all, yields no vote.
pub proof fn lemma_sign_mapping(t: Seq<char>)
    ensures
        t.len() > 0 && t[0] == '+' ==> vote_sign(t) == Some(RatingUpdate::Inc),
        t.len() > 0 && t[0] == '-' && !spec_is_dialogue(t) ==> vote_sign(t) == Some(
            RatingUpdate::Dec,
        ),
        t.len() == 0 || (t[0] != '+' && t[0] != '-') ==> vote_sign(t) is None,
{
}

/// A dialogue transcript is never read as a vote. In particular a
/// transcript cannot start with `+`: its first line would be a nonblank
/// line that does not start with `- `.
pub proof fn lemma_dialogue_never_votes(t: Seq<char>)
    requires
        spec_is_dialogue(t),
    ensures
        vote_sign(t) is None,
{
    if t.len() > 0 && t[0] == '+' {
        let ls = split_lines(t);
        let line = ls[0];
        assert(first_nl(t) >= 1);
        if first_nl(t) >= t.len() {
            assert(line == t);
        } else {
            assert(line == t.subrange(0, first_nl(t) as int));
        }
        assert(line.len() > 0 && line[0] == '+');
        assert(!is_white('+'));
        assert(trim_start_chars(line) == line);
        assert(nonblank(line) && !dialogue_line(line));
        assert(ls.len() > 0);
        assert(dialogue_line(line));
    }
}

} // verus!
