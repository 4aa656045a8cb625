use rating_bot::RatingUpdate;
use rating_bot::extract::ReplyCmd;
use rating_bot::extract::extract_command;
use rating_bot::extract::is_dialogue;
use rating_bot::message::CaptionKind;
use rating_bot::message::ChatMessage;
use rating_bot::message::MessageContent;
use rating_bot::message::RepliedMessage;
use rating_bot::message::UserInfo;

fn user(id: i64, first_name: &str) -> UserInfo {
    UserInfo { id, username: None, first_name: first_name.to_string(), last_name: None }
}

fn reply_message(
    chat_id: i64,
    sender: Option<UserInfo>,
    replied_sender: Option<UserInfo>,
    content: MessageContent,
) -> ChatMessage {
    ChatMessage {
        chat_id,
        sender,
        forwarded: false,
        reply_to: Some(RepliedMessage { sender: replied_sender }),
        content,
    }
}

fn text_content(text: &str) -> MessageContent {
    MessageContent::Text(text.to_string())
}

#[test]
fn test_dialogue() {
    assert_eq!(is_dialogue("- hello\n - goodbye"), true);
    assert_eq!(is_dialogue("- hello\n - goodbye\n"), true);
    assert_eq!(is_dialogue("- hello"), false);
    assert_eq!(is_dialogue("\n"), false);
    assert_eq!(is_dialogue(""), false);
}

#[test]
fn dialogue_without_indent() {
    assert_eq!(is_dialogue("- hello\n- goodbye"), true);
}

#[test]
fn self_vote_is_rejected() {
    let m = reply_message(7, Some(user(1, "ann")), Some(user(1, "ann")), text_content("+1"));
    assert_eq!(extract_command(m), None);
    let m = reply_message(7, Some(user(1, "ann")), Some(user(1, "ann")), text_content("-1"));
    assert_eq!(extract_command(m), None);
}

#[test]
fn plus_text_increments() {
    let m = reply_message(7, Some(user(1, "ann")), Some(user(2, "bob")), text_content("+1"));
    let cmd = extract_command(m).unwrap();
    assert_eq!(
        cmd,
        ReplyCmd { chat_id: 7, user: user(2, "bob"), update: RatingUpdate::Inc },
    );
}

#[test]
fn minus_text_decrements() {
    let m = reply_message(7, Some(user(1, "ann")), Some(user(2, "bob")), text_content("-1"));
    let cmd = extract_command(m).unwrap();
    assert_eq!(cmd.update, RatingUpdate::Dec);
    assert_eq!(cmd.chat_id, 7);
    assert_eq!(cmd.user.id, 2);
}

#[test]
fn other_leading_character_is_no_vote() {
    let m = reply_message(7, Some(user(1, "ann")), Some(user(2, "bob")), text_content("hello"));
    assert_eq!(extract_command(m), None);
    let m = reply_message(7, Some(user(1, "ann")), Some(user(2, "bob")), text_content(""));
    assert_eq!(extract_command(m), None);
    let m = reply_message(7, Some(user(1, "ann")), Some(user(2, "bob")), text_content("\n"));
    assert_eq!(extract_command(m), None);
}

#[test]
fn dialogue_transcript_is_no_vote() {
    let m = reply_message(
        7,
        Some(user(1, "ann")),
        Some(user(2, "bob")),
        text_content("- hello\n- goodbye"),
    );
    assert_eq!(extract_command(m), None);
}

#[test]
fn single_dialogue_line_is_a_downvote() {
    let m = reply_message(7, Some(user(1, "ann")), Some(user(2, "bob")), text_content("- hello"));
    let cmd = extract_command(m).unwrap();
    assert_eq!(cmd.update, RatingUpdate::Dec);
}

#[test]
fn photo_without_caption_is_no_vote() {
    let m = reply_message(
        7,
        Some(user(1, "ann")),
        Some(user(2, "bob")),
        MessageContent::Captioned(CaptionKind::Photo, None),
    );
    assert_eq!(extract_command(m), None);
}

#[test]
fn photo_caption_votes() {
    let m = reply_message(
        7,
        Some(user(1, "ann")),
        Some(user(2, "bob")),
        MessageContent::Captioned(CaptionKind::Photo, Some("+great shot".to_string())),
    );
    let cmd = extract_command(m).unwrap();
    assert_eq!(cmd.update, RatingUpdate::Inc);
    assert_eq!(cmd.user.id, 2);
}

#[test]
fn other_content_is_no_vote() {
    let m = reply_message(7, Some(user(1, "ann")), Some(user(2, "bob")), MessageContent::Other);
    assert_eq!(extract_command(m), None);
}

#[test]
fn forwarded_message_is_no_vote() {
    let mut m = reply_message(7, Some(user(1, "ann")), Some(user(2, "bob")), text_content("+1"));
    m.forwarded = true;
    assert_eq!(extract_command(m), None);
}

#[test]
fn top_level_message_is_no_vote() {
    let m = ChatMessage {
        chat_id: 7,
        sender: Some(user(1, "ann")),
        forwarded: false,
        reply_to: None,
        content: text_content("+1"),
    };
    assert_eq!(extract_command(m), None);
}

#[test]
fn anonymous_authors_are_no_vote() {
    let m = reply_message(7, None, Some(user(2, "bob")), text_content("+1"));
    assert_eq!(extract_command(m), None);
    let m = reply_message(7, Some(user(1, "ann")), None, text_content("+1"));
    assert_eq!(extract_command(m), None);
}
