use rating_bot::message::UserInfo;
use rating_bot::reply::rating_reply;
use rating_bot::reply::rating_string;

#[test]
fn rating_renders_in_decimal() {
    assert_eq!(rating_string(0), "0");
    assert_eq!(rating_string(7), "7");
    assert_eq!(rating_string(42), "42");
    assert_eq!(rating_string(-3), "-3");
    assert_eq!(rating_string(1234567890), "1234567890");
}

#[test]
fn rating_renders_at_the_bounds() {
    assert_eq!(rating_string(i64::MAX), "9223372036854775807");
    assert_eq!(rating_string(i64::MIN), "-9223372036854775808");
}

#[test]
fn username_becomes_mention() {
    let u = UserInfo {
        id: 2,
        username: Some("bob".to_string()),
        first_name: "Bob".to_string(),
        last_name: None,
    };
    assert_eq!(u.display_name(), "@bob");
}

#[test]
fn full_name_without_username() {
    let u = UserInfo {
        id: 2,
        username: None,
        first_name: "Ann".to_string(),
        last_name: Some("Smith".to_string()),
    };
    assert_eq!(u.display_name(), "Ann Smith");
    let u = UserInfo {
        id: 2,
        username: None,
        first_name: "Ann".to_string(),
        last_name: None,
    };
    assert_eq!(u.display_name(), "Ann");
}

#[test]
fn reply_line_announces_the_new_rating() {
    let u = UserInfo {
        id: 2,
        username: Some("bob".to_string()),
        first_name: "Bob".to_string(),
        last_name: None,
    };
    assert_eq!(rating_reply(&u, 5), "@bob's rating is now 5");
    let u = UserInfo {
        id: 3,
        username: None,
        first_name: "Ann".to_string(),
        last_name: Some("Smith".to_string()),
    };
    assert_eq!(rating_reply(&u, -2), "Ann Smith's rating is now -2");
}
