//! Rendering of the reply line sent back to the chat after a vote: the
//! rated user's display name followed by the new rating.

use vstd::prelude::*;

use crate::message::UserInfo;
use crate::message::spec_display_name;

verus! {

/// The decimal digit for a value below ten.
pub open spec fn digit_char(d: int) -> char {
    if d == 0 {
        '0'
    } else if d == 1 {
        '1'
    } else if d == 2 {
        '2'
    } else if d == 3 {
        '3'
    } else if d == 4 {
        '4'
    } else if d == 5 {
        '5'
    } else if d == 6 {
        '6'
    } else if d == 7 {
        '7'
    } else if d == 8 {
        '8'
    } else {
        '9'
    }
}

/// The decimal digits of a nonnegative value, most significant first.
pub open spec fn dec_str(n: int) -> Seq<char>
    decreases n,
{
    if n <= 9 {
        seq![digit_char(n)]
    } else {
        dec_str(n / 10) + seq![digit_char(n % 10)]
    }
}

/// The decimal rendering of a rating, with a leading minus sign when it
/// is negative.
pub open spec fn spec_rating_str(n: int) -> Seq<char> {
    if n < 0 {
        seq!['-'] + dec_str(-n)
    } else {
        dec_str(n)
    }
}

/// The reply line announcing a user's new rating.
pub open spec fn spec_rating_reply(user: UserInfo, rating: int) -> Seq<char> {
    spec_display_name(user) + "'s rating is now "@ + spec_rating_str(rating)
}

/// Append one decimal digit character.
fn push_digit(s: &mut String, d: u64)
    requires
        d < 10,
    ensures
        final (s)@ == old(s)@ + seq![digit_char(d as int)],
{
    match d {
        0 => {
            proof {
                reveal_strlit("0");
                assert("0"@ =~= seq![digit_char(0)]);
            }
            s.append("0");
        },
        1 => {
            proof {
                reveal_strlit("1");
                assert("1"@ =~= seq![digit_char(1)]);
            }
            s.append("1");
        },
        2 => {
            proof {
                reveal_strlit("2");
                assert("2"@ =~= seq![digit_char(2)]);
            }
            s.append("2");
        },
        3 => {
            proof {
                reveal_strlit("3");
                assert("3"@ =~= seq![digit_char(3)]);
            }
            s.append("3");
        },
        4 => {
            proof {
                reveal_strlit("4");
                assert("4"@ =~= seq![digit_char(4)]);
            }
            s.append("4");
        },
        5 => {
            proof {
                reveal_strlit("5");
                assert("5"@ =~= seq![digit_char(5)]);
            }
            s.append("5");
        },
        6 => {
            proof {
                reveal_strlit("6");
                assert("6"@ =~= seq![digit_char(6)]);
            }
            s.append("6");
        },
        7 => {
            proof {
                reveal_strlit("7");
                assert("7"@ =~= seq![digit_char(7)]);
            }
            s.append("7");
        },
        8 => {
            proof {
                reveal_strlit("8");
                assert("8"@ =~= seq![digit_char(8)]);
            }
            s.append("8");
        },
        _ => {
            proof {
                reveal_strlit("9");
                assert("9"@ =~= seq![digit_char(9)]);
            }
            s.append("9");
        },
    }
}

/// Append the decimal digits of a nonnegative value.
fn append_decimal(s: &mut String, n: u64)
    ensures
        final (s)@ == old(s)@ + dec_str(n as int),
    decreases n,
{
    if n <= 9 {
        push_digit(s, n);
    } else {
        let ghost before = s@;
        append_decimal(s, n / 10);
        push_digit(s, n % 10);
        proof {
            assert(s@ =~= before + dec_str(n as int));
        }
    }
}

/// The decimal rendering of a rating, with a leading minus sign when it
/// is negative.
pub fn rating_string(rating: i64) -> (r: String)
    ensures
        r@ == spec_rating_str(rating as int),
{
    let mut s = String::new();
    if rating < 0 {
        proof {
            reveal_strlit("-");
            assert("-"@ =~= seq!['-']);
        }
        s.append("-");
        let mag: u64 = ((-(rating + 1)) as u64) + 1;
        proof {
            assert(mag as int == -(rating as int));
        }
        append_decimal(&mut s, mag);
        proof {
            assert(s@ =~= seq!['-'] + dec_str(-(rating as int)));
        }
    } else {
        append_decimal(&mut s, rating as u64);
        proof {
            assert(s@ =~= dec_str(rating as int));
        }
    }
    s
}

/// The reply line sent back to the chat: the rated user's display name
/// followed by the new rating.
pub fn rating_reply(user: &UserInfo, rating: i64) -> (r: String)
    ensures
        r@ == spec_rating_reply(*user, rating as int),
{
    let mut s = user.display_name();
    s.append("'s rating is now ");
    let num = rating_string(rating);
    s.append(num.as_str());
    proof {
        assert(s@ =~= spec_rating_reply(*user, rating as int));
    }
    s
}

} // verus!
