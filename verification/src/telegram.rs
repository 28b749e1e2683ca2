//! Who gets the summary by Telegram.

use crate::text::string_views;
use crate::config::Config;
use crate::text::{chars_of, duplicate_strings};
use vstd::prelude::*;

verus! {

/// What is needed to send the summary by Telegram.
#[derive(Debug, Clone, PartialEq, Eq)]
pub struct TelegramPlan {
    pub bot_token: String,
    pub chat_ids: Vec<String>,
}

/// Telegram is due: there is at least one chat, and a bot token is set.
pub open spec fn telegram_is_due(cfg: Config) -> bool {
    &&& cfg.telegram_chat_ids matches Some(chats) && chats@.len() > 0
    &&& cfg.telegram_bot_token is Some
}

/// Decides whether the summary goes out by Telegram, and to which chats.
/// Nothing is sent where the settings name no chat or lack the bot token;
/// otherwise every chat gets a message, in the order of the settings.
pub fn telegram_plan(cfg: &Config) -> (plan: Option<TelegramPlan>)
    ensures
        match plan {
            Some(p) => {
                &&& telegram_is_due(*cfg)
                &&& p.bot_token@ == cfg.telegram_bot_token->0@
                &&& string_views(p.chat_ids@) == string_views(cfg.telegram_chat_ids->0@)
            },
            None => !telegram_is_due(*cfg),
        },
{
    let chats: &Vec<String> = match &cfg.telegram_chat_ids {
        Some(c) => c,
        None => {
            return None;
        },
    };
    if chats.len() == 0 {
        return None;
    }
    let token: &String = match &cfg.telegram_bot_token {
        Some(t) => t,
        None => {
            return None;
        },
    };
    Some(TelegramPlan { bot_token: token.clone(), chat_ids: duplicate_strings(chats) })
}

/// A decimal digit.
pub open spec fn is_digit(c: char) -> bool {
    '0' <= c <= '9'
}

/// Every character is a decimal digit.
pub open spec fn all_digits(s: Seq<char>) -> bool {
    forall|i: int| 0 <= i < s.len() ==> is_digit(#[trigger] s[i])
}

/// The number that a string of decimal digits writes.
pub open spec fn digits_value(s: Seq<char>) -> int
    decreases s.len(),
{
    if s.len() == 0 {
        0
    } else {
        digits_value(s.drop_last()) * 10 + (s.last() as int - '0' as int)
    }
}

/// The digits of a number text: what follows its sign, if it has one.
pub open spec fn digits_part(s: Seq<char>) -> Seq<char> {
    if s.len() > 0 && (s[0] == '-' || s[0] == '+') {
        s.drop_first()
    } else {
        s
    }
}

/// The number that the text writes: an optional sign and then one or more
/// decimal digits, nothing else. `None` where the text is not of that form
/// or the number does not fit an `i64`.
pub open spec fn decimal_i64(s: Seq<char>) -> Option<i64> {
    let digits = digits_part(s);
    let value = if s.len() > 0 && s[0] == '-' {
        -digits_value(digits)
    } else {
        digits_value(digits)
    };
    if digits.len() > 0 && all_digits(digits) && i64::MIN <= value <= i64::MAX {
        Some(value as i64)
    } else {
        None
    }
}

/// A string of digits writes a number at least as large as any of its
/// beginnings does.
pub proof fn lemma_digits_value_grows(s: Seq<char>, k: int)
    requires
        all_digits(s),
        0 <= k <= s.len(),
    ensures
        0 <= digits_value(s.take(k)) <= digits_value(s),
    decreases s.len(),
{
    if s.len() == 0 {
        assert(s.take(k) =~= s);
    } else if k == s.len() {
        assert(s.take(k) =~= s);
        lemma_digits_value_grows(s.drop_last(), k - 1);
        assert(s.drop_last().take(k - 1) =~= s.drop_last());
        assert(is_digit(s.last()));
    } else {
        lemma_digits_value_grows(s.drop_last(), k);
        assert(s.drop_last().take(k) =~= s.take(k));
        assert(is_digit(s.last()));
    }
}

/// Reads a chat id: a decimal number with an optional sign.
pub fn parse_chat_id(text: &str) -> (id: Option<i64>)
    ensures
        id == decimal_i64(text@),
{
    let chars: Vec<char> = chars_of(text);
    let n: usize = chars.len();
    let negative: bool = n > 0 && chars[0] == '-';
    let start: usize = if n > 0 && (chars[0] == '-' || chars[0] == '+') {
        1
    } else {
        0
    };
    let ghost digits = digits_part(text@);
    assert(digits =~= chars@.subrange(start as int, n as int));
    if start == n {
        return None;
    }
    let mut acc: i64 = 0;
    let mut k: usize = start;
    assert(digits.take(0) =~= Seq::<char>::empty());
    while k < n
        invariant
            start <= k <= n,
            n == chars.len(),
            digits == chars@.subrange(start as int, n as int),
            digits == digits_part(text@),
            negative == (text@.len() > 0 && text@[0] == '-'),
            all_digits(digits.take(k - start)),
            acc as int == -digits_value(digits.take(k - start)),
            acc <= 0,
        decreases n - k,
    {
        let c: char = chars[k];
        let ghost upto = digits.take(k - start + 1);
        proof {
            assert(upto.drop_last() =~= digits.take(k - start));
            assert(upto.last() == c);
        }
        if c < '0' || c > '9' {
            assert(!is_digit(digits[k - start]));
            return None;
        }
        let d: i64 = (c as u32 - '0' as u32) as i64;
        proof {
            if all_digits(digits) {
                lemma_digits_value_grows(digits, k - start + 1);
            }
        }
        let tens: i64 = match acc.checked_mul(10) {
            Some(t) => t,
            None => {
                assert(digits_value(upto) > i64::MAX + 1);
                return None;
            },
        };
        acc = match tens.checked_sub(d) {
            Some(t) => t,
            None => {
                assert(digits_value(upto) > i64::MAX + 1);
                return None;
            },
        };
        proof {
            assert forall|i: int| 0 <= i < upto.len() implies is_digit(#[trigger] upto[i]) by {
                if i < upto.len() - 1 {
                    assert(digits.take(k - start)[i] == upto[i]);
                }
            }
        }
        k = k + 1;
    }
    assert(digits.take(n - start) =~= digits);
    if negative {
        Some(acc)
    } else if acc == i64::MIN {
        None
    } else {
        Some(-acc)
    }
}

} // verus!
