//! The Telegram channel: which updates the bot answers, and how.
use crate::text::{
    concat, contains, find, i64_to_decimal, lowercase, replace_all, replace_str, signed_decimal,
    str_eq, to_lowercase, trim, trimmed, is_empty_text,
};
use vstd::prelude::*;

pub use crate::text::{can_chunk_text, chunk_text};

verus! {

/// The bot's token and the users allowed to talk to it (all when the list is empty).
#[derive(Clone, Debug)]
pub struct TelegramConfig {
    pub token: String,
    pub allowed_users: Vec<String>,
}

/// The sender of a message, as far as the bot reads it.
#[derive(Debug)]
pub struct TelegramUser {
    pub id: Option<i64>,
    pub username: Option<String>,
    pub first_name: Option<String>,
}

/// A received message, as far as the bot reads it.
#[derive(Debug)]
pub struct TelegramMessage {
    pub message_id: Option<i64>,
    pub text: Option<String>,
    pub chat_id: Option<i64>,
    pub chat_type: Option<String>,
    pub chat_title: Option<String>,
    pub from: TelegramUser,
    /// Id of the sender of the message this one replies to.
    pub reply_to_from_id: Option<i64>,
}

/// One entry of `getUpdates`.
#[derive(Debug)]
pub struct TelegramUpdate {
    pub update_id: Option<i64>,
    pub message: TelegramMessage,
}

/// A message the bot answers: where to reply, the conversation it belongs to, and the text
/// for the agent.
#[derive(Debug)]
pub struct TelegramReply {
    pub chat_id: i64,
    pub message_id: i64,
    pub conversation_id: String,
    pub title: String,
    pub user_message: String,
}

/// Base URL of the Bot API for a token.
pub fn bot_api_base(token: &str) -> (r: String)
    ensures
        r@ == "https://api.telegram.org/bot"@ + token@,
{
    concat("https://api.telegram.org/bot", token)
}

/// Whether a sender may talk to the bot: every sender when the list is empty, else one whose
/// numeric id (0 when missing) is listed, or whose non-empty user name matches a listed name
/// regardless of case.
pub open spec fn user_allowed(id: Option<i64>, username: Option<Seq<char>>, allowed: Seq<Seq<char>>) -> bool {
    let uid = signed_decimal(
        match id {
            Some(i) => i as int,
            None => 0,
        },
    );
    let uname = lowercase(
        match username {
            Some(u) => u,
            None => Seq::empty(),
        },
    );
    allowed.len() == 0 || exists|i: int|
        0 <= i < allowed.len() && (#[trigger] allowed[i] == uid || (uname.len() > 0 && lowercase(
            allowed[i],
        ) == uname))
}

/// Abstract value of a list of names.
pub open spec fn names_view(v: Seq<String>) -> Seq<Seq<char>> {
    v.map_values(|s: String| s@)
}

/// Whether a sender may talk to the bot.
pub fn is_user_allowed(from: &TelegramUser, allowed: &Vec<String>) -> (r: bool)
    ensures
        r == user_allowed(from.id, crate::chat::opt_view(from.username), names_view(allowed@)),
{
    if allowed.len() == 0 {
        return true;
    }
    let uid = i64_to_decimal(
        match from.id {
            Some(i) => i,
            None => 0,
        },
    );
    let raw = match &from.username {
        Some(u) => u.clone(),
        None => String::new(),
    };
    let uname = to_lowercase(raw.as_str());
    let has_name = !is_empty_text(uname.as_str());
    let ghost names = names_view(allowed@);
    let mut i: usize = 0;
    while i < allowed.len()
        invariant
            i <= allowed.len(),
            names == names_view(allowed@),
            uid@ == signed_decimal(
                match from.id {
                    Some(i) => i as int,
                    None => 0,
                },
            ),
            uname@ == lowercase(
                match crate::chat::opt_view(from.username) {
                    Some(u) => u,
                    None => Seq::empty(),
                },
            ),
            has_name == (uname@.len() > 0),
            forall|k: int|
                0 <= k < i ==> !(#[trigger] names[k] == uid@ || (uname@.len() > 0 && lowercase(
                    names[k],
                ) == uname@)),
        decreases allowed.len() - i,
    {
        let u = allowed[i].as_str();
        proof {
            assert(names[i as int] == u@);
        }
        if str_eq(u, uid.as_str()) {
            proof {
                assert(0 <= i < names.len() && names[i as int] == uid@);
            }
            return true;
        }
        let lu = to_lowercase(u);
        if has_name && str_eq(lu.as_str(), uname.as_str()) {
            proof {
                assert(lu@ == lowercase(names[i as int]));
                assert(0 <= i < names.len() && uname@.len() > 0 && lowercase(names[i as int]) == uname@);
            }
            return true;
        }
        i = i + 1;
    }
    false
}

/// A text field, or a default when it is missing.
pub open spec fn text_or(o: Option<Seq<char>>, default: Seq<char>) -> Seq<char> {
    match o {
        Some(s) => s,
        None => default,
    }
}

/// The offset of the next `getUpdates` call after an update (`update_id + 1`, wrapping as
/// the release build does).
pub open spec fn next_offset(update_id: Option<i64>) -> i64 {
    let u = match update_id {
        Some(u) => u as int,
        None => 0,
    };
    if u == i64::MAX {
        i64::MIN
    } else {
        (u + 1) as i64
    }
}

/// Whether the bot answers a message, and with what: a text message in a private chat, one
/// that mentions `@bot_username`, or one that replies to the bot, from an allowed sender,
/// with text left once the mention is removed and the rest trimmed.
pub open spec fn reply_plan(
    m: TelegramMessage,
    bot_id: i64,
    bot_username: Seq<char>,
    allowed: Seq<Seq<char>>,
) -> Option<(Seq<char>, Seq<char>)> {
    let mention = "@"@ + bot_username;
    match m.text {
        None => None,
        Some(text) => {
            let private = crate::chat::opt_view(m.chat_type) == Some("private"@);
            let mentioned = find(text@, mention) is Some;
            let is_reply = m.reply_to_from_id == Some(bot_id);
            let user_msg = trimmed(replace_all(text@, mention, Seq::empty()));
            if !private && !mentioned && !is_reply {
                None
            } else if !user_allowed(m.from.id, crate::chat::opt_view(m.from.username), allowed) {
                None
            } else if user_msg.len() == 0 {
                None
            } else {
                let title = if private {
                    "Telegram: "@ + text_or(crate::chat::opt_view(m.from.first_name), "DM"@)
                } else {
                    "Telegram: "@ + text_or(crate::chat::opt_view(m.chat_title), "Group"@)
                };
                Some((user_msg, title))
            }
        },
    }
}

/// A message mentions the bot wherever `@<bot_username>` stands in its text, not only at
/// its start: an allowed sender's text message with that mention anywhere, and text left
/// once the mention is removed, is answered with that text.
pub proof fn lemma_mention_anywhere(
    m: TelegramMessage,
    bot_id: i64,
    bot_username: Seq<char>,
    allowed: Seq<Seq<char>>,
    p: int,
)
    requires
        m.text is Some,
        0 <= p,
        p + bot_username.len() + 1 <= m.text->0@.len(),
        m.text->0@.subrange(p, p + bot_username.len() + 1) == "@"@ + bot_username,
        user_allowed(m.from.id, crate::chat::opt_view(m.from.username), allowed),
        trimmed(replace_all(m.text->0@, "@"@ + bot_username, Seq::empty())).len() > 0,
    ensures
        reply_plan(m, bot_id, bot_username, allowed) matches Some((user_msg, title)) && user_msg
            == trimmed(replace_all(m.text->0@, "@"@ + bot_username, Seq::empty())),
{
    reveal_strlit("@");
    let mention = "@"@ + bot_username;
    let text = m.text->0@;
    assert(mention.len() == bot_username.len() + 1);
    crate::text::lemma_find_from_match(text, mention, 0);
    if find(text, mention) is None {
        assert(text.subrange(p, p + mention.len()) != mention);
    }
}

/// Reads an update: the next `getUpdates` offset, and the reply to make if the bot answers
/// the message (conversation `telegram-<chat id>`).
pub fn plan_update(
    update: &TelegramUpdate,
    bot_id: i64,
    bot_username: &str,
    allowed: &Vec<String>,
) -> (r: (i64, Option<TelegramReply>))
    ensures
        r.0 == next_offset(update.update_id),
        match reply_plan(update.message, bot_id, bot_username@, names_view(allowed@)) {
            None => r.1 is None,
            Some((user_msg, title)) => r.1 matches Some(p) && p.user_message@ == user_msg
                && p.title@ == title && p.chat_id == (match update.message.chat_id {
                Some(c) => c,
                None => 0,
            }) && p.message_id == (match update.message.message_id {
                Some(c) => c,
                None => 0,
            }) && p.conversation_id@ == "telegram-"@ + signed_decimal(p.chat_id as int),
        },
{
    let offset = match update.update_id {
        Some(u) => u.wrapping_add(1),
        None => 1,
    };
    let m = &update.message;
    let text = match &m.text {
        Some(t) => t,
        None => return (offset, None),
    };
    let private = match &m.chat_type {
        Some(t) => str_eq(t.as_str(), "private"),
        None => false,
    };
    let mention = concat("@", bot_username);
    proof {
        reveal_strlit("@");
        assert(mention@.len() > 0);
    }
    let mentioned = contains(text.as_str(), mention.as_str());
    let is_reply = match m.reply_to_from_id {
        Some(i) => i == bot_id,
        None => false,
    };
    if !private && !mentioned && !is_reply {
        return (offset, None);
    }
    if !is_user_allowed(&m.from, allowed) {
        return (offset, None);
    }
    let user_msg = trim(replace_str(text.as_str(), mention.as_str(), "").as_str());
    proof {
        assert(""@ =~= Seq::<char>::empty()) by {
            reveal_strlit("");
        }
    }
    if is_empty_text(user_msg.as_str()) {
        return (offset, None);
    }
    let chat_id = match m.chat_id {
        Some(c) => c,
        None => 0,
    };
    let message_id = match m.message_id {
        Some(c) => c,
        None => 0,
    };
    let title = if private {
        match &m.from.first_name {
            Some(n) => concat("Telegram: ", n.as_str()),
            None => concat("Telegram: ", "DM"),
        }
    } else {
        match &m.chat_title {
            Some(n) => concat("Telegram: ", n.as_str()),
            None => concat("Telegram: ", "Group"),
        }
    };
    let conversation_id = concat("telegram-", i64_to_decimal(chat_id).as_str());
    (offset, Some(TelegramReply { chat_id, message_id, conversation_id, title, user_message: user_msg }))
}

/// Longest piece of a Telegram message, in bytes.
pub const TELEGRAM_CHUNK: usize = 4096;

} // verus!
