use zero_claw::telegram::{
    bot_api_base, chunk_text, is_user_allowed, plan_update, TelegramMessage, TelegramUpdate,
    TelegramUser, TELEGRAM_CHUNK,
};

fn user(id: Option<i64>, username: Option<&str>) -> TelegramUser {
    TelegramUser { id, username: username.map(|s| s.to_string()), first_name: Some("Ann".to_string()) }
}

fn update(text: Option<&str>, chat_type: &str, reply_to: Option<i64>) -> TelegramUpdate {
    TelegramUpdate {
        update_id: Some(41),
        message: TelegramMessage {
            message_id: Some(7),
            text: text.map(|s| s.to_string()),
            chat_id: Some(-100),
            chat_type: Some(chat_type.to_string()),
            chat_title: Some("Team".to_string()),
            from: user(Some(5), Some("Ann_B")),
            reply_to_from_id: reply_to,
        },
    }
}

#[test]
fn allowed_users() {
    let u = user(Some(12345), Some("Alice"));
    assert!(is_user_allowed(&u, &vec![]));
    assert!(is_user_allowed(&u, &vec!["12345".to_string()]));
    assert!(is_user_allowed(&u, &vec!["ALICE".to_string()]));
    assert!(!is_user_allowed(&u, &vec!["bob".to_string()]));
    let anon = user(None, None);
    assert!(is_user_allowed(&anon, &vec!["0".to_string()]));
    assert!(!is_user_allowed(&anon, &vec!["".to_string()]));
}

#[test]
fn private_message_is_answered() {
    let (offset, plan) = plan_update(&update(Some("  hello  "), "private", None), 99, "zbot", &vec![]);
    assert_eq!(offset, 42);
    let p = plan.expect("answered");
    assert_eq!(p.user_message, "hello");
    assert_eq!(p.title, "Telegram: Ann");
    assert_eq!(p.conversation_id, "telegram--100");
    assert_eq!(p.chat_id, -100);
    assert_eq!(p.message_id, 7);
}

#[test]
fn group_needs_mention_or_reply() {
    let (_, none) = plan_update(&update(Some("hello all"), "group", None), 99, "zbot", &vec![]);
    assert!(none.is_none());
    let (_, mention) = plan_update(&update(Some("@zbot what time is it"), "group", None), 99, "zbot", &vec![]);
    let m = mention.expect("mentioned");
    assert_eq!(m.user_message, "what time is it");
    assert_eq!(m.title, "Telegram: Team");
    let (_, reply) = plan_update(&update(Some("thanks"), "supergroup", Some(99)), 99, "zbot", &vec![]);
    assert_eq!(reply.expect("reply").user_message, "thanks");
}

#[test]
fn skipped_updates_still_advance_offset() {
    let (offset, plan) = plan_update(&update(None, "private", None), 99, "zbot", &vec![]);
    assert_eq!(offset, 42);
    assert!(plan.is_none());
    let (_, only_mention) = plan_update(&update(Some("@zbot"), "group", None), 99, "zbot", &vec![]);
    assert!(only_mention.is_none());
    let (_, denied) = plan_update(&update(Some("hi"), "private", None), 99, "zbot", &vec!["someone".to_string()]);
    assert!(denied.is_none());
}

#[test]
fn telegram_chunks_and_url() {
    assert_eq!(TELEGRAM_CHUNK, 4096);
    assert_eq!(chunk_text("a b", TELEGRAM_CHUNK), vec!["a b".to_string()]);
    assert_eq!(bot_api_base("123:abc"), "https://api.telegram.org/bot123:abc");
}
