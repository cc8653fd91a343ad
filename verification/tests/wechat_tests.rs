use base64::Engine;
use zero_claw::wechat::{
    accept_message, build_headers, build_headers_with_uin, client_id, extract_text,
    get_updates_url, is_user_allowed, log_preview, norm, random_wechat_uin, send_message_url, wechat_uin,
    ContextCache, GetUpdatesResp, MessageItem, PollState, RefMsg, TextItem, VoiceItem,
    WeixinMessage, BACKOFF_DELAY_SECS, RETRY_DELAY_SECS,
};

fn text_item(text: &str, quote: Option<&str>) -> MessageItem {
    MessageItem {
        item_type: Some(1),
        text_item: Some(TextItem { text: Some(text.to_string()) }),
        voice_item: None,
        ref_msg: quote.map(|q| RefMsg { title: Some(q.to_string()) }),
    }
}

fn message(from: Option<&str>, items: Vec<MessageItem>, ctx: Option<&str>) -> WeixinMessage {
    WeixinMessage {
        from_user_id: from.map(|s| s.to_string()),
        message_type: Some(1),
        item_list: Some(items),
        context_token: ctx.map(|s| s.to_string()),
    }
}

#[test]
fn text_extraction() {
    let m = message(Some("u"), vec![text_item("hi", None)], None);
    assert_eq!(extract_text(&m), Some("hi".to_string()));
    let q = message(Some("u"), vec![text_item("reply", Some("old"))], None);
    assert_eq!(extract_text(&q), Some("[Quote: old]\nreply".to_string()));
    let voice = MessageItem {
        item_type: Some(3),
        text_item: None,
        voice_item: Some(VoiceItem { text: Some("spoken".to_string()) }),
        ref_msg: None,
    };
    let image = MessageItem { item_type: Some(2), text_item: None, voice_item: None, ref_msg: None };
    let v = message(Some("u"), vec![image, voice], None);
    assert_eq!(extract_text(&v), Some("spoken".to_string()));
    let none = WeixinMessage { from_user_id: None, message_type: Some(1), item_list: None, context_token: None };
    assert_eq!(extract_text(&none), None);
}

#[test]
fn urls_and_ids() {
    assert_eq!(norm("https://x.io"), "https://x.io/");
    assert_eq!(norm("https://x.io/"), "https://x.io/");
    assert_eq!(get_updates_url("https://x.io"), "https://x.io/ilink/bot/getupdates");
    assert_eq!(send_message_url("https://x.io/"), "https://x.io/ilink/bot/sendmessage");
    assert_eq!(client_id(1700000000000), "0claw:1700000000000");
}

#[test]
fn uin_and_headers() {
    assert_eq!(wechat_uin(123), "MTIz");
    assert_eq!(wechat_uin(1700000000123456789), "MTcwMDAwMDAwMDEyMzQ1Njc4OQ==");
    assert!(!random_wechat_uin().is_empty());
    let h = build_headers_with_uin(Some("  tok  "), "U".to_string());
    assert_eq!(
        h,
        vec![
            ("Content-Type".to_string(), "application/json".to_string()),
            ("AuthorizationType".to_string(), "ilink_bot_token".to_string()),
            ("X-WECHAT-UIN".to_string(), "U".to_string()),
            ("Authorization".to_string(), "Bearer tok".to_string()),
        ]
    );
    assert_eq!(build_headers_with_uin(Some("   "), "U".to_string()).len(), 3);
    assert_eq!(build_headers(None).len(), 3);
}

#[test]
fn allowed_senders() {
    assert!(is_user_allowed("wxid_a@im.wechat", &vec![]));
    assert!(is_user_allowed("wxid_a@im.wechat", &vec!["wxid_a".to_string()]));
    assert!(is_user_allowed("wxid_a@im.wechat", &vec!["wxid_a@im.wechat".to_string()]));
    assert!(!is_user_allowed("wxid_a@im.wechat", &vec!["wxid_b".to_string()]));
}

#[test]
fn poll_backoff() {
    let mut p = PollState::new();
    assert_eq!(p.on_failure(), RETRY_DELAY_SECS);
    assert_eq!(p.on_failure(), RETRY_DELAY_SECS);
    assert_eq!(p.on_failure(), BACKOFF_DELAY_SECS);
    assert_eq!(p.on_failure(), RETRY_DELAY_SECS);
    let err = GetUpdatesResp { ret: Some(-1), errcode: None, msgs: None, get_updates_buf: Some("x".to_string()) };
    assert_eq!(p.on_reply(&err), Some(RETRY_DELAY_SECS));
    assert_eq!(p.update_buf(), "");
    let ok = GetUpdatesResp { ret: Some(0), errcode: Some(0), msgs: None, get_updates_buf: Some("cursor1".to_string()) };
    assert_eq!(p.on_reply(&ok), None);
    assert_eq!(p.update_buf(), "cursor1");
    let ok2 = GetUpdatesResp { ret: None, errcode: None, msgs: None, get_updates_buf: None };
    assert_eq!(p.on_reply(&ok2), None);
    assert_eq!(p.update_buf(), "cursor1");
    assert_eq!(p.on_failure(), RETRY_DELAY_SECS);
}

#[test]
fn context_cache_read_after_write() {
    let mut c = ContextCache::new();
    assert_eq!(c.get("a"), None);
    c.insert("a", "1");
    c.insert("b", "2");
    c.insert("a", "3");
    assert_eq!(c.get("a"), Some("3".to_string()));
    assert_eq!(c.get("b"), Some("2".to_string()));
}

#[test]
fn accepting_messages() {
    let mut cache = ContextCache::new();
    let m = message(Some("wxid_a@im.wechat"), vec![text_item("hello", None)], Some("ctx1"));
    let inc = accept_message(&mut cache, &m, &vec![]).expect("accepted");
    assert_eq!(inc.sender_id, "wxid_a@im.wechat");
    assert_eq!(inc.sender_name, "wxid_a");
    assert_eq!(inc.text, "hello");
    assert_eq!(inc.conversation_id, "wechat-wxid_a@im.wechat");
    assert_eq!(inc.title, "WeChat: wxid_a");
    assert_eq!(cache.get("wxid_a@im.wechat"), Some("ctx1".to_string()));

    let anon = message(None, vec![text_item("hey", None)], None);
    assert_eq!(accept_message(&mut cache, &anon, &vec![]).unwrap().sender_id, "unknown");

    let mut bot = message(Some("b"), vec![text_item("x", None)], Some("ctx2"));
    bot.message_type = Some(2);
    assert!(accept_message(&mut cache, &bot, &vec![]).is_none());
    assert_eq!(cache.get("b"), None);
    let empty = message(Some("c"), vec![text_item("", None)], Some("ctx3"));
    assert!(accept_message(&mut cache, &empty, &vec![]).is_none());
    let denied = message(Some("d"), vec![text_item("x", None)], Some("ctx4"));
    assert!(accept_message(&mut cache, &denied, &vec!["e".to_string()]).is_none());
    assert_eq!(cache.get("d"), None);
}

#[test]
fn log_previews() {
    assert_eq!(log_preview("short", 80), Some("short".to_string()));
    assert_eq!(log_preview("abcdef", 3), Some("abc...".to_string()));
    assert_eq!(log_preview("ééé", 4), Some("éé...".to_string()));
    assert_eq!(log_preview("ééé", 3), None);
}

#[test]
fn fresh_uin_is_base64_of_decimal_digits() {
    let h = build_headers(Some("tok"));
    assert_eq!(h[2].0, "X-WECHAT-UIN");
    let raw = base64::engine::general_purpose::STANDARD.decode(&h[2].1).unwrap();
    let digits = String::from_utf8(raw).unwrap();
    assert!(!digits.is_empty());
    assert!(digits.chars().all(|c| c.is_ascii_digit()));
    assert_eq!(h[3], ("Authorization".to_string(), "Bearer tok".to_string()));
}
