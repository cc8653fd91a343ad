//! The WeChat (iLink bot) channel: message text extraction, who may talk to the bot,
//! request headers and URLs, reply contexts, and the polling back-off.
use crate::clock::unix_nanos;
use crate::text::{
    before_char, concat, is_empty_text, split_first, str_eq, trim, trimmed, u128_to_decimal,
    decimal,
};
use base64::Engine;
use vstd::prelude::*;
use vstd::utf8::encode_utf8;

pub use crate::text::{can_chunk_text, chunk_text};

verus! {

/// Version reported to the iLink service.
pub const CHANNEL_VERSION: &'static str = "0.1.0";

/// `message_type` of a message a user sent.
pub const MSG_TYPE_USER: i64 = 1;

/// `message_type` of a message the bot sends.
pub const MSG_TYPE_BOT: i64 = 2;

/// `message_state` of a finished message.
pub const MSG_STATE_FINISH: i64 = 2;

/// Item type of a text item.
pub const MSG_ITEM_TEXT: i64 = 1;

/// Item type of a voice item.
pub const MSG_ITEM_VOICE: i64 = 3;

/// Timeout of a long poll, in seconds.
pub const LONG_POLL_TIMEOUT_SECS: u64 = 35;

/// Timeout of a send, in seconds.
pub const SEND_TIMEOUT_SECS: u64 = 15;

/// Failed polls in a row after which the channel backs off.
pub const MAX_CONSECUTIVE_FAILURES: u32 = 3;

/// Back-off delay, in seconds.
pub const BACKOFF_DELAY_SECS: u64 = 30;

/// Delay before retrying a failed poll, in seconds.
pub const RETRY_DELAY_SECS: u64 = 2;

/// Longest piece of a WeChat reply, in bytes.
pub const WECHAT_CHUNK: usize = 2048;

/// The bot account and who may talk to it (everyone when the list is empty).
#[derive(Clone, Debug)]
pub struct WechatConfig {
    pub token: String,
    pub base_url: String,
    pub account_id: String,
    pub allowed_users: Vec<String>,
}

#[derive(Debug)]
pub struct TextItem {
    pub text: Option<String>,
}

#[derive(Debug)]
pub struct VoiceItem {
    pub text: Option<String>,
}

#[derive(Debug)]
pub struct RefMsg {
    pub title: Option<String>,
}

/// One item of a message.
#[derive(Debug)]
pub struct MessageItem {
    pub item_type: Option<i64>,
    pub text_item: Option<TextItem>,
    pub voice_item: Option<VoiceItem>,
    pub ref_msg: Option<RefMsg>,
}

/// A received message.
#[derive(Debug)]
pub struct WeixinMessage {
    pub from_user_id: Option<String>,
    pub message_type: Option<i64>,
    pub item_list: Option<Vec<MessageItem>>,
    pub context_token: Option<String>,
}

/// Reply of `getupdates`.
#[derive(Debug)]
pub struct GetUpdatesResp {
    pub ret: Option<i64>,
    pub errcode: Option<i64>,
    pub msgs: Option<Vec<WeixinMessage>>,
    pub get_updates_buf: Option<String>,
}

/// Text of one item: a text item's text (prefixed by the quoted title when it quotes a
/// message) or a voice item's transcript.
pub open spec fn item_text(it: MessageItem) -> Option<Seq<char>> {
    if it.item_type == Some(MSG_ITEM_TEXT) && it.text_item is Some && it.text_item->0.text is Some {
        let t = it.text_item->0.text->0@;
        if it.ref_msg is Some && it.ref_msg->0.title is Some {
            Some("[Quote: "@ + it.ref_msg->0.title->0@ + "]\n"@ + t)
        } else {
            Some(t)
        }
    } else if it.item_type == Some(MSG_ITEM_VOICE) && it.voice_item is Some
        && it.voice_item->0.text is Some {
        Some(it.voice_item->0.text->0@)
    } else {
        None
    }
}

/// Text of the first item that has one.
pub open spec fn first_item_text(items: Seq<MessageItem>) -> Option<Seq<char>>
    decreases items.len(),
{
    if items.len() == 0 {
        None
    } else {
        match item_text(items[0]) {
            Some(t) => Some(t),
            None => first_item_text(items.drop_first()),
        }
    }
}

/// Text of a message: that of its first item that has one.
pub open spec fn message_text(msg: WeixinMessage) -> Option<Seq<char>> {
    match msg.item_list {
        Some(items) => first_item_text(items@),
        None => None,
    }
}

/// Text of one item.
fn extract_item_text(it: &MessageItem) -> (r: Option<String>)
    ensures
        match item_text(*it) {
            Some(t) => r matches Some(s) && s@ == t,
            None => r is None,
        },
{
    if it.item_type == Some(MSG_ITEM_TEXT) {
        if let Some(ti) = &it.text_item {
            if let Some(text) = &ti.text {
                if let Some(rm) = &it.ref_msg {
                    if let Some(title) = &rm.title {
                        let mut s = concat("[Quote: ", title.as_str());
                        s.append("]\n");
                        s.append(text.as_str());
                        return Some(s);
                    }
                }
                return Some(text.clone());
            }
        }
    }
    if it.item_type == Some(MSG_ITEM_VOICE) {
        if let Some(vi) = &it.voice_item {
            if let Some(text) = &vi.text {
                return Some(text.clone());
            }
        }
    }
    None
}

/// Text of a message: that of its first text item (with its quote) or voice item.
pub fn extract_text(msg: &WeixinMessage) -> (r: Option<String>)
    ensures
        match message_text(*msg) {
            Some(t) => r matches Some(s) && s@ == t,
            None => r is None,
        },
{
    let items = match &msg.item_list {
        Some(items) => items,
        None => return None,
    };
    let mut i: usize = 0;
    proof {
        assert(items@.skip(0) =~= items@);
    }
    while i < items.len()
        invariant
            i <= items.len(),
            message_text(*msg) == first_item_text(items@),
            first_item_text(items@) == first_item_text(items@.skip(i as int)),
        decreases items.len() - i,
    {
        proof {
            assert(items@.skip(i as int).drop_first() =~= items@.skip(i + 1));
            assert(items@.skip(i as int)[0] == items@[i as int]);
        }
        let t = extract_item_text(&items[i]);
        if t.is_some() {
            return t;
        }
        i = i + 1;
    }
    None
}

/// What `base64::engine::general_purpose::STANDARD.encode` makes of some bytes.
pub uninterp spec fn base64_standard(bytes: Seq<u8>) -> Seq<char>;

/// `base64::engine::general_purpose::STANDARD.encode(bytes)` (padded standard alphabet).
/// Claims only that the result is a function of the bytes, named `base64_standard`.
/// The crate panics when the encoded length overflows `usize`; `requires` leaves that out.
#[verifier::external_body]
fn base64_encode(bytes: &[u8]) -> (r: String)
    requires
        (bytes@.len() / 3) * 4 + 4 <= usize::MAX,
    ensures
        r@ == base64_standard(bytes@),
{
    base64::engine::general_purpose::STANDARD.encode(bytes)
}

/// The `X-WECHAT-UIN` value for a clock reading: the base64 of its decimal digits.
pub fn wechat_uin(nanos: u128) -> (r: String)
    ensures
        r@ == base64_standard(encode_utf8(decimal(nanos as nat))),
{
    let digits = u128_to_decimal(nanos);
    let bytes = digits.as_str().as_bytes();
    proof {
        lemma_decimal_len(nanos as nat);
        crate::text::lemma_ascii_encode_len(decimal(nanos as nat));
    }
    base64_encode(bytes)
}

/// A fresh `X-WECHAT-UIN` value from the wall clock.
pub fn random_wechat_uin() -> (r: String)
    ensures
        exists|n: u128| r@ == base64_standard(encode_utf8(decimal(n as nat))),
{
    wechat_uin(unix_nanos())
}

/// Decimal numbers below 2^128 have at most 39 digits, all ASCII.
proof fn lemma_decimal_len(n: nat)
    requires
        n < 0x1_0000_0000_0000_0000_0000_0000_0000_0000,
    ensures
        decimal(n).len() <= 39,
        forall|i: int| 0 <= i < decimal(n).len() ==> ((#[trigger] decimal(n)[i]) as u32) < 0x80,
{
    crate::text::lemma_decimal_digits(n);
    crate::text::lemma_decimal_length_bound(n, 39);
    assert forall|i: int| 0 <= i < decimal(n).len() implies ((#[trigger] decimal(n)[i]) as u32)
        < 0x80 by {
        assert('0' <= decimal(n)[i] <= '9');
    }
}

/// Headers of a request to the iLink service: JSON content, the bot token type, a fresh
/// UIN, and the bearer token when a non-blank one is given (trimmed).
pub open spec fn request_headers(token: Option<Seq<char>>, uin: Seq<char>) -> Seq<(Seq<char>, Seq<char>)> {
    let base = seq![
        ("Content-Type"@, "application/json"@),
        ("AuthorizationType"@, "ilink_bot_token"@),
        ("X-WECHAT-UIN"@, uin),
    ];
    match token {
        Some(t) => if trimmed(t).len() > 0 {
            base.push(("Authorization"@, "Bearer "@ + trimmed(t)))
        } else {
            base
        },
        None => base,
    }
}

/// Abstract value of an optional token.
pub open spec fn token_view(token: Option<&str>) -> Option<Seq<char>> {
    match token {
        Some(t) => Some(t@),
        None => None,
    }
}

/// Abstract value of a header list.
pub open spec fn headers_view(v: Seq<(String, String)>) -> Seq<(Seq<char>, Seq<char>)> {
    v.map_values(|h: (String, String)| (h.0@, h.1@))
}

/// Headers of a request to the iLink service with the given UIN.
pub fn build_headers_with_uin(token: Option<&str>, uin: String) -> (r: Vec<(String, String)>)
    ensures
        headers_view(r@) == request_headers(
            match token {
                Some(t) => Some(t@),
                None => None,
            },
            uin@,
        ),
{
    let mut h: Vec<(String, String)> = Vec::new();
    h.push(("Content-Type".to_string(), "application/json".to_string()));
    h.push(("AuthorizationType".to_string(), "ilink_bot_token".to_string()));
    h.push(("X-WECHAT-UIN".to_string(), uin));
    let ghost base = headers_view(h@);
    if let Some(t) = token {
        let tt = trim(t);
        if !is_empty_text(tt.as_str()) {
            let v = concat("Bearer ", tt.as_str());
            h.push(("Authorization".to_string(), v));
        }
    }
    proof {
        assert(headers_view(h@) =~= request_headers(
            match token {
                Some(t) => Some(t@),
                None => None,
            },
            uin@,
        ));
    }
    h
}

/// Headers of a request to the iLink service, with a fresh UIN: the standard base64 of the
/// decimal digits of a clock reading in nanoseconds.
pub fn build_headers(token: Option<&str>) -> (r: Vec<(String, String)>)
    ensures
        exists|n: u128|
            headers_view(r@) == #[trigger] request_headers(
                token_view(token),
                base64_standard(encode_utf8(decimal(n as nat))),
            ),
{
    let uin = random_wechat_uin();
    let ghost n = choose|n: u128| uin@ == base64_standard(encode_utf8(decimal(n as nat)));
    let r = build_headers_with_uin(token, uin);
    assert(headers_view(r@) == request_headers(
        token_view(token),
        base64_standard(encode_utf8(decimal(n as nat))),
    ));
    r
}

/// The base URL with a trailing slash.
pub open spec fn normalized_base(base: Seq<char>) -> Seq<char> {
    if base.len() > 0 && base.last() == '/' {
        base
    } else {
        base + "/"@
    }
}

/// The base URL with a trailing slash.
pub fn norm(base: &str) -> (r: String)
    ensures
        r@ == normalized_base(base@),
{
    let v = crate::text::chars_of(base);
    if v.len() > 0 && v[v.len() - 1] == '/' {
        base.to_string()
    } else {
        concat(base, "/")
    }
}

/// URL of the `getupdates` endpoint.
pub fn get_updates_url(base: &str) -> (r: String)
    ensures
        r@ == normalized_base(base@) + "ilink/bot/getupdates"@,
{
    concat(norm(base).as_str(), "ilink/bot/getupdates")
}

/// URL of the `sendmessage` endpoint.
pub fn send_message_url(base: &str) -> (r: String)
    ensures
        r@ == normalized_base(base@) + "ilink/bot/sendmessage"@,
{
    concat(norm(base).as_str(), "ilink/bot/sendmessage")
}

/// Client id of a sent message for a clock reading in milliseconds.
pub fn client_id(millis: u128) -> (r: String)
    ensures
        r@ == "0claw:"@ + decimal(millis as nat),
{
    concat("0claw:", u128_to_decimal(millis).as_str())
}

/// A text for the log: the whole text when it takes at most `max` bytes, else its first
/// `max` bytes and `...`; `None` where byte `max` falls inside a character (there slicing
/// the text panics).
pub fn log_preview(text: &str, max: usize) -> (r: Option<String>)
    requires
        crate::text::utf8_len(text@) <= usize::MAX,
    ensures
        max >= crate::text::utf8_len(text@) ==> (r matches Some(p) && p@ == text@),
        max < crate::text::utf8_len(text@) ==> match r {
            Some(p) => exists|head: Seq<char>|
                head.is_prefix_of(text@) && crate::text::utf8_len(head) == max && p@ == head + "..."@,
            None => crate::text::utf8_len(text@.take(crate::text::fit_from(text@, 0, max as int)))
                != max,
        },
{
    match crate::text::byte_prefix(text, max) {
        None => None,
        Some(head) => {
            if crate::text::utf8_len_of(text) <= max {
                Some(head)
            } else {
                let r = concat(head.as_str(), "...");
                proof {
                    let j = crate::text::fit_from(text@, 0, max as int);
                    crate::text::lemma_fit_from_bounds(text@, 0, max as int);
                    assert(head@ == text@.take(j));
                    assert(text@.take(j) =~= text@.subrange(0, j));
                    assert(head@.is_prefix_of(text@));
                }
                Some(r)
            }
        },
    }
}

/// Whether a sender may talk to the bot: everyone when the list is empty, else a sender
/// listed by full id or by the part of the id before `@`.
pub open spec fn sender_allowed(sender: Seq<char>, allowed: Seq<Seq<char>>) -> bool {
    allowed.len() == 0 || exists|i: int|
        0 <= i < allowed.len() && (#[trigger] allowed[i] == sender || allowed[i] == before_char(
            sender,
            '@',
        ))
}

/// Whether a sender may talk to the bot.
pub fn is_user_allowed(sender: &str, allowed: &Vec<String>) -> (r: bool)
    ensures
        r == sender_allowed(sender@, crate::telegram::names_view(allowed@)),
{
    if allowed.len() == 0 {
        return true;
    }
    let name = split_first(sender, '@');
    let ghost names = crate::telegram::names_view(allowed@);
    let mut i: usize = 0;
    while i < allowed.len()
        invariant
            i <= allowed.len(),
            names == crate::telegram::names_view(allowed@),
            name@ == before_char(sender@, '@'),
            forall|k: int| 0 <= k < i ==> !(#[trigger] names[k] == sender@ || names[k] == name@),
        decreases allowed.len() - i,
    {
        let u = allowed[i].as_str();
        proof {
            assert(names[i as int] == u@);
        }
        if str_eq(u, sender) || str_eq(u, name.as_str()) {
            return true;
        }
        i = i + 1;
    }
    false
}


/// Whether a `getupdates` reply reports an error (a non-zero `ret` or `errcode`).
pub open spec fn reply_is_error(resp: GetUpdatesResp) -> bool {
    (resp.ret is Some && resp.ret->0 != 0) || (resp.errcode is Some && resp.errcode->0 != 0)
}

/// Polling state: the cursor returned by the service and the failed polls in a row.
pub struct PollState {
    update_buf: String,
    consecutive_failures: u32,
}

impl PollState {
    #[verifier::type_invariant]
    spec fn inv(self) -> bool {
        self.consecutive_failures < MAX_CONSECUTIVE_FAILURES
    }

    /// The cursor to send with the next poll.
    pub closed spec fn cursor(&self) -> Seq<char> {
        self.update_buf@
    }

    /// Failed polls in a row since the last success or back-off.
    pub closed spec fn failures(&self) -> nat {
        self.consecutive_failures as nat
    }

    /// State before the first poll.
    pub fn new() -> (r: PollState)
        ensures
            r.cursor() == Seq::<char>::empty(),
            r.failures() == 0,
    {
        PollState { update_buf: String::new(), consecutive_failures: 0 }
    }

    /// The cursor to send with the next poll.
    pub fn update_buf(&self) -> (r: String)
        ensures
            r@ == self.cursor(),
    {
        self.update_buf.clone()
    }

    /// Records a failed poll and returns how long to wait, in seconds: the back-off delay
    /// on the third failure in a row (which starts the count anew), else the retry delay.
    pub fn on_failure(&mut self) -> (delay: u64)
        ensures
            final(self).cursor() == old(self).cursor(),
            old(self).failures() + 1 >= MAX_CONSECUTIVE_FAILURES ==> delay == BACKOFF_DELAY_SECS
                && final(self).failures() == 0,
            old(self).failures() + 1 < MAX_CONSECUTIVE_FAILURES ==> delay == RETRY_DELAY_SECS
                && final(self).failures() == old(self).failures() + 1,
            final(self).failures() < MAX_CONSECUTIVE_FAILURES,
    {
        proof {
            use_type_invariant(&*self);
        }
        let n = self.consecutive_failures + 1;
        if n >= MAX_CONSECUTIVE_FAILURES {
            self.consecutive_failures = 0;
            BACKOFF_DELAY_SECS
        } else {
            self.consecutive_failures = n;
            RETRY_DELAY_SECS
        }
    }

    /// Takes in a `getupdates` reply: an error reply counts as a failed poll (the delay to
    /// wait is returned); otherwise the failure count is reset and the cursor advanced when
    /// the reply carries one.
    pub fn on_reply(&mut self, resp: &GetUpdatesResp) -> (delay: Option<u64>)
        ensures
            final(self).failures() < MAX_CONSECUTIVE_FAILURES,
            reply_is_error(*resp) ==> {
                &&& final(self).cursor() == old(self).cursor()
                &&& old(self).failures() + 1 >= MAX_CONSECUTIVE_FAILURES ==> delay == Some(
                    BACKOFF_DELAY_SECS,
                ) && final(self).failures() == 0
                &&& old(self).failures() + 1 < MAX_CONSECUTIVE_FAILURES ==> delay == Some(
                    RETRY_DELAY_SECS,
                ) && final(self).failures() == old(self).failures() + 1
            },
            !reply_is_error(*resp) ==> {
                &&& delay is None
                &&& final(self).failures() == 0
                &&& final(self).cursor() == match resp.get_updates_buf {
                    Some(b) => b@,
                    None => old(self).cursor(),
                }
            },
    {
        let is_error = (match resp.ret {
            Some(r) => r != 0,
            None => false,
        }) || (match resp.errcode {
            Some(e) => e != 0,
            None => false,
        });
        if is_error {
            return Some(self.on_failure());
        }
        self.consecutive_failures = 0;
        if let Some(b) = &resp.get_updates_buf {
            self.update_buf = b.clone();
        }
        None
    }
}

/// Reply contexts by sender: the token the service gave with a sender's latest message,
/// needed to answer that sender.
/// A `Vec` of entries, where storing a key overwrites its entry, rather than a map: the keys
/// are `String`s, and with a `String` key the contracts that Verus gives `HashMap` let
/// nothing about lookups be proved.
pub struct ContextCache {
    entries: Vec<(String, String)>,
}

/// The value stored under a key (the latest entry for it).
pub open spec fn lookup(entries: Seq<(Seq<char>, Seq<char>)>, key: Seq<char>) -> Option<Seq<char>>
    decreases entries.len(),
{
    if entries.len() == 0 {
        None
    } else if entries.last().0 == key {
        Some(entries.last().1)
    } else {
        lookup(entries.drop_last(), key)
    }
}

/// Position of the latest entry for a key.
pub open spec fn lookup_position(entries: Seq<(Seq<char>, Seq<char>)>, key: Seq<char>) -> Option<int>
    decreases entries.len(),
{
    if entries.len() == 0 {
        None
    } else if entries.last().0 == key {
        Some(entries.len() - 1)
    } else {
        lookup_position(entries.drop_last(), key)
    }
}

/// Entries after storing `value` under `key`: the latest entry for the key is overwritten,
/// or a new entry is appended.
pub open spec fn stored(entries: Seq<(Seq<char>, Seq<char>)>, key: Seq<char>, value: Seq<char>) -> Seq<(Seq<char>, Seq<char>)> {
    match lookup_position(entries, key) {
        Some(k) => entries.update(k, (key, value)),
        None => entries.push((key, value)),
    }
}

/// Reading a key after storing it gives the stored value; other keys are unaffected.
pub proof fn lemma_stored_lookup(
    entries: Seq<(Seq<char>, Seq<char>)>,
    key: Seq<char>,
    value: Seq<char>,
    other: Seq<char>,
)
    ensures
        lookup(stored(entries, key, value), key) == Some(value),
        other != key ==> lookup(stored(entries, key, value), other) == lookup(entries, other),
    decreases entries.len(),
{
    let after = stored(entries, key, value);
    if entries.len() == 0 {
        assert(after.drop_last() =~= entries);
    } else if entries.last().0 == key {
        assert(after.drop_last() =~= entries.drop_last());
    } else {
        let rest = entries.drop_last();
        lemma_stored_lookup(rest, key, value, other);
        lemma_lookup_position(rest, key);
        assert(lookup_position(entries, key) == lookup_position(rest, key));
        match lookup_position(rest, key) {
            Some(k) => {
                assert(after.drop_last() =~= stored(rest, key, value));
                assert(after.last() == entries.last());
            },
            None => {
                assert(after.drop_last() =~= entries);
            },
        }
    }
}

impl ContextCache {
    /// The stored entries (key, value), oldest first.
    pub closed spec fn entries(&self) -> Seq<(Seq<char>, Seq<char>)> {
        self.entries@.map_values(|e: (String, String)| (e.0@, e.1@))
    }

    /// An empty cache.
    pub fn new() -> (r: ContextCache)
        ensures
            r.entries() == Seq::<(Seq<char>, Seq<char>)>::empty(),
    {
        let r = ContextCache { entries: Vec::new() };
        proof {
            assert(r.entries() =~= Seq::<(Seq<char>, Seq<char>)>::empty());
        }
        r
    }

    fn position(&self, key: &str) -> (r: Option<usize>)
        ensures
            r is None <==> lookup_position(self.entries(), key@) is None,
            r matches Some(k) ==> lookup_position(self.entries(), key@) == Some(k as int) && k
                < self.entries@.len(),
    {
        let ghost es = self.entries();
        let mut k = self.entries.len();
        proof {
            assert(es.take(k as int) =~= es);
        }
        while k > 0
            invariant
                k <= self.entries@.len(),
                es == self.entries(),
                lookup_position(es, key@) == lookup_position(es.take(k as int), key@),
            decreases k,
        {
            proof {
                assert(es.take(k as int).drop_last() =~= es.take(k - 1));
                assert(es.take(k as int).last() == es[k - 1]);
            }
            if str_eq(self.entries[k - 1].0.as_str(), key) {
                return Some(k - 1);
            }
            k = k - 1;
        }
        proof {
            assert(es.take(0) =~= Seq::<(Seq<char>, Seq<char>)>::empty());
        }
        None
    }

    /// Stores `value` under `key` (`HashMap::insert`).
    pub fn insert(&mut self, key: &str, value: &str)
        ensures
            final(self).entries() == stored(old(self).entries(), key@, value@),
    {
        let ghost before = self.entries();
        match self.position(key) {
            Some(k) => {
                self.entries.set(k, (key.to_string(), value.to_string()));
                proof {
                    assert(self.entries() =~= before.update(k as int, (key@, value@)));
                }
            },
            None => {
                self.entries.push((key.to_string(), value.to_string()));
                proof {
                    assert(self.entries() =~= before.push((key@, value@)));
                }
            },
        }
    }

    /// The value stored under `key`.
    pub fn get(&self, key: &str) -> (r: Option<String>)
        ensures
            match lookup(self.entries(), key@) {
                Some(v) => r matches Some(s) && s@ == v,
                None => r is None,
            },
    {
        proof {
            lemma_lookup_position(self.entries(), key@);
        }
        match self.position(key) {
            Some(k) => {
                proof {
                    assert(self.entries()[k as int].1 == self.entries@[k as int].1@);
                }
                Some(self.entries[k].1.clone())
            },
            None => None,
        }
    }
}

/// `lookup` reads the entry `lookup_position` finds.
proof fn lemma_lookup_position(entries: Seq<(Seq<char>, Seq<char>)>, key: Seq<char>)
    ensures
        match lookup_position(entries, key) {
            Some(k) => 0 <= k < entries.len() && lookup(entries, key) == Some(entries[k].1),
            None => lookup(entries, key) is None,
        },
    decreases entries.len(),
{
    if entries.len() > 0 && entries.last().0 != key {
        lemma_lookup_position(entries.drop_last(), key);
    }
}

/// A user message the bot answers: who sent it, the text for the agent, and the
/// conversation (`wechat-<sender>`, titled with the sender's name).
#[derive(Debug)]
pub struct WechatIncoming {
    pub sender_id: String,
    pub sender_name: String,
    pub text: String,
    pub conversation_id: String,
    pub title: String,
}

/// Sender of a message (`unknown` when missing).
pub open spec fn sender_of(msg: WeixinMessage) -> Seq<char> {
    match msg.from_user_id {
        Some(s) => s@,
        None => "unknown"@,
    }
}

/// Whether the bot answers a message: a user message with non-empty text from an allowed
/// sender.
pub open spec fn accepted(msg: WeixinMessage, allowed: Seq<Seq<char>>) -> bool {
    &&& msg.message_type == Some(MSG_TYPE_USER)
    &&& message_text(msg) matches Some(t) && t.len() > 0
    &&& sender_allowed(sender_of(msg), allowed)
}

/// Reads a received message: when the bot answers it, remembers the sender's reply context
/// (if the message carries one) and returns what to answer.
pub fn accept_message(cache: &mut ContextCache, msg: &WeixinMessage, allowed: &Vec<String>) -> (r:
    Option<WechatIncoming>)
    ensures
        accepted(*msg, crate::telegram::names_view(allowed@)) ==> {
            &&& r matches Some(inc)
            &&& inc.sender_id@ == sender_of(*msg)
            &&& inc.sender_name@ == before_char(sender_of(*msg), '@')
            &&& inc.text@ == message_text(*msg)->0
            &&& inc.conversation_id@ == "wechat-"@ + sender_of(*msg)
            &&& inc.title@ == "WeChat: "@ + before_char(sender_of(*msg), '@')
            &&& final(cache).entries() == match msg.context_token {
                Some(t) => stored(old(cache).entries(), sender_of(*msg), t@),
                None => old(cache).entries(),
            }
        },
        !accepted(*msg, crate::telegram::names_view(allowed@)) ==> r is None
            && final(cache).entries() == old(cache).entries(),
{
    if msg.message_type != Some(MSG_TYPE_USER) {
        return None;
    }
    let text = match extract_text(msg) {
        Some(t) => t,
        None => return None,
    };
    if is_empty_text(text.as_str()) {
        return None;
    }
    let sender = match &msg.from_user_id {
        Some(s) => s.clone(),
        None => "unknown".to_string(),
    };
    if !is_user_allowed(sender.as_str(), allowed) {
        return None;
    }
    if let Some(ct) = &msg.context_token {
        cache.insert(sender.as_str(), ct.as_str());
    }
    let sender_name = split_first(sender.as_str(), '@');
    let conversation_id = concat("wechat-", sender.as_str());
    let title = concat("WeChat: ", sender_name.as_str());
    Some(WechatIncoming { sender_id: sender, sender_name, text, conversation_id, title })
}

} // verus!
