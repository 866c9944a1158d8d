//! Codec for the tagged JSON wire protocol of the chat session.
//!
//! One frame travels per transport text message:
//!
//! ```text
//! { "messageType": "register" | "users" | "message",
//!   "dataArray": [string, ...] | null,      // populated only for "users"
//!   "data": string | null }                 // populated only for "register"/"message"
//! ```
//!
//! Outgoing intents are encoded without whitespace, members in the order
//! `messageType`, `dataArray`, `data`.  Inbound text is decoded against the
//! grammar spelled out by the `parse_*` spec functions below: members of the
//! three known keys in any order (a repeated or unknown key is malformed),
//! JSON strings with the simple escapes and `\u` scalar escapes, and
//! whitespace between tokens.  A `"message"` frame's `data` field carries a
//! nested JSON record `{"from": string, "message": string}` on the inbound
//! path, decoded separately by `decode_message_payload`; outbound, the
//! client puts only the raw body text in `data` and the server attributes
//! the sender.

use vstd::prelude::*;
use vstd::string::StrSliceExecFns;
use vstd::string::StringExecFns;

verus! {

/// The tag of a wire frame.
#[derive(Clone, Copy, PartialEq, Eq, Structural, Debug)]
pub enum MsgTypes {
    Users,
    Register,
    Message,
}

/// An outgoing intent of this client.  `Users` frames are never
/// client-encoded.
pub enum Intent {
    /// Announce presence under a display name.
    Register { username: String },
    /// Say something; the server attributes the sender.
    Message { body: String },
}

/// The abstract value of an `Intent`.
pub enum IntentView {
    Register { username: Seq<char> },
    Message { body: Seq<char> },
}

impl View for Intent {
    type V = IntentView;

    open spec fn view(&self) -> IntentView {
        match self {
            Intent::Register { username } => IntentView::Register { username: username@ },
            Intent::Message { body } => IntentView::Message { body: body@ },
        }
    }
}

/// A decoded wire frame.  Exactly one payload field exists per tag:
/// `usernames` for `Users`, the raw `data` text for `Register`/`Message`.
pub enum Frame {
    /// The complete current roster, replacing any prior roster.
    Users { usernames: Vec<String> },
    /// A presence announcement (client-to-server only; ignored inbound).
    Register { data: String },
    /// A chat message; inbound, `data` is the nested sender/body record.
    Message { data: String },
}

/// The abstract value of a `Frame`.
pub enum FrameView {
    Users { usernames: Seq<Seq<char>> },
    Register { data: Seq<char> },
    Message { data: Seq<char> },
}

impl View for Frame {
    type V = FrameView;

    open spec fn view(&self) -> FrameView {
        match self {
            Frame::Users { usernames } => FrameView::Users { usernames: usernames.deep_view() },
            Frame::Register { data } => FrameView::Register { data: data@ },
            Frame::Message { data } => FrameView::Message { data: data@ },
        }
    }
}

impl Frame {
    /// The tag of this frame.
    pub fn message_type(&self) -> (t: MsgTypes)
        ensures
            t == (match self@ {
                FrameView::Users { .. } => MsgTypes::Users,
                FrameView::Register { .. } => MsgTypes::Register,
                FrameView::Message { .. } => MsgTypes::Message,
            }),
    {
        match self {
            Frame::Users { .. } => MsgTypes::Users,
            Frame::Register { .. } => MsgTypes::Register,
            Frame::Message { .. } => MsgTypes::Message,
        }
    }
}

/// Why an inbound text failed to decode.
#[derive(Clone, Copy, PartialEq, Eq, Structural, Debug)]
pub enum DecodeError {
    /// The text is not a frame of the grammar: not the object shape, an
    /// unknown or repeated key, an unrecognized `messageType`, or a tag
    /// whose required payload field is absent.
    Malformed,
}

/// The nested record carried in an inbound `"message"` frame's `data`.
pub struct MessageData {
    pub from: String,
    pub message: String,
}

/// The abstract value of a `MessageData`.
pub struct MessageDataView {
    pub from: Seq<char>,
    pub message: Seq<char>,
}

impl View for MessageData {
    type V = MessageDataView;

    open spec fn view(&self) -> MessageDataView {
        MessageDataView { from: self.from@, message: self.message@ }
    }
}

// ---------------------------------------------------------------------------
// String escaping
// ---------------------------------------------------------------------------

/// The lower-case hex digit of a value below 16.
pub open spec fn hex_digit(v: u32) -> char
    recommends
        v < 16,
{
    if v == 0 {
        '0'
    } else if v == 1 {
        '1'
    } else if v == 2 {
        '2'
    } else if v == 3 {
        '3'
    } else if v == 4 {
        '4'
    } else if v == 5 {
        '5'
    } else if v == 6 {
        '6'
    } else if v == 7 {
        '7'
    } else if v == 8 {
        '8'
    } else if v == 9 {
        '9'
    } else if v == 10 {
        'a'
    } else if v == 11 {
        'b'
    } else if v == 12 {
        'c'
    } else if v == 13 {
        'd'
    } else if v == 14 {
        'e'
    } else {
        'f'
    }
}

/// How one character is written inside an encoded JSON string: quote and
/// backslash escaped, the common control characters by their short escapes,
/// any other control character as a `\u00XX` scalar escape, everything else
/// as itself.
pub open spec fn escaped_char(c: char) -> Seq<char> {
    if c == '"' {
        seq!['\\', '"']
    } else if c == '\\' {
        seq!['\\', '\\']
    } else if c == '\n' {
        seq!['\\', 'n']
    } else if c == '\r' {
        seq!['\\', 'r']
    } else if c == '\t' {
        seq!['\\', 't']
    } else if (c as u32) < 32 {
        seq!['\\', 'u', '0', '0', hex_digit((c as u32) / 16), hex_digit((c as u32) % 16)]
    } else {
        seq![c]
    }
}

/// The escaped form of a whole text.
pub open spec fn escape(s: Seq<char>) -> Seq<char>
    decreases s.len(),
{
    if s.len() == 0 {
        Seq::empty()
    } else {
        escaped_char(s[0]) + escape(s.drop_first())
    }
}

/// A JSON string token: quote, escaped content, quote.
pub open spec fn json_string(s: Seq<char>) -> Seq<char> {
    seq!['"'] + escape(s) + seq!['"']
}

/// The full frame text for a tag and a raw `data` payload, exactly as this
/// client writes it on the wire.
pub open spec fn frame_text(tag: Seq<char>, payload: Seq<char>) -> Seq<char> {
    seq!['{'] + json_string("messageType"@) + seq![':'] + json_string(tag) + seq![',']
        + json_string("dataArray"@) + seq![':'] + "null"@ + seq![','] + json_string("data"@)
        + seq![':'] + json_string(payload) + seq!['}']
}

/// The wire text of an outgoing intent.
pub open spec fn encoded_intent(i: IntentView) -> Seq<char> {
    match i {
        IntentView::Register { username } => frame_text("register"@, username),
        IntentView::Message { body } => frame_text("message"@, body),
    }
}

/// Escaping a concatenation escapes the pieces.
pub proof fn lemma_escape_concat(a: Seq<char>, b: Seq<char>)
    ensures
        escape(a + b) == escape(a) + escape(b),
    decreases a.len(),
{
    if a.len() == 0 {
        assert(a + b =~= b);
        assert(escape(a) + escape(b) =~= escape(b));
    } else {
        assert((a + b).drop_first() =~= a.drop_first() + b);
        assert((a + b)[0] == a[0]);
        assert((a + b).len() > 0);
        lemma_escape_concat(a.drop_first(), b);
        assert(escape(a + b) =~= escape(a) + escape(b));
    }
}

// ---------------------------------------------------------------------------
// The inbound grammar
//
// Each parse function consumes a prefix of the remaining text and returns
// what it parsed together with the unconsumed rest, or `None` where the text
// does not fit the grammar.
// ---------------------------------------------------------------------------

/// JSON whitespace.
pub open spec fn is_ws(c: char) -> bool {
    c == ' ' || c == '\t' || c == '\n' || c == '\r'
}

/// The text with its leading whitespace removed.
pub open spec fn skip_ws(s: Seq<char>) -> Seq<char>
    decreases s.len(),
{
    if s.len() > 0 && is_ws(s[0]) {
        skip_ws(s.drop_first())
    } else {
        s
    }
}

/// The character denoted by a one-letter escape, if it is one.
pub open spec fn unescaped(e: char) -> Option<char> {
    if e == '"' {
        Some('"')
    } else if e == '\\' {
        Some('\\')
    } else if e == '/' {
        Some('/')
    } else if e == 'b' {
        Some('\u{8}')
    } else if e == 'f' {
        Some('\u{c}')
    } else if e == 'n' {
        Some('\n')
    } else if e == 'r' {
        Some('\r')
    } else if e == 't' {
        Some('\t')
    } else {
        None
    }
}

/// The value of a hex digit, if the character is one.
pub open spec fn hex_val(c: char) -> Option<u32> {
    let v = c as u32;
    if 48 <= v && v <= 57 {
        Some((v - 48) as u32)
    } else if 97 <= v && v <= 102 {
        Some((v - 87) as u32)
    } else if 65 <= v && v <= 70 {
        Some((v - 55) as u32)
    } else {
        None
    }
}

/// Whether a `\u` escape's value is a scalar a character can hold (the four
/// hex digits cap it below 0x10000, so only surrogates are out).
pub open spec fn is_scalar(v: u32) -> bool {
    v < 0xD800 || 0xE000 <= v
}

/// The content and the rest of a JSON string, entered after its opening
/// quote: plain characters up to the closing quote, with the one-letter and
/// `\u` escapes decoded, and bare control characters refused.
pub open spec fn parse_string_body(s: Seq<char>) -> Option<(Seq<char>, Seq<char>)>
    decreases s.len(),
{
    if s.len() == 0 {
        None
    } else if s[0] == '"' {
        Some((Seq::empty(), s.drop_first()))
    } else if s[0] == '\\' {
        if s.len() < 2 {
            None
        } else if s[1] == 'u' {
            if s.len() >= 6 {
                match (hex_val(s[2]), hex_val(s[3]), hex_val(s[4]), hex_val(s[5])) {
                    (Some(h0), Some(h1), Some(h2), Some(h3)) => {
                        let v = (h0 * 4096 + h1 * 256 + h2 * 16 + h3) as u32;
                        if is_scalar(v) {
                            match parse_string_body(s.skip(6)) {
                                Some((t, r)) => Some((seq![v as char] + t, r)),
                                None => None,
                            }
                        } else {
                            None
                        }
                    },
                    _ => None,
                }
            } else {
                None
            }
        } else {
            match unescaped(s[1]) {
                Some(c) => match parse_string_body(s.skip(2)) {
                    Some((t, r)) => Some((seq![c] + t, r)),
                    None => None,
                },
                None => None,
            }
        }
    } else if (s[0] as u32) < 32 {
        None
    } else {
        match parse_string_body(s.drop_first()) {
            Some((t, r)) => Some((seq![s[0]] + t, r)),
            None => None,
        }
    }
}

/// A whole JSON string token: an opening quote, then its body.
pub open spec fn parse_string(s: Seq<char>) -> Option<(Seq<char>, Seq<char>)> {
    if s.len() > 0 && s[0] == '"' {
        parse_string_body(s.drop_first())
    } else {
        None
    }
}

/// Skipping whitespace never lengthens the text.
pub proof fn lemma_skip_ws_len(s: Seq<char>)
    ensures
        skip_ws(s).len() <= s.len(),
    decreases s.len(),
{
    if s.len() > 0 && is_ws(s[0]) {
        lemma_skip_ws_len(s.drop_first());
    }
}

/// A parsed string body consumes at least its closing quote.
pub proof fn lemma_parse_string_body_len(s: Seq<char>)
    ensures
        (parse_string_body(s) matches Some(p) ==> p.1.len() < s.len()),
    decreases s.len(),
{
    if s.len() == 0 {
    } else if s[0] == '"' {
    } else if s[0] == '\\' {
        if s.len() >= 6 {
            lemma_parse_string_body_len(s.skip(6));
        }
        if s.len() >= 2 {
            lemma_parse_string_body_len(s.skip(2));
        }
    } else {
        lemma_parse_string_body_len(s.drop_first());
    }
}

/// A parsed string token consumes at least its quotes.
pub proof fn lemma_parse_string_len(s: Seq<char>)
    ensures
        (parse_string(s) matches Some(p) ==> p.1.len() < s.len()),
{
    if s.len() > 0 && s[0] == '"' {
        lemma_parse_string_body_len(s.drop_first());
    }
}

/// The items and the rest of a non-empty JSON array of strings, entered
/// after its opening bracket.
pub open spec fn parse_array_items(s: Seq<char>) -> Option<(Seq<Seq<char>>, Seq<char>)>
    decreases s.len(),
    via parse_array_items_decreases
{
    match parse_string(skip_ws(s)) {
        Some((item, r)) => {
            let r2 = skip_ws(r);
            if r2.len() == 0 {
                None
            } else if r2[0] == ']' {
                Some((seq![item], r2.drop_first()))
            } else if r2[0] == ',' {
                match parse_array_items(r2.drop_first()) {
                    Some((items, rest)) => Some((seq![item] + items, rest)),
                    None => None,
                }
            } else {
                None
            }
        },
        None => None,
    }
}

#[via_fn]
proof fn parse_array_items_decreases(s: Seq<char>) {
    lemma_skip_ws_len(s);
    lemma_parse_string_len(skip_ws(s));
    match parse_string(skip_ws(s)) {
        Some((item, r)) => lemma_skip_ws_len(r),
        None => (),
    }
}

/// A member value of a frame object: a string, an array of strings, or
/// `null`.
pub enum JsonValView {
    Str(Seq<char>),
    Arr(Seq<Seq<char>>),
    Null,
}

/// The value and the rest of one JSON value of the frame grammar.
pub open spec fn parse_value(s: Seq<char>) -> Option<(JsonValView, Seq<char>)> {
    if s.len() == 0 {
        None
    } else if s[0] == '"' {
        match parse_string_body(s.drop_first()) {
            Some((c, r)) => Some((JsonValView::Str(c), r)),
            None => None,
        }
    } else if s[0] == '[' {
        let t = skip_ws(s.drop_first());
        if t.len() > 0 && t[0] == ']' {
            Some((JsonValView::Arr(Seq::empty()), t.drop_first()))
        } else {
            match parse_array_items(s.drop_first()) {
                Some((items, r)) => Some((JsonValView::Arr(items), r)),
                None => None,
            }
        }
    } else if s.len() >= 4 && s[0] == 'n' && s[1] == 'u' && s[2] == 'l' && s[3] == 'l' {
        Some((JsonValView::Null, s.skip(4)))
    } else {
        None
    }
}

/// A parsed value consumes at least one character.
pub proof fn lemma_parse_value_len(s: Seq<char>)
    ensures
        (parse_value(s) matches Some(p) ==> p.1.len() < s.len()),
    decreases s.len(),
{
    if s.len() == 0 {
    } else if s[0] == '"' {
        lemma_parse_string_body_len(s.drop_first());
    } else if s[0] == '[' {
        lemma_skip_ws_len(s.drop_first());
        lemma_parse_array_items_len(s.drop_first());
    }
}

/// Parsed array items consume at least their closing bracket.
pub proof fn lemma_parse_array_items_len(s: Seq<char>)
    ensures
        (parse_array_items(s) matches Some(p) ==> p.1.len() < s.len()),
    decreases s.len(),
{
    lemma_skip_ws_len(s);
    lemma_parse_string_len(skip_ws(s));
    match parse_string(skip_ws(s)) {
        Some((item, r)) => {
            lemma_skip_ws_len(r);
            let r2 = skip_ws(r);
            if r2.len() > 0 && r2[0] == ',' {
                lemma_parse_array_items_len(r2.drop_first());
            }
        },
        None => (),
    }
}

/// The fields gathered while reading a frame object's members.
pub struct PartialFrameView {
    pub message_type: Option<Seq<char>>,
    pub data_array: Option<Seq<Seq<char>>>,
    pub data: Option<Seq<char>>,
}

/// Record one member in the gathered fields: the three known keys take a
/// value of their type once each, a `null` leaves a payload field unset, and
/// anything else refuses the text.
pub open spec fn assign_field(pf: PartialFrameView, key: Seq<char>, v: JsonValView) -> Option<
    PartialFrameView,
> {
    if key == "messageType"@ {
        match v {
            JsonValView::Str(tag) => if pf.message_type is None {
                Some(PartialFrameView { message_type: Some(tag), ..pf })
            } else {
                None
            },
            _ => None,
        }
    } else if key == "dataArray"@ {
        match v {
            JsonValView::Arr(items) => if pf.data_array is None {
                Some(PartialFrameView { data_array: Some(items), ..pf })
            } else {
                None
            },
            JsonValView::Null => Some(pf),
            _ => None,
        }
    } else if key == "data"@ {
        match v {
            JsonValView::Str(d) => if pf.data is None {
                Some(PartialFrameView { data: Some(d), ..pf })
            } else {
                None
            },
            JsonValView::Null => Some(pf),
            _ => None,
        }
    } else {
        None
    }
}

/// The members of a frame object, entered at the first key with whitespace
/// already skipped; ends at the closing brace.
pub open spec fn parse_members(s: Seq<char>, pf: PartialFrameView) -> Option<
    (PartialFrameView, Seq<char>),
>
    decreases s.len(),
    via parse_members_decreases
{
    match parse_string(s) {
        Some((key, r)) => {
            let r1 = skip_ws(r);
            if r1.len() > 0 && r1[0] == ':' {
                let r2 = skip_ws(r1.drop_first());
                match parse_value(r2) {
                    Some((v, r3)) => match assign_field(pf, key, v) {
                        Some(pf2) => {
                            let r4 = skip_ws(r3);
                            if r4.len() == 0 {
                                None
                            } else if r4[0] == '}' {
                                Some((pf2, r4.drop_first()))
                            } else if r4[0] == ',' {
                                parse_members(skip_ws(r4.drop_first()), pf2)
                            } else {
                                None
                            }
                        },
                        None => None,
                    },
                    None => None,
                }
            } else {
                None
            }
        },
        None => None,
    }
}

#[via_fn]
proof fn parse_members_decreases(s: Seq<char>, pf: PartialFrameView) {
    lemma_parse_string_len(s);
    match parse_string(s) {
        Some((key, r)) => {
            lemma_skip_ws_len(r);
            let r1 = skip_ws(r);
            if r1.len() > 0 && r1[0] == ':' {
                lemma_skip_ws_len(r1.drop_first());
                let r2 = skip_ws(r1.drop_first());
                lemma_parse_value_len(r2);
                match parse_value(r2) {
                    Some((v, r3)) => {
                        lemma_skip_ws_len(r3);
                        let r4 = skip_ws(r3);
                        if r4.len() > 0 && r4[0] == ',' {
                            lemma_skip_ws_len(r4.drop_first());
                        }
                    },
                    None => (),
                }
            }
        },
        None => (),
    }
}

/// The frame meant by gathered fields: a recognized tag with its required
/// payload field present, and nothing else.
pub open spec fn frame_of_fields(pf: PartialFrameView) -> Option<FrameView> {
    match pf.message_type {
        None => None,
        Some(tag) => if tag == "users"@ {
            match pf.data_array {
                Some(items) => Some(FrameView::Users { usernames: items }),
                None => None,
            }
        } else if tag == "register"@ {
            match pf.data {
                Some(d) => Some(FrameView::Register { data: d }),
                None => None,
            }
        } else if tag == "message"@ {
            match pf.data {
                Some(d) => Some(FrameView::Message { data: d }),
                None => None,
            }
        } else {
            None
        },
    }
}

/// What an inbound text decodes to, if anything: a brace-delimited object of
/// frame members with nothing but whitespace after it, meaning a frame.
pub open spec fn decoded_frame(s: Seq<char>) -> Option<FrameView> {
    let t = skip_ws(s);
    if t.len() > 0 && t[0] == '{' {
        match parse_members(skip_ws(t.drop_first()), PartialFrameView {
            message_type: None,
            data_array: None,
            data: None,
        }) {
            Some((pf, rest)) => if skip_ws(rest).len() == 0 {
                frame_of_fields(pf)
            } else {
                None
            },
            None => None,
        }
    } else {
        None
    }
}

/// The fields gathered while reading a message payload's members.
pub struct PartialPayloadView {
    pub from: Option<Seq<char>>,
    pub message: Option<Seq<char>>,
}

/// Record one member of the nested payload record: the two known keys take
/// a string once each; anything else refuses the text.
pub open spec fn assign_payload_field(
    pp: PartialPayloadView,
    key: Seq<char>,
    v: JsonValView,
) -> Option<PartialPayloadView> {
    match v {
        JsonValView::Str(text) => if key == "from"@ && pp.from is None {
            Some(PartialPayloadView { from: Some(text), ..pp })
        } else if key == "message"@ && pp.message is None {
            Some(PartialPayloadView { message: Some(text), ..pp })
        } else {
            None
        },
        _ => None,
    }
}

/// The members of a payload object, entered at the first key; ends at the
/// closing brace.
pub open spec fn parse_payload_members(s: Seq<char>, pp: PartialPayloadView) -> Option<
    (PartialPayloadView, Seq<char>),
>
    decreases s.len(),
    via parse_payload_members_decreases
{
    match parse_string(s) {
        Some((key, r)) => {
            let r1 = skip_ws(r);
            if r1.len() > 0 && r1[0] == ':' {
                let r2 = skip_ws(r1.drop_first());
                match parse_value(r2) {
                    Some((v, r3)) => match assign_payload_field(pp, key, v) {
                        Some(pp2) => {
                            let r4 = skip_ws(r3);
                            if r4.len() == 0 {
                                None
                            } else if r4[0] == '}' {
                                Some((pp2, r4.drop_first()))
                            } else if r4[0] == ',' {
                                parse_payload_members(skip_ws(r4.drop_first()), pp2)
                            } else {
                                None
                            }
                        },
                        None => None,
                    },
                    None => None,
                }
            } else {
                None
            }
        },
        None => None,
    }
}

#[via_fn]
proof fn parse_payload_members_decreases(s: Seq<char>, pp: PartialPayloadView) {
    lemma_parse_string_len(s);
    match parse_string(s) {
        Some((key, r)) => {
            lemma_skip_ws_len(r);
            let r1 = skip_ws(r);
            if r1.len() > 0 && r1[0] == ':' {
                lemma_skip_ws_len(r1.drop_first());
                let r2 = skip_ws(r1.drop_first());
                lemma_parse_value_len(r2);
                match parse_value(r2) {
                    Some((v, r3)) => {
                        lemma_skip_ws_len(r3);
                        let r4 = skip_ws(r3);
                        if r4.len() > 0 && r4[0] == ',' {
                            lemma_skip_ws_len(r4.drop_first());
                        }
                    },
                    None => (),
                }
            }
        },
        None => (),
    }
}

/// What the `data` text of an inbound `"message"` frame decodes to, if
/// anything: both `from` and `message` present.
pub open spec fn decoded_payload(s: Seq<char>) -> Option<MessageDataView> {
    let t = skip_ws(s);
    if t.len() > 0 && t[0] == '{' {
        match parse_payload_members(skip_ws(t.drop_first()), PartialPayloadView {
            from: None,
            message: None,
        }) {
            Some((pp, rest)) => if skip_ws(rest).len() == 0 {
                match (pp.from, pp.message) {
                    (Some(f), Some(m)) => Some(MessageDataView { from: f, message: m }),
                    _ => None,
                }
            } else {
                None
            },
            None => None,
        }
    } else {
        None
    }
}

// ---------------------------------------------------------------------------
// Encoding
// ---------------------------------------------------------------------------

/// Relies on `String::push`: appends exactly the one character.
#[verifier::external_body]
fn push_char(out: &mut String, c: char)
    ensures
        final(out)@ == old(out)@.push(c),
{
    out.push(c);
}

/// The lower-case hex digit of a value below 16.
fn hex_digit_char(v: u32) -> (c: char)
    requires
        v < 16,
    ensures
        c == hex_digit(v),
{
    match v {
        0 => '0',
        1 => '1',
        2 => '2',
        3 => '3',
        4 => '4',
        5 => '5',
        6 => '6',
        7 => '7',
        8 => '8',
        9 => '9',
        10 => 'a',
        11 => 'b',
        12 => 'c',
        13 => 'd',
        14 => 'e',
        _ => 'f',
    }
}

/// Append one character in its escaped form.
fn push_escaped(out: &mut String, c: char)
    ensures
        final(out)@ == old(out)@ + escaped_char(c),
{
    if c == '"' {
        push_char(out, '\\');
        push_char(out, '"');
    } else if c == '\\' {
        push_char(out, '\\');
        push_char(out, '\\');
    } else if c == '\n' {
        push_char(out, '\\');
        push_char(out, 'n');
    } else if c == '\r' {
        push_char(out, '\\');
        push_char(out, 'r');
    } else if c == '\t' {
        push_char(out, '\\');
        push_char(out, 't');
    } else if (c as u32) < 32 {
        push_char(out, '\\');
        push_char(out, 'u');
        push_char(out, '0');
        push_char(out, '0');
        push_char(out, hex_digit_char((c as u32) / 16));
        push_char(out, hex_digit_char((c as u32) % 16));
    } else {
        push_char(out, c);
    }
    assert(final(out)@ =~= old(out)@ + escaped_char(c));
}

/// Append a JSON string token holding the given text.
fn append_json_string(out: &mut String, s: &str)
    ensures
        final(out)@ == old(out)@ + json_string(s@),
{
    push_char(out, '"');
    let n = s.unicode_len();
    let mut i: usize = 0;
    while i < n
        invariant
            n == s@.len(),
            i <= n,
            out@ == old(out)@ + seq!['"'] + escape(s@.take(i as int)),
        decreases n - i,
    {
        let c = s.get_char(i);
        proof {
            assert(s@.take(i + 1) =~= s@.take(i as int) + seq![s@[i as int]]);
            lemma_escape_concat(s@.take(i as int), seq![s@[i as int]]);
            assert(seq![s@[i as int]].drop_first() =~= Seq::<char>::empty());
            assert(escape(Seq::<char>::empty()) =~= Seq::<char>::empty());
            assert(escape(seq![s@[i as int]]) =~= escaped_char(s@[i as int]));
        }
        push_escaped(out, c);
        assert(out@ =~= old(out)@ + seq!['"'] + escape(s@.take(i + 1)));
        i = i + 1;
    }
    assert(s@.take(n as int) =~= s@);
    let ghost before_close = out@;
    push_char(out, '"');
    assert(out@ == before_close.push('"'));
    assert(out@ =~= old(out)@ + json_string(s@));
}

// ---------------------------------------------------------------------------
// Decoding
// ---------------------------------------------------------------------------

/// Relies on `char::from_u32`: yields the character with the given scalar
/// value, and `None` exactly for surrogates and values above `char::MAX`.
#[verifier::external_body]
fn char_from_u32(v: u32) -> (r: Option<char>)
    ensures
        r == (if v < 0xD800 || (0xE000 <= v && v <= 0x10FFFF) {
            Some(v as char)
        } else {
            None::<char>
        }),
{
    char::from_u32(v)
}

/// Relies on `String`'s `FromIterator` over `char`: collects exactly the
/// given characters in order.
#[verifier::external_body]
fn chars_to_string(v: &Vec<char>) -> (r: String)
    ensures
        r@ == v@,
{
    v.iter().collect()
}

/// The characters of a text, in order.
fn str_to_chars(s: &str) -> (v: Vec<char>)
    ensures
        v@ == s@,
{
    let n = s.unicode_len();
    let mut v: Vec<char> = Vec::new();
    let mut i: usize = 0;
    while i < n
        invariant
            i <= n,
            n == s@.len(),
            v@ == s@.take(i as int),
        decreases n - i,
    {
        v.push(s.get_char(i));
        assert(v@ =~= s@.take(i + 1));
        i = i + 1;
    }
    assert(v@ =~= s@);
    v
}

/// Whether a character vector holds exactly the given text.
fn chars_eq_str(v: &Vec<char>, s: &str) -> (r: bool)
    ensures
        r == (v@ == s@),
{
    let n = s.unicode_len();
    if v.len() != n {
        return false;
    }
    let mut i: usize = 0;
    while i < n
        invariant
            i <= n,
            n == s@.len(),
            n == v@.len(),
            forall|j: int| 0 <= j < i ==> v@[j] == s@[j],
        decreases n - i,
    {
        if v[i] != s.get_char(i) {
            return false;
        }
        i = i + 1;
    }
    assert(v@ =~= s@);
    true
}

/// The value of a hex digit, if the character is one.
fn hex_char_val(c: char) -> (r: Option<u32>)
    ensures
        r == hex_val(c),
{
    let v = c as u32;
    if 48 <= v && v <= 57 {
        Some(v - 48)
    } else if 97 <= v && v <= 102 {
        Some(v - 87)
    } else if 65 <= v && v <= 70 {
        Some(v - 55)
    } else {
        None
    }
}

/// The character denoted by a one-letter escape, if it is one.
fn unescape_char(e: char) -> (r: Option<char>)
    ensures
        r == unescaped(e),
{
    match e {
        '"' => Some('"'),
        '\\' => Some('\\'),
        '/' => Some('/'),
        'b' => Some('\u{8}'),
        'f' => Some('\u{c}'),
        'n' => Some('\n'),
        'r' => Some('\r'),
        't' => Some('\t'),
        _ => None,
    }
}

/// The rest of the text after its leading whitespace.
fn ws<'a>(s: &'a [char]) -> (r: &'a [char])
    ensures
        r@ == skip_ws(s@),
{
    let n = s.len();
    assert(s@.skip(0) =~= s@);
    let mut i: usize = 0;
    while i < n
        invariant
            i <= n,
            n == s@.len(),
            skip_ws(s@) == skip_ws(s@.skip(i as int)),
        decreases n - i,
    {
        let c = *vstd::slice::slice_index_get(s, i);
        if c == ' ' || c == '\t' || c == '\n' || c == '\r' {
            proof {
                assert(s@.skip(i as int).drop_first() =~= s@.skip(i + 1));
            }
            i = i + 1;
        } else {
            let r = vstd::slice::slice_subrange(s, i, n);
            assert(r@ =~= s@.skip(i as int));
            return r;
        }
    }
    proof {
        assert(s@.skip(n as int) =~= Seq::<char>::empty());
    }
    let r = vstd::slice::slice_subrange(s, n, n);
    assert(r@ =~= s@.skip(n as int));
    r
}

/// The content and the rest of a JSON string, entered after its opening
/// quote.
fn p_string_body<'a>(s: &'a [char]) -> (r: Option<(Vec<char>, &'a [char])>)
    ensures
        (match r {
            Some(p) => parse_string_body(s@) == Some((p.0@, p.1@)),
            None => parse_string_body(s@) is None,
        }),
    decreases s@.len(),
{
    let n = s.len();
    if n == 0 {
        return None;
    }
    let c = *vstd::slice::slice_index_get(s, 0);
    if c == '"' {
        let rest = vstd::slice::slice_subrange(s, 1, n);
        let content: Vec<char> = Vec::new();
        proof {
            assert(rest@ =~= s@.drop_first());
            assert(content@ =~= Seq::<char>::empty());
        }
        Some((content, rest))
    } else if c == '\\' {
        if n < 2 {
            return None;
        }
        let e = *vstd::slice::slice_index_get(s, 1);
        if e == 'u' {
            if n < 6 {
                return None;
            }
            let h0 = hex_char_val(*vstd::slice::slice_index_get(s, 2));
            let h1 = hex_char_val(*vstd::slice::slice_index_get(s, 3));
            let h2 = hex_char_val(*vstd::slice::slice_index_get(s, 4));
            let h3 = hex_char_val(*vstd::slice::slice_index_get(s, 5));
            match (h0, h1, h2, h3) {
                (Some(d0), Some(d1), Some(d2), Some(d3)) => {
                    let v: u32 = d0 * 4096 + d1 * 256 + d2 * 16 + d3;
                    if v < 0xD800 || 0xE000 <= v {
                        let ch = match char_from_u32(v) {
                            Some(ch) => ch,
                            None => {
                                proof {
                                    assert(false);
                                }
                                return None;
                            },
                        };
                        let sub = vstd::slice::slice_subrange(s, 6, n);
                        assert(sub@ =~= s@.skip(6));
                        match p_string_body(sub) {
                            Some((mut t, rest)) => {
                                let ghost t0 = t@;
                                t.insert(0, ch);
                                proof {
                                    assert(t@ =~= seq![ch] + t0);
                                }
                                Some((t, rest))
                            },
                            None => None,
                        }
                    } else {
                        None
                    }
                },
                _ => None,
            }
        } else {
            match unescape_char(e) {
                Some(u) => {
                    let sub = vstd::slice::slice_subrange(s, 2, n);
                    assert(sub@ =~= s@.skip(2));
                    match p_string_body(sub) {
                        Some((mut t, rest)) => {
                            let ghost t0 = t@;
                            t.insert(0, u);
                            proof {
                                assert(t@ =~= seq![u] + t0);
                            }
                            Some((t, rest))
                        },
                        None => None,
                    }
                },
                None => None,
            }
        }
    } else if (c as u32) < 32 {
        None
    } else {
        let sub = vstd::slice::slice_subrange(s, 1, n);
        assert(sub@ =~= s@.drop_first());
        match p_string_body(sub) {
            Some((mut t, rest)) => {
                let ghost t0 = t@;
                t.insert(0, c);
                proof {
                    assert(t@ =~= seq![c] + t0);
                }
                Some((t, rest))
            },
            None => None,
        }
    }
}

/// A whole JSON string token.
fn p_string<'a>(s: &'a [char]) -> (r: Option<(Vec<char>, &'a [char])>)
    ensures
        (match r {
            Some(p) => parse_string(s@) == Some((p.0@, p.1@)),
            None => parse_string(s@) is None,
        }),
{
    let n = s.len();
    if n > 0 && *vstd::slice::slice_index_get(s, 0) == '"' {
        let sub = vstd::slice::slice_subrange(s, 1, n);
        assert(sub@ =~= s@.drop_first());
        p_string_body(sub)
    } else {
        None
    }
}

/// The items and the rest of a non-empty JSON array of strings, entered
/// after its opening bracket.
fn p_array_items<'a>(s: &'a [char]) -> (r: Option<(Vec<Vec<char>>, &'a [char])>)
    ensures
        (match r {
            Some(p) => parse_array_items(s@) == Some((p.0.deep_view(), p.1@)),
            None => parse_array_items(s@) is None,
        }),
    decreases s@.len(),
{
    let t = ws(s);
    match p_string(t) {
        None => None,
        Some((item, r)) => {
            proof {
                lemma_skip_ws_len(s@);
                lemma_parse_string_len(t@);
            }
            let r2 = ws(r);
            proof {
                lemma_skip_ws_len(r@);
            }
            let m = r2.len();
            if m == 0 {
                None
            } else {
                let c = *vstd::slice::slice_index_get(r2, 0);
                if c == ']' {
                    let rest = vstd::slice::slice_subrange(r2, 1, m);
                    let mut items: Vec<Vec<char>> = Vec::new();
                    let ghost iv = item@;
                    items.push(item);
                    proof {
                        assert(rest@ =~= r2@.drop_first());
                        assert(items.deep_view() =~~= seq![iv]);
                    }
                    Some((items, rest))
                } else if c == ',' {
                    let sub = vstd::slice::slice_subrange(r2, 1, m);
                    assert(sub@ =~= r2@.drop_first());
                    match p_array_items(sub) {
                        Some((mut items, rest)) => {
                            let ghost tail = items.deep_view();
                            let ghost iv = item@;
                            items.insert(0, item);
                            proof {
                                assert(items.deep_view() =~~= seq![iv] + tail);
                            }
                            Some((items, rest))
                        },
                        None => None,
                    }
                } else {
                    None
                }
            }
        },
    }
}

/// A member value of a frame object.
enum JsonVal {
    Str(Vec<char>),
    Arr(Vec<Vec<char>>),
    Null,
}

impl View for JsonVal {
    type V = JsonValView;

    closed spec fn view(&self) -> JsonValView {
        match self {
            JsonVal::Str(v) => JsonValView::Str(v@),
            JsonVal::Arr(v) => JsonValView::Arr(v.deep_view()),
            JsonVal::Null => JsonValView::Null,
        }
    }
}

/// One JSON value of the frame grammar.
fn p_value<'a>(s: &'a [char]) -> (r: Option<(JsonVal, &'a [char])>)
    ensures
        (match r {
            Some(p) => parse_value(s@) == Some((p.0@, p.1@)),
            None => parse_value(s@) is None,
        }),
{
    let n = s.len();
    if n == 0 {
        return None;
    }
    let c = *vstd::slice::slice_index_get(s, 0);
    if c == '"' {
        let sub = vstd::slice::slice_subrange(s, 1, n);
        assert(sub@ =~= s@.drop_first());
        match p_string_body(sub) {
            Some((content, rest)) => Some((JsonVal::Str(content), rest)),
            None => None,
        }
    } else if c == '[' {
        let sub = vstd::slice::slice_subrange(s, 1, n);
        assert(sub@ =~= s@.drop_first());
        let t = ws(sub);
        if t.len() > 0 && *vstd::slice::slice_index_get(t, 0) == ']' {
            let rest = vstd::slice::slice_subrange(t, 1, t.len());
            let items: Vec<Vec<char>> = Vec::new();
            proof {
                assert(rest@ =~= t@.drop_first());
                assert(items.deep_view() =~~= Seq::<Seq<char>>::empty());
            }
            Some((JsonVal::Arr(items), rest))
        } else {
            match p_array_items(sub) {
                Some((items, rest)) => Some((JsonVal::Arr(items), rest)),
                None => None,
            }
        }
    } else if c == 'n' {
        if n >= 4 && *vstd::slice::slice_index_get(s, 1) == 'u' && *vstd::slice::slice_index_get(
            s,
            2,
        ) == 'l' && *vstd::slice::slice_index_get(s, 3) == 'l' {
            let rest = vstd::slice::slice_subrange(s, 4, n);
            assert(rest@ =~= s@.skip(4));
            Some((JsonVal::Null, rest))
        } else {
            None
        }
    } else {
        None
    }
}

/// The fields gathered while reading a frame object's members.
struct PartialFrame {
    message_type: Option<Vec<char>>,
    data_array: Option<Vec<Vec<char>>>,
    data: Option<Vec<char>>,
}

impl View for PartialFrame {
    type V = PartialFrameView;

    closed spec fn view(&self) -> PartialFrameView {
        PartialFrameView {
            message_type: match self.message_type {
                Some(v) => Some(v@),
                None => None,
            },
            data_array: match self.data_array {
                Some(v) => Some(v.deep_view()),
                None => None,
            },
            data: match self.data {
                Some(v) => Some(v@),
                None => None,
            },
        }
    }
}

/// Record one member in the gathered fields.
fn assign_field_exec(pf: PartialFrame, key: &Vec<char>, v: JsonVal) -> (r: Option<PartialFrame>)
    ensures
        (match r {
            Some(pf2) => assign_field(pf@, key@, v@) == Some(pf2@),
            None => assign_field(pf@, key@, v@) is None,
        }),
{
    if chars_eq_str(key, "messageType") {
        match v {
            JsonVal::Str(tag) => if pf.message_type.is_none() {
                Some(PartialFrame { message_type: Some(tag), ..pf })
            } else {
                None
            },
            _ => None,
        }
    } else if chars_eq_str(key, "dataArray") {
        match v {
            JsonVal::Arr(items) => if pf.data_array.is_none() {
                Some(PartialFrame { data_array: Some(items), ..pf })
            } else {
                None
            },
            JsonVal::Null => Some(pf),
            _ => None,
        }
    } else if chars_eq_str(key, "data") {
        match v {
            JsonVal::Str(d) => if pf.data.is_none() {
                Some(PartialFrame { data: Some(d), ..pf })
            } else {
                None
            },
            JsonVal::Null => Some(pf),
            _ => None,
        }
    } else {
        None
    }
}

/// The members of a frame object, entered at the first key.
fn p_members<'a>(s: &'a [char], pf: PartialFrame) -> (r: Option<(PartialFrame, &'a [char])>)
    ensures
        (match r {
            Some(p) => parse_members(s@, pf@) == Some((p.0@, p.1@)),
            None => parse_members(s@, pf@) is None,
        }),
    decreases s@.len(),
{
    match p_string(s) {
        None => None,
        Some((key, r)) => {
            proof {
                lemma_parse_string_len(s@);
            }
            let r1 = ws(r);
            proof {
                lemma_skip_ws_len(r@);
            }
            if r1.len() > 0 && *vstd::slice::slice_index_get(r1, 0) == ':' {
                let sub1 = vstd::slice::slice_subrange(r1, 1, r1.len());
                assert(sub1@ =~= r1@.drop_first());
                let r2 = ws(sub1);
                proof {
                    lemma_skip_ws_len(sub1@);
                }
                match p_value(r2) {
                    None => None,
                    Some((v, r3)) => {
                        proof {
                            lemma_parse_value_len(r2@);
                        }
                        match assign_field_exec(pf, &key, v) {
                            None => None,
                            Some(pf2) => {
                                let r4 = ws(r3);
                                proof {
                                    lemma_skip_ws_len(r3@);
                                }
                                if r4.len() == 0 {
                                    None
                                } else {
                                    let c = *vstd::slice::slice_index_get(r4, 0);
                                    if c == '}' {
                                        let rest = vstd::slice::slice_subrange(r4, 1, r4.len());
                                        assert(rest@ =~= r4@.drop_first());
                                        Some((pf2, rest))
                                    } else if c == ',' {
                                        let sub2 = vstd::slice::slice_subrange(r4, 1, r4.len());
                                        assert(sub2@ =~= r4@.drop_first());
                                        let nxt = ws(sub2);
                                        proof {
                                            lemma_skip_ws_len(sub2@);
                                        }
                                        p_members(nxt, pf2)
                                    } else {
                                        None
                                    }
                                }
                            },
                        }
                    },
                }
            } else {
                None
            }
        },
    }
}

/// Turn gathered character vectors into the strings of a `Users` frame.
fn strings_of_items(items: Vec<Vec<char>>) -> (r: Vec<String>)
    ensures
        r.deep_view() == items.deep_view(),
{
    let m = items.len();
    let mut usernames: Vec<String> = Vec::new();
    let mut i: usize = 0;
    while i < m
        invariant
            i <= m,
            m == items@.len(),
            usernames@.len() == i,
            forall|j: int| 0 <= j < i ==> #[trigger] usernames@[j]@ == items@[j]@,
        decreases m - i,
    {
        usernames.push(chars_to_string(&items[i]));
        i = i + 1;
    }
    proof {
        assert forall|j: int| 0 <= j < m implies usernames.deep_view()[j]
            == items.deep_view()[j] by {
            assert(usernames.deep_view()[j] == usernames@[j]@);
            assert(items@[j].deep_view() =~= items@[j]@);
        }
        assert(usernames.deep_view() =~= items.deep_view());
    }
    usernames
}

/// Decode one inbound text into a frame, or refuse it as `Malformed`.  The
/// result is `Ok` exactly on the texts the grammar accepts, and then holds
/// exactly the frame the text denotes.
pub fn decode(raw: &str) -> (r: Result<Frame, DecodeError>)
    ensures
        (match r {
            Ok(f) => decoded_frame(raw@) == Some(f@),
            Err(e) => decoded_frame(raw@) is None && e == DecodeError::Malformed,
        }),
{
    let chars = str_to_chars(raw);
    let s = chars.as_slice();
    let t = ws(s);
    let n = t.len();
    if n == 0 || *vstd::slice::slice_index_get(t, 0) != '{' {
        return Err(DecodeError::Malformed);
    }
    let sub = vstd::slice::slice_subrange(t, 1, n);
    assert(sub@ =~= t@.drop_first());
    let u = ws(sub);
    let start = PartialFrame { message_type: None, data_array: None, data: None };
    assert(start@ == (PartialFrameView { message_type: None, data_array: None, data: None }));
    match p_members(u, start) {
        None => Err(DecodeError::Malformed),
        Some((pf, rest)) => {
            let rest2 = ws(rest);
            if rest2.len() != 0 {
                return Err(DecodeError::Malformed);
            }
            match pf.message_type {
                None => Err(DecodeError::Malformed),
                Some(tag) => {
                    if chars_eq_str(&tag, "users") {
                        match pf.data_array {
                            Some(items) => Ok(Frame::Users { usernames: strings_of_items(items) }),
                            None => Err(DecodeError::Malformed),
                        }
                    } else if chars_eq_str(&tag, "register") {
                        match pf.data {
                            Some(d) => Ok(Frame::Register { data: chars_to_string(&d) }),
                            None => Err(DecodeError::Malformed),
                        }
                    } else if chars_eq_str(&tag, "message") {
                        match pf.data {
                            Some(d) => Ok(Frame::Message { data: chars_to_string(&d) }),
                            None => Err(DecodeError::Malformed),
                        }
                    } else {
                        Err(DecodeError::Malformed)
                    }
                },
            }
        },
    }
}

/// The fields gathered while reading a payload object's members.
struct PartialPayload {
    from: Option<Vec<char>>,
    message: Option<Vec<char>>,
}

impl View for PartialPayload {
    type V = PartialPayloadView;

    closed spec fn view(&self) -> PartialPayloadView {
        PartialPayloadView {
            from: match self.from {
                Some(v) => Some(v@),
                None => None,
            },
            message: match self.message {
                Some(v) => Some(v@),
                None => None,
            },
        }
    }
}

/// Record one member of the nested payload record.
fn assign_payload_field_exec(pp: PartialPayload, key: &Vec<char>, v: JsonVal) -> (r: Option<
    PartialPayload,
>)
    ensures
        (match r {
            Some(pp2) => assign_payload_field(pp@, key@, v@) == Some(pp2@),
            None => assign_payload_field(pp@, key@, v@) is None,
        }),
{
    match v {
        JsonVal::Str(text) => if chars_eq_str(key, "from") && pp.from.is_none() {
            Some(PartialPayload { from: Some(text), ..pp })
        } else if chars_eq_str(key, "message") && pp.message.is_none() {
            Some(PartialPayload { message: Some(text), ..pp })
        } else {
            None
        },
        _ => None,
    }
}

/// The members of a payload object, entered at the first key.
fn p_payload_members<'a>(s: &'a [char], pp: PartialPayload) -> (r: Option<
    (PartialPayload, &'a [char]),
>)
    ensures
        (match r {
            Some(p) => parse_payload_members(s@, pp@) == Some((p.0@, p.1@)),
            None => parse_payload_members(s@, pp@) is None,
        }),
    decreases s@.len(),
{
    match p_string(s) {
        None => None,
        Some((key, r)) => {
            proof {
                lemma_parse_string_len(s@);
            }
            let r1 = ws(r);
            proof {
                lemma_skip_ws_len(r@);
            }
            if r1.len() > 0 && *vstd::slice::slice_index_get(r1, 0) == ':' {
                let sub1 = vstd::slice::slice_subrange(r1, 1, r1.len());
                assert(sub1@ =~= r1@.drop_first());
                let r2 = ws(sub1);
                proof {
                    lemma_skip_ws_len(sub1@);
                }
                match p_value(r2) {
                    None => None,
                    Some((v, r3)) => {
                        proof {
                            lemma_parse_value_len(r2@);
                        }
                        match assign_payload_field_exec(pp, &key, v) {
                            None => None,
                            Some(pp2) => {
                                let r4 = ws(r3);
                                proof {
                                    lemma_skip_ws_len(r3@);
                                }
                                if r4.len() == 0 {
                                    None
                                } else {
                                    let c = *vstd::slice::slice_index_get(r4, 0);
                                    if c == '}' {
                                        let rest = vstd::slice::slice_subrange(r4, 1, r4.len());
                                        assert(rest@ =~= r4@.drop_first());
                                        Some((pp2, rest))
                                    } else if c == ',' {
                                        let sub2 = vstd::slice::slice_subrange(r4, 1, r4.len());
                                        assert(sub2@ =~= r4@.drop_first());
                                        let nxt = ws(sub2);
                                        proof {
                                            lemma_skip_ws_len(sub2@);
                                        }
                                        p_payload_members(nxt, pp2)
                                    } else {
                                        None
                                    }
                                }
                            },
                        }
                    },
                }
            } else {
                None
            }
        },
    }
}

/// Decode the nested `{"from": ..., "message": ...}` record carried in an
/// inbound `"message"` frame's `data` text, or refuse it as `Malformed`.
/// The result is `Ok` exactly on the texts the payload grammar accepts, and
/// then holds exactly the sender and body the text denotes.
pub fn decode_message_payload(raw: &str) -> (r: Result<MessageData, DecodeError>)
    ensures
        (match r {
            Ok(m) => decoded_payload(raw@) == Some(m@),
            Err(e) => decoded_payload(raw@) is None && e == DecodeError::Malformed,
        }),
{
    let chars = str_to_chars(raw);
    let s = chars.as_slice();
    let t = ws(s);
    let n = t.len();
    if n == 0 || *vstd::slice::slice_index_get(t, 0) != '{' {
        return Err(DecodeError::Malformed);
    }
    let sub = vstd::slice::slice_subrange(t, 1, n);
    assert(sub@ =~= t@.drop_first());
    let u = ws(sub);
    let start = PartialPayload { from: None, message: None };
    assert(start@ == (PartialPayloadView { from: None, message: None }));
    match p_payload_members(u, start) {
        None => Err(DecodeError::Malformed),
        Some((pp, rest)) => {
            let rest2 = ws(rest);
            if rest2.len() != 0 {
                return Err(DecodeError::Malformed);
            }
            match (pp.from, pp.message) {
                (Some(f), Some(m)) => Ok(
                    MessageData { from: chars_to_string(&f), message: chars_to_string(&m) },
                ),
                _ => Err(DecodeError::Malformed),
            }
        },
    }
}

/// Encode one outgoing intent into its wire text.
pub fn encode(intent: &Intent) -> (r: String)
    ensures
        r@ == encoded_intent(intent@),
{
    let mut out = String::new();
    push_char(&mut out, '{');
    append_json_string(&mut out, "messageType");
    push_char(&mut out, ':');
    match intent {
        Intent::Register { username: _ } => append_json_string(&mut out, "register"),
        Intent::Message { body: _ } => append_json_string(&mut out, "message"),
    }
    push_char(&mut out, ',');
    append_json_string(&mut out, "dataArray");
    push_char(&mut out, ':');
    out.append("null");
    push_char(&mut out, ',');
    append_json_string(&mut out, "data");
    push_char(&mut out, ':');
    match intent {
        Intent::Register { username } => append_json_string(&mut out, username.as_str()),
        Intent::Message { body } => append_json_string(&mut out, body.as_str()),
    }
    push_char(&mut out, '}');
    assert(out@ =~= encoded_intent(intent@));
    out
}

// ---------------------------------------------------------------------------
// Round trip
// ---------------------------------------------------------------------------

/// The frame an outgoing intent stands for on the wire.
pub open spec fn frame_of_intent(i: IntentView) -> FrameView {
    match i {
        IntentView::Register { username } => FrameView::Register { data: username },
        IntentView::Message { body } => FrameView::Message { data: body },
    }
}

/// A hex digit reads back as its value.
proof fn lemma_hex_roundtrip(v: u32)
    requires
        v < 16,
    ensures
        hex_val(hex_digit(v)) == Some(v),
{
}

/// An escaped text followed by a closing quote parses back to the text.
proof fn lemma_parse_escaped(k: Seq<char>, rest: Seq<char>)
    ensures
        parse_string_body(escape(k) + seq!['"'] + rest) == Some((k, rest)),
    decreases k.len(),
{
    let s = escape(k) + seq!['"'] + rest;
    if k.len() == 0 {
        assert(escape(k) =~= Seq::<char>::empty());
        assert(s =~= seq!['"'] + rest);
        assert(s[0] == '"');
        assert(s.drop_first() =~= rest);
        assert(k =~= Seq::<char>::empty());
    } else {
        let c = k[0];
        let k1 = k.drop_first();
        lemma_parse_escaped(k1, rest);
        let tail = escape(k1) + seq!['"'] + rest;
        assert(escape(k) == escaped_char(c) + escape(k1));
        assert(s =~= escaped_char(c) + tail);
        assert(seq![c] + k1 =~= k);
        if c == '"' {
            assert(s.skip(2) =~= tail);
            assert(parse_string_body(s) == Some((k, rest)));
        } else if c == '\\' {
            assert(s.skip(2) =~= tail);
            assert(parse_string_body(s) == Some((k, rest)));
        } else if c == '\n' {
            assert(s.skip(2) =~= tail);
            assert(parse_string_body(s) == Some((k, rest)));
        } else if c == '\r' {
            assert(s.skip(2) =~= tail);
            assert(parse_string_body(s) == Some((k, rest)));
        } else if c == '\t' {
            assert(s.skip(2) =~= tail);
            assert(parse_string_body(s) == Some((k, rest)));
        } else if (c as u32) < 32 {
            let v = c as u32;
            assert(s[0] == '\\' && s[1] == 'u');
            assert(s[2] == '0' && s[3] == '0' && s[4] == hex_digit(v / 16) && s[5] == hex_digit(
                v % 16,
            ));
            lemma_hex_roundtrip(v / 16);
            lemma_hex_roundtrip(v % 16);
            assert(hex_val('0') == Some(0u32));
            assert((v / 16) * 16 + v % 16 == v);
            assert(is_scalar(v));
            vstd::utf8::char_u32_cast(c, v);
            assert(((v as u32) as char) == c);
            assert(s.skip(6) =~= tail);
            assert(parse_string_body(s) == Some((k, rest)));
        } else {
            assert(s[0] == c);
            assert(s.drop_first() =~= tail);
            assert(parse_string_body(s) == Some((k, rest)));
        }
    }
}

/// A JSON string token followed by anything parses back to its text.
proof fn lemma_parse_json_string(k: Seq<char>, rest: Seq<char>)
    ensures
        parse_string(json_string(k) + rest) == Some((k, rest)),
{
    let s = json_string(k) + rest;
    assert(s[0] == '"');
    assert(s.len() > 0);
    assert(s.drop_first() =~= escape(k) + seq!['"'] + rest);
    lemma_parse_escaped(k, rest);
}

/// Text that starts with a non-whitespace character keeps itself under
/// `skip_ws`.
proof fn lemma_skip_ws_nonws(s: Seq<char>)
    requires
        s.len() > 0,
        !is_ws(s[0]),
    ensures
        skip_ws(s) == s,
{
}

/// The members of an encoded frame parse back to its tag and payload.
proof fn lemma_parse_encoded_members(tag: Seq<char>, payload: Seq<char>)
    ensures
        parse_members(
            json_string("messageType"@) + seq![':'] + json_string(tag) + seq![','] + json_string(
                "dataArray"@,
            ) + seq![':'] + "null"@ + seq![','] + json_string("data"@) + seq![':'] + json_string(
                payload,
            ) + seq!['}'],
            PartialFrameView { message_type: None, data_array: None, data: None },
        ) == Some(
            (
                PartialFrameView {
                    message_type: Some(tag),
                    data_array: None,
                    data: Some(payload),
                },
                Seq::<char>::empty(),
            ),
        ),
{
    reveal_strlit("messageType");
    reveal_strlit("dataArray");
    reveal_strlit("data");
    reveal_strlit("null");
    let pf0 = PartialFrameView { message_type: None, data_array: None, data: None };
    let pf1 = PartialFrameView { message_type: Some(tag), data_array: None, data: None };
    let pf2 = PartialFrameView { message_type: Some(tag), data_array: None, data: Some(payload) };
    let s13 = seq!['}'];
    let s12 = json_string(payload) + s13;
    let s11 = seq![':'] + s12;
    let s10 = json_string("data"@) + s11;
    let s9 = seq![','] + s10;
    let s8 = "null"@ + s9;
    let s7 = seq![':'] + s8;
    let s6 = json_string("dataArray"@) + s7;
    let s5 = seq![','] + s6;
    let s4 = json_string(tag) + s5;
    let s3 = seq![':'] + s4;
    let s2 = json_string("messageType"@) + s3;
    assert(json_string("messageType"@) + seq![':'] + json_string(tag) + seq![','] + json_string(
        "dataArray"@,
    ) + seq![':'] + "null"@ + seq![','] + json_string("data"@) + seq![':'] + json_string(payload)
        + seq!['}'] =~= s2);

    // first member: "messageType": tag
    lemma_parse_json_string("messageType"@, s3);
    assert(parse_string(s2) == Some(("messageType"@, s3)));
    lemma_skip_ws_nonws(s3);
    assert(s3[0] == ':');
    assert(s3.drop_first() =~= s4);
    lemma_skip_ws_nonws(s4);
    assert(s4[0] == '"');
    assert(s4.drop_first() =~= escape(tag) + seq!['"'] + s5);
    lemma_parse_escaped(tag, s5);
    assert(parse_value(s4) == Some((JsonValView::Str(tag), s5)));
    assert("messageType"@.len() == 11);
    assert(assign_field(pf0, "messageType"@, JsonValView::Str(tag)) == Some(pf1));
    lemma_skip_ws_nonws(s5);
    assert(s5[0] == ',');
    assert(s5.drop_first() =~= s6);
    lemma_skip_ws_nonws(s6);
    assert(parse_members(s2, pf0) == parse_members(s6, pf1));

    // second member: "dataArray": null
    lemma_parse_json_string("dataArray"@, s7);
    assert(parse_string(s6) == Some(("dataArray"@, s7)));
    lemma_skip_ws_nonws(s7);
    assert(s7[0] == ':');
    assert(s7.drop_first() =~= s8);
    lemma_skip_ws_nonws(s8);
    assert(s8[0] == 'n' && s8[1] == 'u' && s8[2] == 'l' && s8[3] == 'l');
    assert(s8[0] != '"' && s8[0] != '[');
    assert(s8.len() >= 4);
    assert(s8.skip(4) =~= s9);
    assert(parse_value(s8) == Some((JsonValView::Null, s9)));
    assert("dataArray"@.len() == 9);
    assert("dataArray"@ != "messageType"@);
    assert(assign_field(pf1, "dataArray"@, JsonValView::Null) == Some(pf1));
    lemma_skip_ws_nonws(s9);
    assert(s9[0] == ',');
    assert(s9.drop_first() =~= s10);
    lemma_skip_ws_nonws(s10);
    assert(parse_members(s6, pf1) == parse_members(s10, pf1));

    // third member: "data": payload
    lemma_parse_json_string("data"@, s11);
    assert(parse_string(s10) == Some(("data"@, s11)));
    lemma_skip_ws_nonws(s11);
    assert(s11[0] == ':');
    assert(s11.drop_first() =~= s12);
    lemma_skip_ws_nonws(s12);
    assert(s12[0] == '"');
    assert(s12.drop_first() =~= escape(payload) + seq!['"'] + s13);
    lemma_parse_escaped(payload, s13);
    assert(parse_value(s12) == Some((JsonValView::Str(payload), s13)));
    assert("data"@.len() == 4);
    assert("data"@ != "messageType"@ && "data"@ != "dataArray"@);
    assert(assign_field(pf1, "data"@, JsonValView::Str(payload)) == Some(pf2));
    lemma_skip_ws_nonws(s13);
    assert(s13[0] == '}');
    assert(s13.drop_first() =~= Seq::<char>::empty());
    assert(parse_members(s10, pf1) == Some((pf2, Seq::<char>::empty())));
}

/// Decoding is total over the three known tags and never partially
/// succeeds: gathered fields with no `messageType`, with an unrecognized
/// one, with `"users"` but no `dataArray`, or with `"register"` or
/// `"message"` but no `data`, mean no frame at all.
pub proof fn lemma_decode_totality(pf: PartialFrameView)
    ensures
        pf.message_type is None ==> frame_of_fields(pf) is None,
        (match pf.message_type {
            Some(tag) => tag != "users"@ && tag != "register"@ && tag != "message"@,
            None => false,
        }) ==> frame_of_fields(pf) is None,
        pf.message_type == Some("users"@) && pf.data_array is None ==> frame_of_fields(pf)
            is None,
        (pf.message_type == Some("register"@) || pf.message_type == Some("message"@))
            && pf.data is None ==> frame_of_fields(pf) is None,
{
    reveal_strlit("users");
    reveal_strlit("register");
    reveal_strlit("message");
    assert("users"@.len() == 5 && "register"@.len() == 8 && "message"@.len() == 7);
}

/// Decoding recovers an encoded intent: the wire text of `Register` or
/// `Message` decodes to exactly the frame the intent stands for.
#[verifier::rlimit(60)]
pub proof fn lemma_decode_encode(i: IntentView)
    ensures
        decoded_frame(encoded_intent(i)) == Some(frame_of_intent(i)),
{
    reveal_strlit("users");
    reveal_strlit("register");
    reveal_strlit("message");
    let (tag, payload): (Seq<char>, Seq<char>) = match i {
        IntentView::Register { username } => ("register"@, username),
        IntentView::Message { body } => ("message"@, body),
    };
    let m = json_string("messageType"@) + seq![':'] + json_string(tag) + seq![','] + json_string(
        "dataArray"@,
    ) + seq![':'] + "null"@ + seq![','] + json_string("data"@) + seq![':'] + json_string(payload)
        + seq!['}'];
    let s = encoded_intent(i);
    assert(s =~= seq!['{'] + m);
    assert(s[0] == '{');
    lemma_skip_ws_nonws(s);
    assert(s.drop_first() =~= m);
    assert(m[0] == '"');
    lemma_skip_ws_nonws(m);
    lemma_parse_encoded_members(tag, payload);
    let pf2 = PartialFrameView { message_type: Some(tag), data_array: None, data: Some(payload) };
    assert(parse_members(m, PartialFrameView { message_type: None, data_array: None, data: None })
        == Some((pf2, Seq::<char>::empty())));
    assert(skip_ws(Seq::<char>::empty()).len() == 0);
    assert("users"@.len() == 5 && "register"@.len() == 8 && "message"@.len() == 7);
    assert(tag != "users"@);
    assert(frame_of_fields(pf2) == Some(frame_of_intent(i)));
}

} // verus!
