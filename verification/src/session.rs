//! The chat session state machine: the reconciliation core.
//!
//! A `Chat` consumes decoded protocol frames and keeps the two UI-facing
//! collections consistent with the server's view: a `Users` frame replaces
//! the roster wholesale, in server order, one profile per name with its
//! avatar URL derived from the name; a `Message` frame whose nested payload
//! decodes is appended to the log, in arrival order; everything else —
//! inbound `Register` frames, unknown tags, malformed text — changes
//! nothing.  A message sender need not be in the roster: resolving a sender
//! is a lookup at read time that may miss, never a failure.

use vstd::prelude::*;
use vstd::string::StringExecFns;
use crate::codec::DecodeError;
use crate::codec::FrameView;
use crate::codec::Intent;
use crate::codec::IntentView;
use crate::codec::MessageData;
use crate::codec::MessageDataView;
use crate::codec::Frame;
use crate::codec::decode;
use crate::codec::decode_message_payload;
use crate::codec::decoded_frame;
use crate::codec::decoded_payload;
use crate::codec::encode;
use crate::codec::encoded_intent;
use crate::transport::ConnectionHandle;

verus! {

/// One present user as the UI shows it.
pub struct UserProfile {
    pub name: String,
    pub avatar: String,
}

/// The abstract value of a `UserProfile`.
#[verifier::ext_equal]
pub struct UserProfileView {
    pub name: Seq<char>,
    pub avatar: Seq<char>,
}

impl View for UserProfile {
    type V = UserProfileView;

    open spec fn view(&self) -> UserProfileView {
        UserProfileView { name: self.name@, avatar: self.avatar@ }
    }
}

impl DeepView for UserProfile {
    type V = UserProfileView;

    open spec fn deep_view(&self) -> UserProfileView {
        self.view()
    }
}

/// The avatar URL derived from a name: a fixed template around the name.
pub open spec fn avatar_of(name: Seq<char>) -> Seq<char> {
    "https://avatars.dicebear.com/api/adventurer-neutral/"@ + name + ".svg"@
}

/// The roster a `Users` frame means: one profile per listed name, in the
/// server-given order.
pub open spec fn roster_of(usernames: Seq<Seq<char>>) -> Seq<UserProfileView> {
    usernames.map(|i: int, u: Seq<char>| UserProfileView { name: u, avatar: avatar_of(u) })
}

/// An event handed to the state machine: one raw inbound payload, or the
/// user submitting the current input.
pub enum Msg {
    HandleMsg(String),
    SubmitMessage,
}

/// The abstract state of a chat session.
#[verifier::ext_equal]
pub struct ChatView {
    pub users: Seq<UserProfileView>,
    pub log: Seq<MessageDataView>,
    pub input: Seq<char>,
    pub username: Seq<char>,
}

/// What one decoded frame does to the session state.
pub open spec fn apply_frame(v: ChatView, f: FrameView) -> ChatView {
    match f {
        FrameView::Users { usernames } => ChatView { users: roster_of(usernames), ..v },
        FrameView::Message { data } => match decoded_payload(data) {
            Some(m) => ChatView { log: v.log.push(m), ..v },
            None => v,
        },
        FrameView::Register { .. } => v,
    }
}

/// What one raw inbound payload does to the session state: its decoded
/// frame is applied; text that decodes to no frame is dropped.
pub open spec fn apply_raw(v: ChatView, raw: Seq<char>) -> ChatView {
    match decoded_frame(raw) {
        Some(f) => apply_frame(v, f),
        None => v,
    }
}

/// Whether a raw inbound payload changes what the UI shows: a `Users`
/// frame, or a `Message` frame whose nested payload decodes.
pub open spec fn rerenders(raw: Seq<char>) -> bool {
    match decoded_frame(raw) {
        Some(FrameView::Users { .. }) => true,
        Some(FrameView::Message { data }) => decoded_payload(data) is Some,
        _ => false,
    }
}

/// The state after a whole sequence of decoded frames, applied in order.
pub open spec fn apply_all(v: ChatView, frames: Seq<FrameView>) -> ChatView
    decreases frames.len(),
{
    if frames.len() == 0 {
        v
    } else {
        apply_all(apply_frame(v, frames[0]), frames.drop_first())
    }
}

/// The messages a sequence of frames adds to the log: the decoded payload
/// of each `Message` frame whose payload decodes, in frame order.
pub open spec fn logged_messages(frames: Seq<FrameView>) -> Seq<MessageDataView>
    decreases frames.len(),
{
    if frames.len() == 0 {
        Seq::empty()
    } else {
        let rest = logged_messages(frames.drop_first());
        match frames[0] {
            FrameView::Message { data } => match decoded_payload(data) {
                Some(m) => seq![m] + rest,
                None => rest,
            },
            _ => rest,
        }
    }
}

/// A `Users` frame replaces the roster wholesale: the state it leaves does
/// not depend on the roster it found, and the new roster lists exactly the
/// frame's names, in the frame's order, each with its derived avatar.
pub proof fn lemma_users_full_replacement(
    v1: ChatView,
    v2: ChatView,
    usernames: Seq<Seq<char>>,
)
    ensures
        apply_frame(v1, FrameView::Users { usernames }).users == apply_frame(
            v2,
            FrameView::Users { usernames },
        ).users,
        apply_frame(v1, FrameView::Users { usernames }).users == roster_of(usernames),
        roster_of(usernames).len() == usernames.len(),
        forall|i: int|
            0 <= i < usernames.len() ==> #[trigger] roster_of(usernames)[i] == (UserProfileView {
                name: usernames[i],
                avatar: avatar_of(usernames[i]),
            }),
{
}

/// Applying the same `Users` frame twice in a row leaves exactly the state
/// of applying it once.
pub proof fn lemma_users_idempotent(v: ChatView, usernames: Seq<Seq<char>>)
    ensures
        apply_frame(apply_frame(v, FrameView::Users { usernames }), FrameView::Users { usernames })
            == apply_frame(v, FrameView::Users { usernames }),
{
    assert(apply_frame(
        apply_frame(v, FrameView::Users { usernames }),
        FrameView::Users { usernames },
    ) =~= apply_frame(v, FrameView::Users { usernames }));
}

/// The log is append-only and order-preserving: any sequence of frames
/// leaves the prior log as a prefix, followed by exactly the payloads of
/// its decodable `Message` frames in order — frames of other kinds in
/// between neither drop nor reorder anything.
pub proof fn lemma_log_append_only(v: ChatView, frames: Seq<FrameView>)
    ensures
        apply_all(v, frames).log == v.log + logged_messages(frames),
    decreases frames.len(),
{
    if frames.len() == 0 {
        assert(v.log + logged_messages(frames) =~= v.log);
    } else {
        let v1 = apply_frame(v, frames[0]);
        lemma_log_append_only(v1, frames.drop_first());
        assert(apply_all(v, frames).log =~= v.log + logged_messages(frames));
    }
}

/// The chat session: the roster and the append-only message log, the
/// pending input text, and the session identity chosen at login.
pub struct Chat {
    users: Vec<UserProfile>,
    messages: Vec<MessageData>,
    input: String,
    username: String,
}

impl View for Chat {
    type V = ChatView;

    closed spec fn view(&self) -> ChatView {
        ChatView {
            users: self.users.deep_view(),
            log: self.messages.deep_view(),
            input: self.input@,
            username: self.username@,
        }
    }
}

impl DeepView for MessageData {
    type V = MessageDataView;

    open spec fn deep_view(&self) -> MessageDataView {
        self.view()
    }
}

/// Build the avatar URL of one name.
fn avatar_url(name: &str) -> (r: String)
    ensures
        r@ == avatar_of(name@),
{
    let mut out = String::new();
    out.append("https://avatars.dicebear.com/api/adventurer-neutral/");
    out.append(name);
    out.append(".svg");
    assert(out@ =~= avatar_of(name@));
    out
}

/// Build the roster a `Users` frame means.
fn profiles_of(usernames: &Vec<String>) -> (r: Vec<UserProfile>)
    ensures
        r.deep_view() == roster_of(usernames.deep_view()),
{
    let n = usernames.len();
    let mut profiles: Vec<UserProfile> = Vec::new();
    let mut i: usize = 0;
    while i < n
        invariant
            i <= n,
            n == usernames@.len(),
            profiles@.len() == i,
            forall|j: int|
                0 <= j < i ==> #[trigger] profiles@[j]@ == (UserProfileView {
                    name: usernames@[j]@,
                    avatar: avatar_of(usernames@[j]@),
                }),
        decreases n - i,
    {
        let name = usernames[i].clone();
        let avatar = avatar_url(name.as_str());
        profiles.push(UserProfile { name, avatar });
        i = i + 1;
    }
    proof {
        assert forall|j: int| 0 <= j < n implies profiles.deep_view()[j] == roster_of(
            usernames.deep_view(),
        )[j] by {
            assert(profiles.deep_view()[j] == profiles@[j]@);
            assert(usernames.deep_view()[j] == usernames@[j]@);
        }
        assert(profiles.deep_view() =~= roster_of(usernames.deep_view()));
    }
    profiles
}

impl Chat {
    /// Open a session: connect, announce presence by sending a `Register`
    /// frame with the session identity, and start from an empty roster and
    /// log.
    pub fn create(username: String) -> (r: (Chat, ConnectionHandle))
        ensures
            r.0@ == (ChatView {
                users: Seq::empty(),
                log: Seq::empty(),
                input: Seq::empty(),
                username: username@,
            }),
            r.1@.connected,
            r.1@.sent == seq![
                encoded_intent(IntentView::Register { username: username@ }),
            ],
    {
        let mut conn = ConnectionHandle::connect();
        let reg = encode(&Intent::Register { username: username.clone() });
        let sent = conn.send(reg.as_str());
        proof {
            assert(conn@.sent =~= seq![
                encoded_intent(IntentView::Register { username: username@ }),
            ]);
        }
        let chat = Chat {
            users: Vec::new(),
            messages: Vec::new(),
            input: String::new(),
            username,
        };
        proof {
            assert(chat@.users =~~= Seq::<UserProfileView>::empty());
            assert(chat@.log =~~= Seq::<MessageDataView>::empty());
        }
        (chat, conn)
    }

    /// React to one event.
    ///
    /// For `HandleMsg(raw)` the raw payload's decoded frame is applied to
    /// the state — `Users` replaces the roster, a `Message` with a decoding
    /// payload is appended to the log, and anything else (including
    /// malformed text) is dropped without error; the first result says
    /// whether the UI must re-render, and nothing is to be sent.
    ///
    /// For `SubmitMessage` the state is unchanged and the second result
    /// carries the encoded `Message` frame of the current input, for the
    /// caller to hand to the transport; the input stays populated until the
    /// send's outcome reaches `on_send_result`.
    pub fn update(&mut self, msg: Msg) -> (r: (bool, Option<String>))
        ensures
            (match msg {
                Msg::HandleMsg(raw) => final(self)@ == apply_raw(old(self)@, raw@) && r.0
                    == rerenders(raw@) && r.1 is None,
                Msg::SubmitMessage => final(self)@ == old(self)@ && r.0 == false && (match r.1 {
                    Some(t) => t@ == encoded_intent(
                        IntentView::Message { body: old(self)@.input },
                    ),
                    None => false,
                }),
            }),
    {
        match msg {
            Msg::HandleMsg(raw) => {
                match decode(raw.as_str()) {
                    Err(DecodeError::Malformed) => (false, None),
                    Ok(frame) => match frame {
                        Frame::Users { usernames } => {
                            self.users = profiles_of(&usernames);
                            assert(self@ =~= apply_raw(old(self)@, raw@));
                            (true, None)
                        },
                        Frame::Register { data: _ } => (false, None),
                        Frame::Message { data } => {
                            match decode_message_payload(data.as_str()) {
                                Ok(m) => {
                                    let ghost mv = m@;
                                    self.messages.push(m);
                                    proof {
                                        assert(self@.log =~= old(self)@.log.push(mv));
                                        assert(self@ =~= apply_raw(old(self)@, raw@));
                                    }
                                    (true, None)
                                },
                                Err(DecodeError::Malformed) => (false, None),
                            }
                        },
                    },
                }
            },
            Msg::SubmitMessage => {
                let text = encode(&Intent::Message { body: self.input.clone() });
                (false, Some(text))
            },
        }
    }

    /// Replace the pending input text.
    pub fn set_input(&mut self, text: String)
        ensures
            final(self)@ == (ChatView { input: text@, ..old(self)@ }),
    {
        self.input = text;
        assert(self@ =~= (ChatView { input: self.input@, ..old(self)@ }));
    }

    /// Record the outcome of sending a submitted message: a delivered
    /// attempt clears the input, a failed one leaves it populated so the
    /// user can retry.  Roster and log never change here.
    pub fn on_send_result(&mut self, delivered: bool)
        ensures
            delivered ==> final(self)@ == (ChatView { input: Seq::empty(), ..old(self)@ }),
            !delivered ==> final(self)@ == old(self)@,
    {
        if delivered {
            self.input = String::new();
            assert(self@ =~= (ChatView { input: Seq::<char>::empty(), ..old(self)@ }));
        }
    }

    /// How many users the roster holds.
    pub fn users_len(&self) -> (n: usize)
        ensures
            n == self@.users.len(),
    {
        self.users.len()
    }

    /// The `i`-th roster entry, in server order.
    pub fn user_at(&self, i: usize) -> (u: &UserProfile)
        requires
            i < self@.users.len(),
        ensures
            u@ == self@.users[i as int],
    {
        &self.users[i]
    }

    /// How many messages the log holds.
    pub fn log_len(&self) -> (n: usize)
        ensures
            n == self@.log.len(),
    {
        self.messages.len()
    }

    /// The `i`-th logged message, in arrival order.
    pub fn message_at(&self, i: usize) -> (m: &MessageData)
        requires
            i < self@.log.len(),
        ensures
            m@ == self@.log[i as int],
    {
        &self.messages[i]
    }

    /// The pending input text.
    pub fn input(&self) -> (t: &String)
        ensures
            t@ == self@.input,
    {
        &self.input
    }

    /// The session identity chosen at login.
    pub fn username(&self) -> (t: &String)
        ensures
            t@ == self@.username,
    {
        &self.username
    }

    /// Resolve a message sender against the roster: the first profile of
    /// that name, or `None` when the sender is not (yet, or no longer)
    /// present — a recoverable miss, never an error.
    pub fn find_user(&self, name: &String) -> (r: Option<&UserProfile>)
        ensures
            (match r {
                Some(u) => exists|j: int|
                    0 <= j < self@.users.len() && u@ == self@.users[j] && self@.users[j].name
                        == name@ && (forall|k: int|
                        0 <= k < j ==> self@.users[k].name != name@),
                None => forall|j: int|
                    0 <= j < self@.users.len() ==> self@.users[j].name != name@,
            }),
    {
        let n = self.users.len();
        let mut i: usize = 0;
        while i < n
            invariant
                i <= n,
                n == self@.users.len(),
                forall|k: int| 0 <= k < i ==> self@.users[k].name != name@,
            decreases n - i,
        {
            if self.users[i].name.eq(name) {
                assert(self@.users[i as int].name == name@);
                return Some(&self.users[i]);
            }
            assert(self@.users[i as int].name != name@);
            i = i + 1;
        }
        None
    }
}

} // verus!
