use vstd::prelude::*;
use crate::frame_lib::mesh::{trans_to_string, hex_string, lemma_hex_string_shape};

verus! {

/// Topic on which mesh commands are sent to the radio manager.
pub const TXTOPIC: &'static str = "rfmanage/notify/message/comlm/comlm";

/// Largest token value that is not reset before the next message.
pub const TOKEN_LIMIT: u16 = 4096;

/// Counter that numbers the messages sent to the radio manager.
#[derive(Debug, PartialEq, Eq)]
pub struct Token {
    pub token: u16,
}

impl Token {
    pub fn new(init_num: u16) -> (t: Token)
        ensures
            t.token == init_num,
    {
        Token { token: init_num }
    }

    pub fn add(&mut self, add_num: u16)
        requires
            old(self).token + add_num <= u16::MAX,
        ensures
            final(self).token == old(self).token + add_num,
    {
        self.token = self.token + add_num;
    }

    pub fn get(&self) -> (t: u16)
        ensures
            t == self.token,
    {
        self.token
    }

    pub fn set(&mut self, set_num: u16)
        ensures
            final(self).token == set_num,
    {
        self.token = set_num;
    }
}

/// Token that numbers the message sent after one numbered `t`: counting restarts
/// once the count has passed the limit.
pub open spec fn next_token(t: u16) -> u16 {
    if t > TOKEN_LIMIT {
        1
    } else {
        (t + 1) as u16
    }
}

/// Decimal digit character of a value below 10.
pub open spec fn decimal_digit(d: nat) -> char {
    (d + 48) as char
}

/// Decimal text of a natural number, without leading zeros.
pub open spec fn decimal(n: nat) -> Seq<char>
    decreases n,
{
    if n < 10 {
        seq![decimal_digit(n)]
    } else {
        decimal(n / 10).push(decimal_digit(n % 10))
    }
}

/// Decimal text of a `u16`.
///
/// Trusted: `ToString::to_string` on `u16`, which formats through `Display`; std
/// documents integer `Display` as the decimal representation, without leading zeros
/// and without sign for unsigned values.
#[verifier::external_body]
fn u16_to_string(n: u16) -> (s: String)
    ensures
        s@ == decimal(n as nat),
{
    n.to_string()
}

/// The current UTC time as `YYYY-MM-DDTHH:MM:SSZ`.
///
/// Trusted: `chrono::Utc::now` and `DateTime::format` with that pattern. Nothing is
/// stated of the result: it depends on the clock.
#[verifier::external_body]
fn utc_timestamp() -> String {
    chrono::Utc::now().format("%Y-%m-%dT%H:%M:%SZ").to_string()
}

#[derive(Debug, PartialEq, Eq)]
pub struct MeshMessageBody {
    pub kind: u8,
    pub len: u32,
    pub data: String,
}

/// Message that carries a frame to or from the radio manager.
#[derive(Debug, PartialEq, Eq)]
pub struct MeshMessage {
    pub token: String,
    pub timestamp: String,
    pub body: MeshMessageBody,
}

/// Type byte of every mesh message body.
pub const MESSAGE_TYPE: u8 = 255;

impl MeshMessage {
    /// Wraps `data` in a message numbered by the next value of `token`, stamped with
    /// the current time.
    pub fn new(token: &mut Token, data: &[u8]) -> (m: MeshMessage)
        requires
            data@.len() % 4294967296 < 2147483648,
        ensures
            final(token).token == next_token(old(token).token),
            m.token@ == decimal(final(token).token as nat),
            m.body.kind == MESSAGE_TYPE,
            m.body.len == (data@.len() % 4294967296) * 2,
            m.body.data@ == hex_string(data@),
    {
        let len: u32 = ((data.len() as u64 % 4294967296) as u32) * 2;
        let d_string: String = trans_to_string(data);
        if token.get() > TOKEN_LIMIT {
            token.set(0);
        }
        token.add(1);
        let dt = utc_timestamp();
        MeshMessage {
            token: u16_to_string(token.get()),
            timestamp: dt,
            body: MeshMessageBody { kind: MESSAGE_TYPE, len, data: d_string },
        }
    }
}


/// What a `MeshMessage` holds, its timestamp aside.
pub struct MessageView {
    pub token: Seq<char>,
    pub kind: u8,
    pub len: u32,
    pub data: Seq<char>,
}

impl View for MeshMessage {
    type V = MessageView;

    open spec fn view(&self) -> MessageView {
        MessageView {
            token: self.token@,
            kind: self.body.kind,
            len: self.body.len,
            data: self.body.data@,
        }
    }
}

/// The message that carries `frame` when the token counter stands at `token`.
pub open spec fn message_for(token: u16, frame: Seq<u8>) -> MessageView {
    MessageView {
        token: decimal(next_token(token) as nat),
        kind: MESSAGE_TYPE,
        len: ((frame.len() % 4294967296) * 2) as u32,
        data: hex_string(frame),
    }
}

/// The token counter after `k` messages from `token` on.
pub open spec fn token_after(token: u16, k: nat) -> u16
    decreases k,
{
    if k == 0 {
        token
    } else {
        next_token(token_after(token, (k - 1) as nat))
    }
}

/// What a message to publish carries.
#[derive(Debug, PartialEq, Eq)]
pub enum Payload {
    /// A mesh message, sent as JSON.
    Mesh(MeshMessage),
    /// Plain text.
    Text(String),
}

/// A message to publish on a topic.
#[derive(Debug, PartialEq, Eq)]
pub struct Publish {
    pub topic: String,
    pub payload: Payload,
}

/// What a `Payload` holds.
pub enum PayloadView {
    Mesh(MessageView),
    Text(Seq<char>),
}

impl View for Publish {
    type V = (Seq<char>, PayloadView);

    open spec fn view(&self) -> (Seq<char>, PayloadView) {
        (
            self.topic@,
            match &self.payload {
                Payload::Mesh(m) => PayloadView::Mesh(m@),
                Payload::Text(t) => PayloadView::Text(t@),
            },
        )
    }
}

pub open spec fn publishes_view(v: Seq<Publish>) -> Seq<(Seq<char>, PayloadView)> {
    v.map_values(|p: Publish| p@)
}

/// A mesh message that carries `frame`, to publish on `topic`.
pub fn mesh_publish(token: &mut Token, topic: &str, frame: &[u8]) -> (p: Publish)
    requires
        frame@.len() % 4294967296 < 2147483648,
    ensures
        final(token).token == next_token(old(token).token),
        p@ == (topic@, PayloadView::Mesh(message_for(old(token).token, frame@))),
{
    let m = MeshMessage::new(token, frame);
    Publish { topic: topic.to_owned(), payload: Payload::Mesh(m) }
}

/// The text `text`, to publish on `topic`.
pub fn text_publish(topic: &str, text: &str) -> (p: Publish)
    ensures
        p@ == (topic@, PayloadView::Text(text@)),
{
    Publish { topic: topic.to_owned(), payload: Payload::Text(text.to_owned()) }
}


/// Message tokens stay between 1 and one past the limit, however many messages were
/// numbered from a token in that range (or from the initial 0).
pub proof fn lemma_token_range(token: u16, k: nat)
    requires
        token <= TOKEN_LIMIT + 1,
    ensures
        k > 0 ==> 1 <= token_after(token, k) <= TOKEN_LIMIT + 1,
        token_after(token, k) <= TOKEN_LIMIT + 1,
    decreases k,
{
    if k > 0 {
        lemma_token_range(token, (k - 1) as nat);
    }
}

/// The length that a message declares is the length of its hexadecimal data text.
pub proof fn lemma_message_len_is_text_len(token: u16, frame: Seq<u8>)
    requires
        frame.len() < 2147483648,
    ensures
        message_for(token, frame).len == message_for(token, frame).data.len(),
{
    lemma_hex_string_shape(frame);
}

} // verus!
