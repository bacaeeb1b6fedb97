//! Datagram framing.
//!
//! A message is exactly one datagram: one kind byte followed by the payload.
//! The transport keeps datagram boundaries, so no length is carried.

use vstd::prelude::*;
use vstd::utf8::*;

verus! {

/// The kinds of message that have a meaning on the wire.
#[derive(Debug, Clone, Copy, PartialEq, Eq)]
pub enum MessageType {
    Audio,
    Ping,
    Hello,
    Bye,
    NewClient,
    DeleteClient,
}

impl MessageType {
    /// The byte that stands for this kind at the head of a datagram.
    pub open spec fn spec_code(self) -> u8 {
        match self {
            MessageType::Audio => 1,
            MessageType::Ping => 2,
            MessageType::Hello => 3,
            MessageType::Bye => 4,
            MessageType::NewClient => 5,
            MessageType::DeleteClient => 6,
        }
    }

    /// The kind that a head byte stands for, if it stands for one.
    pub open spec fn spec_from_code(code: u8) -> Option<MessageType> {
        if code == 1 {
            Some(MessageType::Audio)
        } else if code == 2 {
            Some(MessageType::Ping)
        } else if code == 3 {
            Some(MessageType::Hello)
        } else if code == 4 {
            Some(MessageType::Bye)
        } else if code == 5 {
            Some(MessageType::NewClient)
        } else if code == 6 {
            Some(MessageType::DeleteClient)
        } else {
            None
        }
    }

    #[verifier::when_used_as_spec(spec_code)]
    pub fn code(self) -> (code: u8)
        ensures
            code == self.spec_code(),
    {
        match self {
            MessageType::Audio => 1,
            MessageType::Ping => 2,
            MessageType::Hello => 3,
            MessageType::Bye => 4,
            MessageType::NewClient => 5,
            MessageType::DeleteClient => 6,
        }
    }

    #[verifier::when_used_as_spec(spec_from_code)]
    pub fn from_code(code: u8) -> (kind: Option<MessageType>)
        ensures
            kind == Self::spec_from_code(code),
    {
        match code {
            1 => Some(MessageType::Audio),
            2 => Some(MessageType::Ping),
            3 => Some(MessageType::Hello),
            4 => Some(MessageType::Bye),
            5 => Some(MessageType::NewClient),
            6 => Some(MessageType::DeleteClient),
            _ => None,
        }
    }
}

/// A datagram as the receiver understands it. Payloads borrow from the
/// datagram; only the text of a `Hello` is owned, because it may have been
/// repaired.
#[derive(Debug, PartialEq, Eq)]
pub enum Message<'a> {
    Audio(&'a [u8]),
    Ping,
    Hello(String),
    NewClient(&'a [u8]),
    DeleteClient(&'a [u8]),
    Bye,
    Unknown(u8, &'a [u8]),
}

/// The mathematical content of a [`Message`].
pub enum MessageView {
    Audio(Seq<u8>),
    Ping,
    Hello(Seq<char>),
    NewClient(Seq<u8>),
    DeleteClient(Seq<u8>),
    Bye,
    Unknown(u8, Seq<u8>),
}

impl<'a> View for Message<'a> {
    type V = MessageView;

    open spec fn view(&self) -> MessageView {
        match *self {
            Message::Audio(payload) => MessageView::Audio(payload@),
            Message::Ping => MessageView::Ping,
            Message::Hello(text) => MessageView::Hello(text@),
            Message::NewClient(payload) => MessageView::NewClient(payload@),
            Message::DeleteClient(payload) => MessageView::DeleteClient(payload@),
            Message::Bye => MessageView::Bye,
            Message::Unknown(code, payload) => MessageView::Unknown(code, payload@),
        }
    }
}

impl MessageView {
    /// The head byte of the datagram that this message came from.
    pub open spec fn code(self) -> u8 {
        match self {
            MessageView::Audio(_) => MessageType::Audio.spec_code(),
            MessageView::Ping => MessageType::Ping.spec_code(),
            MessageView::Hello(_) => MessageType::Hello.spec_code(),
            MessageView::NewClient(_) => MessageType::NewClient.spec_code(),
            MessageView::DeleteClient(_) => MessageType::DeleteClient.spec_code(),
            MessageView::Bye => MessageType::Bye.spec_code(),
            MessageView::Unknown(code, _) => code,
        }
    }

    /// The payload that this message carries. `Ping` and `Bye` carry none,
    /// and a `Hello` carries its text in UTF-8.
    pub open spec fn payload(self) -> Seq<u8> {
        match self {
            MessageView::Audio(payload) => payload,
            MessageView::Ping => Seq::empty(),
            MessageView::Hello(text) => encode_utf8(text),
            MessageView::NewClient(payload) => payload,
            MessageView::DeleteClient(payload) => payload,
            MessageView::Bye => Seq::empty(),
            MessageView::Unknown(_, payload) => payload,
        }
    }
}

/// The text that `String::from_utf8_lossy` makes of a byte string: what the
/// bytes encode, with U+FFFD in place of every ill-formed part.
pub uninterp spec fn utf8_lossy(bytes: Seq<u8>) -> Seq<char>;

/// The text that a payload holds: the payload read as UTF-8 where it is
/// well formed, and repaired where it is not.
pub open spec fn text_of(payload: Seq<u8>) -> Seq<char> {
    if valid_utf8(payload) {
        decode_utf8(payload)
    } else {
        utf8_lossy(payload)
    }
}

/// The datagram that carries `payload` under kind `msg_type`.
pub open spec fn encode_spec(msg_type: MessageType, payload: Seq<u8>) -> Seq<u8> {
    seq![msg_type.spec_code()] + payload
}

/// What a datagram means. An empty datagram and one with an unassigned head
/// byte are `Unknown`; neither is an error.
pub open spec fn decode_spec(buf: Seq<u8>) -> MessageView {
    if buf.len() == 0 {
        MessageView::Unknown(0, buf)
    } else {
        let payload = buf.subrange(1, buf.len() as int);
        match MessageType::spec_from_code(buf[0]) {
            Some(MessageType::Audio) => MessageView::Audio(payload),
            Some(MessageType::Ping) => MessageView::Ping,
            Some(MessageType::Hello) => MessageView::Hello(text_of(payload)),
            Some(MessageType::Bye) => MessageView::Bye,
            Some(MessageType::NewClient) => MessageView::NewClient(payload),
            Some(MessageType::DeleteClient) => MessageView::DeleteClient(payload),
            None => MessageView::Unknown(buf[0], payload),
        }
    }
}

/// Calls `String::from_utf8_lossy` and takes ownership of what it returns.
/// Trusted: the result depends on the bytes alone, and well-formed UTF-8
/// comes back as the text it encodes.
#[verifier::external_body]
pub(crate) fn lossy_text(bytes: &[u8]) -> (text: String)
    ensures
        text@ == utf8_lossy(bytes@),
        valid_utf8(bytes@) ==> text@ == decode_utf8(bytes@),
{
    String::from_utf8_lossy(bytes).into_owned()
}

/// Frames `payload` as one datagram of kind `msg_type`.
pub fn encode_message(msg_type: MessageType, payload: &[u8]) -> (out: Vec<u8>)
    ensures
        out@ == encode_spec(msg_type, payload@),
{
    let mut out: Vec<u8> = Vec::new();
    out.push(msg_type.code());
    out.extend_from_slice(payload);
    assert(out@ =~= encode_spec(msg_type, payload@));
    out
}

/// Reads one datagram. Never fails: what is not recognised is `Unknown`.
pub fn decode_message(buf: &[u8]) -> (msg: Message<'_>)
    ensures
        msg@ == decode_spec(buf@),
{
    if buf.len() == 0 {
        return Message::Unknown(0, buf);
    }
    let code = buf[0];
    let payload = vstd::slice::slice_subrange(buf, 1, buf.len());
    match MessageType::from_code(code) {
        Some(MessageType::Audio) => Message::Audio(payload),
        Some(MessageType::Ping) => Message::Ping,
        Some(MessageType::Hello) => Message::Hello(lossy_text(payload)),
        Some(MessageType::Bye) => Message::Bye,
        Some(MessageType::NewClient) => Message::NewClient(payload),
        Some(MessageType::DeleteClient) => Message::DeleteClient(payload),
        None => Message::Unknown(code, payload),
    }
}

/// Whether a datagram is of a kind that has a meaning on the wire. An empty
/// datagram is of none.
pub fn is_known(buf: &[u8]) -> (known: bool)
    ensures
        known == !(decode_spec(buf@) is Unknown),
{
    buf.len() > 0 && MessageType::from_code(buf[0]).is_some()
}

/// Whether a message of kind `msg_type` can carry `payload` unchanged:
/// `Ping` and `Bye` carry nothing, and a `Hello` carries text.
pub open spec fn carries(msg_type: MessageType, payload: Seq<u8>) -> bool {
    match msg_type {
        MessageType::Ping | MessageType::Bye => payload.len() == 0,
        MessageType::Hello => valid_utf8(payload),
        _ => true,
    }
}

/// Decoding an encoded message gives back its kind and, where the kind can
/// carry the payload, its payload byte for byte.
pub proof fn lemma_round_trip(msg_type: MessageType, payload: Seq<u8>)
    ensures
        decode_spec(encode_spec(msg_type, payload)).code() == msg_type.spec_code(),
        carries(msg_type, payload) ==> decode_spec(encode_spec(msg_type, payload)).payload()
            == payload,
        !(decode_spec(encode_spec(msg_type, payload)) is Unknown),
{
    let buf = encode_spec(msg_type, payload);
    assert(buf[0] == msg_type.spec_code());
    assert(buf.subrange(1, buf.len() as int) =~= payload);
    if msg_type is Hello && valid_utf8(payload) {
        decode_utf8_encode_utf8(payload);
    }
}

/// A datagram whose head byte is not assigned decodes to `Unknown` with that
/// byte and with everything after it untouched.
pub proof fn lemma_unknown_kind(code: u8, payload: Seq<u8>)
    requires
        MessageType::spec_from_code(code) is None,
    ensures
        decode_spec(seq![code] + payload) == MessageView::Unknown(code, payload),
{
    let buf = seq![code] + payload;
    assert(buf[0] == code);
    assert(buf.subrange(1, buf.len() as int) =~= payload);
}

} // verus!
