//! The client's two audio paths.
//!
//! Neither path touches a device, a codec or a socket. The send path takes
//! a captured buffer and says whether its frame is to be encoded and sent;
//! the receive path takes a datagram and says what is to be done with it.
//! Both look into their inbox of control events once per step and never
//! wait for one.

use crate::events::{events, receive_tui_message, send_all, TuiMessage, TuiMessageView};
use crate::gate::{is_silence, silent, GateView, VoiceGate, HANGOVER_LIMIT, SILENCE_THRESHOLD};
use crate::pcm::{bytes, bytes_from_samples, frame, samples, samples_from_bytes};
use crate::pcm::{BUF_SIZE, CHANNELS, MSG_SIZE};
use crate::peer::PeerAddr;
use crate::wire::{decode_message, decode_spec, encode_message, encode_spec, lossy_text, text_of};
use crate::wire::{Message, MessageType, MessageView};
use std::sync::mpsc::{Receiver, Sender};
use vstd::prelude::*;

verus! {

/// The event that a control inbox handed out, if it handed one out.
pub open spec fn seen(control: Option<TuiMessage>) -> Option<TuiMessageView> {
    match control {
        Some(message) => Some(message@),
        None => None,
    }
}

/// The send path between two frames.
pub struct SendView {
    pub gate: GateView,
    pub muted: bool,
}

/// What the send path does with one captured buffer. A `ToggleMute` that
/// was waiting takes effect first. While muted, the frame is dropped and the
/// voice gate does not see it. Otherwise it sees the frame and decides.
/// The result holds the frame if it is to be encoded and sent.
pub open spec fn screened(before: SendView, control: Option<TuiMessageView>, data: Seq<u8>) -> (
    SendView,
    Option<Seq<i16>>,
) {
    let muted = if control == Some(TuiMessageView::ToggleMute) {
        !before.muted
    } else {
        before.muted
    };
    if muted {
        (SendView { gate: before.gate, muted }, None)
    } else {
        let pcm = frame(data);
        let (gate, open) = before.gate.step(silent(pcm, SILENCE_THRESHOLD));
        (
            SendView { gate, muted },
            if open {
                Some(pcm)
            } else {
                None
            },
        )
    }
}

/// The state of the send path: the voice gate, the mute flag, and the two
/// channels that connect it to the presentation.
pub struct NetworkClient {
    gate: VoiceGate,
    muted: bool,
    tx: Option<Sender<TuiMessage>>,
    rx_send_audio: Option<Receiver<TuiMessage>>,
}

impl View for NetworkClient {
    type V = SendView;

    closed spec fn view(&self) -> SendView {
        SendView { gate: self.gate@, muted: self.muted }
    }
}

/// The samples of a frame that is to be sent, if one is.
pub open spec fn frame_view(frame: Option<Vec<i16>>) -> Option<Seq<i16>> {
    match frame {
        Some(pcm) => Some(pcm@),
        None => None,
    }
}

proof fn lemma_frame_prefix(data: Seq<u8>)
    requires
        data.len() >= BUF_SIZE,
    ensures
        samples(data.subrange(0, BUF_SIZE as int)) == frame(data),
{
    assert(samples(data.subrange(0, BUF_SIZE as int)) =~= frame(data));
}

/// What the send path reports of a captured buffer: a frame that is not
/// to be sent, because the path is muted or the voice gate suppressed it, is
/// reported as `TransmitAudio(false)`. Of a frame that is to be sent nothing
/// is reported before it has been encoded.
pub open spec fn screening_events(frame: Option<Seq<i16>>) -> Seq<TuiMessageView> {
    match frame {
        Some(_) => Seq::empty(),
        None => seq![TuiMessageView::TransmitAudio(false)],
    }
}

/// What the send path reports of an encoded frame: `TransmitAudio(true)`
/// if it was framed for sending, nothing otherwise.
pub open spec fn transmission_events(framed: bool) -> Seq<TuiMessageView> {
    if framed {
        seq![TuiMessageView::TransmitAudio(true)]
    } else {
        Seq::empty()
    }
}

/// The audio datagram for the first `len` bytes of `encoded`; none if
/// `encoded` is shorter than `len`.
pub open spec fn audio_datagram_spec(encoded: Seq<u8>, len: int) -> Option<Seq<u8>> {
    if len <= encoded.len() {
        Some(encode_spec(MessageType::Audio, encoded.take(len)))
    } else {
        None
    }
}

/// The bytes of a datagram, if there is one.
pub open spec fn datagram_view(datagram: Option<Vec<u8>>) -> Option<Seq<u8>> {
    match datagram {
        Some(bytes) => Some(bytes@),
        None => None,
    }
}

/// The events by which the send path reports what became of a captured
/// buffer.
pub fn screening_report(frame: &Option<Vec<i16>>) -> (messages: Vec<TuiMessage>)
    ensures
        events(messages@) == screening_events(frame_view(*frame)),
{
    let mut messages: Vec<TuiMessage> = Vec::new();
    if frame.is_none() {
        messages.push(TuiMessage::TransmitAudio(false));
    }
    assert(events(messages@) =~= screening_events(frame_view(*frame)));
    messages
}

/// The events by which the send path reports what became of an encoded
/// frame.
pub fn transmission_report(framed: bool) -> (messages: Vec<TuiMessage>)
    ensures
        events(messages@) == transmission_events(framed),
{
    let mut messages: Vec<TuiMessage> = Vec::new();
    if framed {
        messages.push(TuiMessage::TransmitAudio(true));
    }
    assert(events(messages@) =~= transmission_events(framed));
    messages
}

/// Frames the first `len` bytes of `encoded`, what the codec made of one
/// frame, as an audio datagram. There is none if `encoded` is shorter than
/// `len`.
pub fn audio_datagram(encoded: &[u8], len: usize) -> (datagram: Option<Vec<u8>>)
    ensures
        datagram_view(datagram) == audio_datagram_spec(encoded@, len as int),
        datagram is Some && encoded.len() <= BUF_SIZE ==> datagram->0@.len() <= MSG_SIZE,
{
    if len > encoded.len() {
        return None;
    }
    assert(encoded@.subrange(0, len as int) =~= encoded@.take(len as int));
    Some(encode_message(MessageType::Audio, vstd::slice::slice_subrange(encoded, 0, len)))
}

impl NetworkClient {
    /// Whether the send path has an inbox for control events.
    pub closed spec fn listens(&self) -> bool {
        self.rx_send_audio is Some
    }

    /// Whether the send path has a channel to report on.
    pub closed spec fn reports(&self) -> bool {
        self.tx is Some
    }

    /// A send path that is not muted, whose gate is closed to silence.
    /// Events go out on `tx` and come in on `rx_send_audio`, where there
    /// are such channels.
    pub fn new(
        tx: Option<Sender<TuiMessage>>,
        rx_send_audio: Option<Receiver<TuiMessage>>,
    ) -> (client: NetworkClient)
        ensures
            client@ == (SendView {
                gate: GateView { hangover: 0, limit: HANGOVER_LIMIT as nat },
                muted: false,
            }),
            client.listens() == rx_send_audio is Some,
            client.reports() == tx is Some,
    {
        NetworkClient { gate: VoiceGate::new(HANGOVER_LIMIT), muted: false, tx, rx_send_audio }
    }

    /// Whether the send path is muted.
    pub fn is_muted(&self) -> (muted: bool)
        ensures
            muted == self@.muted,
    {
        self.muted
    }

    /// Decides on one captured buffer, given the control event that was
    /// waiting, if one was. Returns the frame if it is to be encoded and
    /// sent.
    pub fn screen(&mut self, control: Option<TuiMessage>, data: &[u8]) -> (frame: Option<Vec<i16>>)
        requires
            data.len() >= BUF_SIZE,
        ensures
            final(self)@ == screened(old(self)@, seen(control), data@).0,
            frame_view(frame) == screened(old(self)@, seen(control), data@).1,
            final(self).listens() == old(self).listens(),
            final(self).reports() == old(self).reports(),
    {
        match control {
            Some(TuiMessage::ToggleMute) => {
                self.muted = !self.muted;
            },
            _ => {},
        }
        if self.muted {
            return None;
        }
        let pcm = samples_from_bytes(vstd::slice::slice_subrange(data, 0, BUF_SIZE));
        proof {
            lemma_frame_prefix(data@);
        }
        let quiet = is_silence(pcm.as_slice(), SILENCE_THRESHOLD);
        if self.gate.pass(quiet) {
            Some(pcm)
        } else {
            None
        }
    }

    /// Takes one captured buffer: looks into the inbox, decides as
    /// [`NetworkClient::screen`] does on what it found there, and reports
    /// the decision by the events of [`screening_report`]. A path without
    /// an inbox decides as on an empty one.
    pub fn consume(&mut self, data: &[u8]) -> (frame: Option<Vec<i16>>)
        requires
            data.len() >= BUF_SIZE,
        ensures
            exists|control: Option<TuiMessageView>|
                {
                    &&& final(self)@ == (#[trigger] screened(old(self)@, control, data@)).0
                    &&& frame_view(frame) == screened(old(self)@, control, data@).1
                },
            !old(self).listens() ==> {
                &&& final(self)@ == screened(old(self)@, None, data@).0
                &&& frame_view(frame) == screened(old(self)@, None, data@).1
            },
            final(self)@.muted ==> frame is None,
            final(self).listens() == old(self).listens(),
            final(self).reports() == old(self).reports(),
    {
        let control = receive_tui_message(&self.rx_send_audio);
        let ghost event = seen(control);
        let frame = self.screen(control, data);
        send_all(screening_report(&frame), &self.tx);
        assert(self@ == screened(old(self)@, event, data@).0);
        frame
    }

    /// Frames the first `len` bytes of `encoded` as [`audio_datagram`]
    /// does, and reports the outcome by the events of
    /// [`transmission_report`].
    pub fn transmit(&self, encoded: &[u8], len: usize) -> (datagram: Option<Vec<u8>>)
        ensures
            datagram_view(datagram) == audio_datagram_spec(encoded@, len as int),
            datagram is Some && encoded.len() <= BUF_SIZE ==> datagram->0@.len() <= MSG_SIZE,
    {
        let datagram = audio_datagram(encoded, len);
        send_all(transmission_report(datagram.is_some()), &self.tx);
        datagram
    }
}

/// Whatever was waiting in the inbox, a muted send path sends no frame, and
/// its voice gate stays as it was.
pub proof fn lemma_muted_sends_nothing(
    before: SendView,
    control: Option<TuiMessageView>,
    data: Seq<u8>,
)
    requires
        screened(before, control, data).0.muted,
    ensures
        screened(before, control, data).1 is None,
        screened(before, control, data).0.gate == before.gate,
{
}

/// What the receive path is to do with a datagram.
#[derive(Debug, PartialEq, Eq)]
pub enum Reception<'a> {
    /// Audio: decode this payload and play it.
    Play(&'a [u8]),
    /// Audio while deafened: the datagram is dropped and nothing follows.
    Skip,
    /// A peer has joined or left; `text` is its address as it came.
    Peer { joined: bool, text: String },
    /// The relay has said goodbye: the session is over.
    Shutdown,
    /// Nothing to do.
    Nothing,
}

pub enum ReceptionView {
    Play(Seq<u8>),
    Skip,
    Peer { joined: bool, text: Seq<char> },
    Shutdown,
    Nothing,
}

impl<'a> View for Reception<'a> {
    type V = ReceptionView;

    open spec fn view(&self) -> ReceptionView {
        match *self {
            Reception::Play(payload) => ReceptionView::Play(payload@),
            Reception::Skip => ReceptionView::Skip,
            Reception::Peer { joined, text } => ReceptionView::Peer { joined, text: text@ },
            Reception::Shutdown => ReceptionView::Shutdown,
            Reception::Nothing => ReceptionView::Nothing,
        }
    }
}

/// What a datagram asks of the receive path. A deafened path drops audio
/// unread. Greetings, pings and datagrams of unknown kind ask nothing.
pub open spec fn received(deafened: bool, datagram: Seq<u8>) -> ReceptionView {
    match decode_spec(datagram) {
        MessageView::Audio(payload) => if deafened {
            ReceptionView::Skip
        } else {
            ReceptionView::Play(payload)
        },
        MessageView::NewClient(payload) => ReceptionView::Peer {
            joined: true,
            text: text_of(payload),
        },
        MessageView::DeleteClient(payload) => ReceptionView::Peer {
            joined: false,
            text: text_of(payload),
        },
        MessageView::Bye => ReceptionView::Shutdown,
        _ => ReceptionView::Nothing,
    }
}

/// What a control event does to the receive path: the deafen flag
/// afterwards, and whether the session is to be left.
pub open spec fn heard(deafened: bool, control: Option<TuiMessageView>) -> (bool, bool) {
    match control {
        Some(TuiMessageView::ToggleDeafen) => (!deafened, false),
        Some(TuiMessageView::Exit) => (deafened, true),
        _ => (deafened, false),
    }
}

/// How the handling of a datagram ended.
#[derive(Debug, PartialEq, Eq)]
pub enum Outcome {
    /// Audio was decoded and handed to the device.
    Played,
    /// Audio was dropped: the path is deafened, or the codec refused it.
    Dropped,
    /// A peer joined or left; `addr` is its address if the text was one.
    Peer { joined: bool, addr: Option<PeerAddr> },
    /// There was nothing to do.
    Noted,
}

pub enum OutcomeView {
    Played,
    Dropped,
    Peer { joined: bool, addr: Option<Seq<char>> },
    Noted,
}

impl View for Outcome {
    type V = OutcomeView;

    open spec fn view(&self) -> OutcomeView {
        match *self {
            Outcome::Played => OutcomeView::Played,
            Outcome::Dropped => OutcomeView::Dropped,
            Outcome::Peer { joined, addr } => OutcomeView::Peer {
                joined,
                addr: match addr {
                    Some(addr) => Some(addr@),
                    None => None,
                },
            },
            Outcome::Noted => OutcomeView::Noted,
        }
    }
}

/// The events that report a datagram as handled. Dropped audio is not
/// reported. Anything else is reported as `Connect`, after the arrival or
/// departure of a peer if the datagram told of one and its address was
/// understood.
pub open spec fn completion_events(outcome: OutcomeView) -> Seq<TuiMessageView> {
    match outcome {
        OutcomeView::Dropped => Seq::empty(),
        OutcomeView::Peer { joined: true, addr: Some(addr) } => seq![
            TuiMessageView::NewClient(addr),
            TuiMessageView::Connect,
        ],
        OutcomeView::Peer { joined: false, addr: Some(addr) } => seq![
            TuiMessageView::DeleteClient(addr),
            TuiMessageView::Connect,
        ],
        _ => seq![TuiMessageView::Connect],
    }
}

/// The datagram by which a client announces itself.
pub fn hello_datagram() -> (datagram: Vec<u8>)
    ensures
        datagram@ == encode_spec(MessageType::Hello, Seq::empty()),
{
    let nothing: Vec<u8> = Vec::new();
    encode_message(MessageType::Hello, nothing.as_slice())
}

/// The datagram by which a client takes its leave.
pub fn bye_datagram() -> (datagram: Vec<u8>)
    ensures
        datagram@ == encode_spec(MessageType::Bye, Seq::empty()),
{
    let nothing: Vec<u8> = Vec::new();
    encode_message(MessageType::Bye, nothing.as_slice())
}

/// The bytes to play for what the codec decoded: the first `decoded`
/// samples of each channel of `pcm`. There are none to play if `pcm` does
/// not hold that many.
pub fn playback_bytes(pcm: &[i16], decoded: usize) -> (data: Option<Vec<u8>>)
    ensures
        CHANNELS * decoded > pcm.len() ==> data is None,
        CHANNELS * decoded <= pcm.len() ==> data is Some && data->0@ == bytes(
            pcm@.take(CHANNELS * decoded),
        ),
{
    if decoded > pcm.len() / CHANNELS {
        return None;
    }
    let count = CHANNELS * decoded;
    assert(pcm@.subrange(0, count as int) =~= pcm@.take(count as int));
    Some(bytes_from_samples(vstd::slice::slice_subrange(pcm, 0, count)))
}

/// The events that report a datagram as handled, in the order in which
/// they are to be sent.
pub fn completion(outcome: Outcome) -> (messages: Vec<TuiMessage>)
    ensures
        events(messages@) == completion_events(outcome@),
{
    let mut messages: Vec<TuiMessage> = Vec::new();
    match outcome {
        Outcome::Dropped => {},
        Outcome::Peer { joined: true, addr: Some(addr) } => {
            messages.push(TuiMessage::NewClient(addr));
            messages.push(TuiMessage::Connect);
        },
        Outcome::Peer { joined: false, addr: Some(addr) } => {
            messages.push(TuiMessage::DeleteClient(addr));
            messages.push(TuiMessage::Connect);
        },
        _ => {
            messages.push(TuiMessage::Connect);
        },
    }
    assert(events(messages@) =~= completion_events(outcome@));
    messages
}

/// What the receive path reports of a look into its inbox: `Disconnect`
/// if the session is to be left, nothing otherwise.
pub open spec fn leaving_events(leave: bool) -> Seq<TuiMessageView> {
    if leave {
        seq![TuiMessageView::Disconnect]
    } else {
        Seq::empty()
    }
}

/// The events by which the receive path reports what a look into its
/// inbox came to.
pub fn leaving_report(leave: bool) -> (messages: Vec<TuiMessage>)
    ensures
        events(messages@) == leaving_events(leave),
{
    let mut messages: Vec<TuiMessage> = Vec::new();
    if leave {
        messages.push(TuiMessage::Disconnect);
    }
    assert(events(messages@) =~= leaving_events(leave));
    messages
}

/// The state of the receive path: the deafen flag and the two channels
/// that connect it to the presentation.
pub struct AudioReceiver {
    deafened: bool,
    rx_receive_audio: Option<Receiver<TuiMessage>>,
    tx: Option<Sender<TuiMessage>>,
}

impl AudioReceiver {
    /// Whether the receive path is deafened.
    pub closed spec fn deafened(&self) -> bool {
        self.deafened
    }

    /// Whether the receive path has a channel to report on.
    pub closed spec fn reports(&self) -> bool {
        self.tx is Some
    }

    /// Whether the receive path has an inbox for control events.
    pub closed spec fn listens(&self) -> bool {
        self.rx_receive_audio is Some
    }

    /// A receive path that is not deafened. Events come in on
    /// `rx_receive_audio` and go out on `tx`, where there are such channels.
    pub fn new(
        rx_receive_audio: Option<Receiver<TuiMessage>>,
        tx: Option<Sender<TuiMessage>>,
    ) -> (receiver: AudioReceiver)
        ensures
            !receiver.deafened(),
            receiver.reports() == tx is Some,
            receiver.listens() == rx_receive_audio is Some,
    {
        AudioReceiver { deafened: false, rx_receive_audio, tx }
    }

    #[verifier::when_used_as_spec(deafened)]
    pub fn is_deafened(&self) -> (deafened: bool)
        ensures
            deafened == self.deafened(),
    {
        self.deafened
    }

    /// Applies the control event that was waiting, if one was, and says
    /// whether the session is to be left.
    pub fn control(&mut self, control: Option<TuiMessage>) -> (leave: bool)
        ensures
            final(self).deafened() == heard(old(self).deafened(), seen(control)).0,
            leave == heard(old(self).deafened(), seen(control)).1,
            final(self).listens() == old(self).listens(),
            final(self).reports() == old(self).reports(),
    {
        match control {
            Some(TuiMessage::ToggleDeafen) => {
                self.deafened = !self.deafened;
                false
            },
            Some(TuiMessage::Exit) => true,
            _ => false,
        }
    }

    /// Looks into the inbox and applies what it found there, as
    /// [`AudioReceiver::control`] does. If the session is to be left,
    /// returns the goodbye to send; what it came to is reported by the
    /// events of [`leaving_report`]. A path without an inbox stays as it is
    /// and never leaves.
    pub fn poll(&mut self) -> (bye: Option<Vec<u8>>)
        ensures
            exists|control: Option<TuiMessageView>|
                {
                    &&& final(self).deafened() == (#[trigger] heard(
                        old(self).deafened(),
                        control,
                    )).0
                    &&& bye is Some == heard(old(self).deafened(), control).1
                },
            !old(self).listens() ==> final(self).deafened() == old(self).deafened() && bye is None,
            bye is Some ==> bye->0@ == encode_spec(MessageType::Bye, Seq::empty()),
            final(self).listens() == old(self).listens(),
            final(self).reports() == old(self).reports(),
    {
        let control = receive_tui_message(&self.rx_receive_audio);
        let ghost event = seen(control);
        let leave = self.control(control);
        assert(self.deafened() == heard(old(self).deafened(), event).0);
        send_all(leaving_report(leave), &self.tx);
        if leave {
            Some(bye_datagram())
        } else {
            None
        }
    }

    /// Says what is to be done with a datagram.
    pub fn classify<'a>(&self, datagram: &'a [u8]) -> (reception: Reception<'a>)
        ensures
            reception@ == received(self.deafened(), datagram@),
    {
        match decode_message(datagram) {
            Message::Audio(payload) => {
                if self.deafened {
                    Reception::Skip
                } else {
                    Reception::Play(payload)
                }
            },
            Message::NewClient(payload) => Reception::Peer {
                joined: true,
                text: lossy_text(payload),
            },
            Message::DeleteClient(payload) => Reception::Peer {
                joined: false,
                text: lossy_text(payload),
            },
            Message::Bye => Reception::Shutdown,
            _ => Reception::Nothing,
        }
    }

    /// Reports a datagram as handled: sends the events of [`completion`]
    /// and says how many of them their channel took.
    pub fn processed(&self, outcome: Outcome) -> (taken: usize)
        ensures
            taken <= completion_events(outcome@).len(),
            !self.reports() ==> taken == 0,
    {
        let messages = completion(outcome);
        assert(events(messages@).len() == messages@.len());
        send_all(messages, &self.tx)
    }
}

/// A deafened receive path asks for no audio to be played, whatever
/// arrives.
pub proof fn lemma_deafened_plays_nothing(datagram: Seq<u8>)
    ensures
        !(received(true, datagram) is Play),
{
}

} // verus!
