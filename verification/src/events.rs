//! Control events and the channels that carry them between the audio
//! pipelines and whatever presents the session.
//!
//! Each consumer has an inbox of its own and looks into it without ever
//! waiting; a sender never waits either.

use crate::peer::PeerAddr;
use std::sync::mpsc::{Receiver, Sender};
use vstd::prelude::*;

verus! {

/// The sending half of a channel of the standard library. Opaque.
#[verifier::external_type_specification]
#[verifier::external_body]
#[verifier::reject_recursive_types(T)]
pub struct ExSender<T>(std::sync::mpsc::Sender<T>);

/// The receiving half of a channel of the standard library. Opaque.
#[verifier::external_type_specification]
#[verifier::external_body]
#[verifier::reject_recursive_types(T)]
pub struct ExReceiver<T>(std::sync::mpsc::Receiver<T>);

/// What the parts of a client tell each other.
#[derive(Debug, PartialEq, Eq)]
pub enum TuiMessage {
    Connect,
    Disconnect,
    ToggleMute,
    ToggleDeafen,
    TransmitAudio(bool),
    NewClient(PeerAddr),
    DeleteClient(PeerAddr),
    Exit,
}

pub enum TuiMessageView {
    Connect,
    Disconnect,
    ToggleMute,
    ToggleDeafen,
    TransmitAudio(bool),
    NewClient(Seq<char>),
    DeleteClient(Seq<char>),
    Exit,
}

impl View for TuiMessage {
    type V = TuiMessageView;

    open spec fn view(&self) -> TuiMessageView {
        match *self {
            TuiMessage::Connect => TuiMessageView::Connect,
            TuiMessage::Disconnect => TuiMessageView::Disconnect,
            TuiMessage::ToggleMute => TuiMessageView::ToggleMute,
            TuiMessage::ToggleDeafen => TuiMessageView::ToggleDeafen,
            TuiMessage::TransmitAudio(sending) => TuiMessageView::TransmitAudio(sending),
            TuiMessage::NewClient(addr) => TuiMessageView::NewClient(addr@),
            TuiMessage::DeleteClient(addr) => TuiMessageView::DeleteClient(addr@),
            TuiMessage::Exit => TuiMessageView::Exit,
        }
    }
}

/// The events that a list of messages stands for.
pub open spec fn events(messages: Seq<TuiMessage>) -> Seq<TuiMessageView> {
    messages.map_values(|m: TuiMessage| m@)
}

/// Calls `Receiver::try_recv` and keeps the message, if it returned one.
/// Trusted: nothing is claimed of the result, which depends on what other
/// threads have sent.
#[verifier::external_body]
fn try_recv(rx: &Receiver<TuiMessage>) -> Option<TuiMessage> {
    rx.try_recv().ok()
}

/// Calls `Receiver::try_iter` and collects what it yields: the messages
/// that are waiting, oldest first. Trusted: nothing is claimed of the
/// result, which depends on what other threads have sent.
#[verifier::external_body]
fn try_iter(rx: &Receiver<TuiMessage>) -> Vec<TuiMessage> {
    rx.try_iter().collect()
}

/// Calls `Sender::send` and says whether the channel took the message.
/// Trusted: nothing is claimed of the result, which depends on whether the
/// receiving half still exists.
#[verifier::external_body]
pub(crate) fn send(tx: &Sender<TuiMessage>, message: TuiMessage) -> bool {
    tx.send(message).is_ok()
}

/// Takes the oldest waiting message out of an inbox, without waiting for
/// one. Where there is no inbox there is never a message.
pub fn receive_tui_message(rx: &Option<Receiver<TuiMessage>>) -> (message: Option<TuiMessage>)
    ensures
        rx is None ==> message is None,
{
    match rx {
        Some(rx) => try_recv(rx),
        None => None,
    }
}

/// Takes every waiting message out of an inbox, oldest first, without
/// waiting for more.
pub fn drain_tui_messages(rx: &Receiver<TuiMessage>) -> Vec<TuiMessage> {
    try_iter(rx)
}

/// Hands a message to a channel, if there is one, and says whether the
/// channel took it. Never waits.
pub fn send_tui_message(message: TuiMessage, tx: &Option<Sender<TuiMessage>>) -> (sent: bool)
    ensures
        tx is None ==> !sent,
{
    match tx {
        Some(tx) => send(tx, message),
        None => false,
    }
}

/// Hands each of `messages` to a channel, oldest first, and says how many
/// of them the channel took. Where there is no channel, none is taken.
pub fn send_all(messages: Vec<TuiMessage>, tx: &Option<Sender<TuiMessage>>) -> (taken: usize)
    ensures
        taken <= messages@.len(),
        tx is None ==> taken == 0,
{
    let mut messages = messages;
    let all = messages.len();
    let mut taken: usize = 0;
    while messages.len() > 0
        invariant
            taken + messages.len() <= all,
            tx is None ==> taken == 0,
        decreases messages.len(),
    {
        let message = messages.remove(0);
        if send_tui_message(message, tx) {
            taken += 1;
        }
    }
    taken
}

} // verus!
