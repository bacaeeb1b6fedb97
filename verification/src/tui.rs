//! What the presentation knows and shows.
//!
//! The session state follows the events that the audio paths report; key
//! presses change it and are passed on to the path they concern. Drawing is
//! left to the caller, who is told what the status line holds.

use crate::events::{drain_tui_messages, events, send, TuiMessage, TuiMessageView};
use crate::peer::PeerAddr;
use std::sync::mpsc::{Receiver, Sender};
use vstd::prelude::*;

verus! {

/// What the presentation knows of the session.
#[derive(Debug, Clone, Copy, PartialEq, Eq)]
pub struct ClientState {
    pub sending_audio: bool,
    pub connected: bool,
    pub mute: bool,
    pub deafen: bool,
    pub exit: bool,
}

impl Default for ClientState {
    fn default() -> (state: ClientState)
        ensures
            state == (ClientState {
                sending_audio: false,
                connected: false,
                mute: false,
                deafen: false,
                exit: false,
            }),
    {
        ClientState {
            sending_audio: false,
            connected: false,
            mute: false,
            deafen: false,
            exit: false,
        }
    }
}

/// The list of peers without every entry of `addr`.
pub open spec fn without(users: Seq<Seq<char>>, addr: Seq<char>) -> Seq<Seq<char>> {
    users.filter(|user: Seq<char>| user != addr)
}

proof fn lemma_without_push(users: Seq<Seq<char>>, last: Seq<char>, addr: Seq<char>)
    ensures
        without(users.push(last), addr) == if last != addr {
            without(users, addr).push(last)
        } else {
            without(users, addr)
        },
{
    reveal(Seq::filter);
    assert(users.push(last).drop_last() =~= users);
}

/// The presentation between two events.
pub struct AppView {
    pub state: ClientState,
    /// The peers that are known to be connected, in the order in which
    /// they were reported.
    pub users: Seq<Seq<char>>,
}

impl AppView {
    /// The presentation after one event from the audio paths.
    pub open spec fn applied(self, message: TuiMessageView) -> AppView {
        match message {
            TuiMessageView::Connect => AppView {
                state: ClientState { connected: true, ..self.state },
                users: self.users,
            },
            TuiMessageView::Disconnect => AppView {
                state: ClientState { connected: false, sending_audio: false, ..self.state },
                users: self.users,
            },
            TuiMessageView::TransmitAudio(sending) => AppView {
                state: ClientState { sending_audio: sending, ..self.state },
                users: self.users,
            },
            TuiMessageView::NewClient(addr) => AppView {
                state: self.state,
                users: self.users.push(addr),
            },
            TuiMessageView::DeleteClient(addr) => AppView {
                state: self.state,
                users: without(self.users, addr),
            },
            _ => self,
        }
    }

    /// The presentation after a run of events, oldest first.
    pub open spec fn applied_all(self, messages: Seq<TuiMessageView>) -> AppView
        decreases messages.len(),
    {
        if messages.len() == 0 {
            self
        } else {
            self.applied_all(messages.drop_last()).applied(messages.last())
        }
    }

    /// The presentation after a key press, and the commands that the press
    /// gives, each with the path it is for, in the order in which they are
    /// handed over. Muting concerns the send path and deafening the receive
    /// path; both paths are told of the exit.
    pub open spec fn pressed(self, key: char) -> (AppView, Seq<(Route, TuiMessageView)>) {
        if key == 'd' || key == 'D' {
            (
                AppView {
                    state: ClientState { deafen: !self.state.deafen, ..self.state },
                    users: self.users,
                },
                seq![(Route::ReceiveAudio, TuiMessageView::ToggleDeafen)],
            )
        } else if key == 'm' || key == 'M' {
            (
                AppView {
                    state: ClientState { mute: !self.state.mute, ..self.state },
                    users: self.users,
                },
                seq![(Route::SendAudio, TuiMessageView::ToggleMute)],
            )
        } else if key == 'q' || key == 'Q' {
            (
                AppView { state: ClientState { exit: true, ..self.state }, users: self.users },
                seq![
                    (Route::SendAudio, TuiMessageView::Exit),
                    (Route::ReceiveAudio, TuiMessageView::Exit),
                ],
            )
        } else {
            (self, Seq::empty())
        }
    }
}

/// The commands that a list of routed messages stands for.
pub open spec fn commands(list: Seq<(Route, TuiMessage)>) -> Seq<(Route, TuiMessageView)> {
    list.map_values(|command: (Route, TuiMessage)| (command.0, command.1@))
}

/// The audio path that a command is for.
#[derive(Debug, Clone, Copy, PartialEq, Eq)]
pub enum Route {
    SendAudio,
    ReceiveAudio,
}

/// One piece of the status line.
#[derive(Debug, Clone, Copy, PartialEq, Eq)]
pub enum Label {
    Title,
    Bar,
    Connected,
    Disconnected,
    Open,
    Muted,
    Comma,
    Deafened,
    Close,
    Sending,
    NotSending,
}

/// How a piece of the status line is set off.
#[derive(Debug, Clone, Copy, PartialEq, Eq)]
pub enum Tone {
    Plain,
    Bold,
    Good,
    Bad,
    Warning,
}

impl Label {
    pub open spec fn spec_text(self) -> Seq<char> {
        match self {
            Label::Title => " WapplaTalk "@,
            Label::Bar => "| "@,
            Label::Connected => "Connected "@,
            Label::Disconnected => "Disconnected "@,
            Label::Open => "("@,
            Label::Muted => " Muted"@,
            Label::Comma => ","@,
            Label::Deafened => " Deafened"@,
            Label::Close => " ) "@,
            Label::Sending => "Sending Audio "@,
            Label::NotSending => "Not Sending Audio "@,
        }
    }

    pub open spec fn spec_tone(self) -> Tone {
        match self {
            Label::Title => Tone::Bold,
            Label::Connected | Label::Sending => Tone::Good,
            Label::Disconnected | Label::NotSending => Tone::Bad,
            Label::Muted | Label::Deafened => Tone::Warning,
            Label::Bar | Label::Open | Label::Comma | Label::Close => Tone::Plain,
        }
    }

    /// The words of this piece.
    pub fn text(self) -> (text: &'static str)
        ensures
            text@ == self.spec_text(),
    {
        match self {
            Label::Title => " WapplaTalk ",
            Label::Bar => "| ",
            Label::Connected => "Connected ",
            Label::Disconnected => "Disconnected ",
            Label::Open => "(",
            Label::Muted => " Muted",
            Label::Comma => ",",
            Label::Deafened => " Deafened",
            Label::Close => " ) ",
            Label::Sending => "Sending Audio ",
            Label::NotSending => "Not Sending Audio ",
        }
    }

    /// How this piece is set off.
    #[verifier::when_used_as_spec(spec_tone)]
    pub fn tone(self) -> (tone: Tone)
        ensures
            tone == self.spec_tone(),
    {
        match self {
            Label::Title => Tone::Bold,
            Label::Connected | Label::Sending => Tone::Good,
            Label::Disconnected | Label::NotSending => Tone::Bad,
            Label::Muted | Label::Deafened => Tone::Warning,
            Label::Bar | Label::Open | Label::Comma | Label::Close => Tone::Plain,
        }
    }
}

/// The part of the status line that tells of muting and deafening: empty
/// when neither is on, else the flags that are on, in brackets.
pub open spec fn flag_labels(state: ClientState) -> Seq<Label> {
    if state.mute && state.deafen {
        seq![Label::Open, Label::Muted, Label::Comma, Label::Deafened, Label::Close]
    } else if state.mute {
        seq![Label::Open, Label::Muted, Label::Close]
    } else if state.deafen {
        seq![Label::Open, Label::Deafened, Label::Close]
    } else {
        Seq::empty()
    }
}

/// The status line: the title, whether the session is connected, the
/// flags, and whether audio is being sent.
pub open spec fn status_labels(state: ClientState) -> Seq<Label> {
    seq![
        Label::Title,
        Label::Bar,
        if state.connected {
            Label::Connected
        } else {
            Label::Disconnected
        },
    ] + flag_labels(state) + seq![
        Label::Bar,
        if state.sending_audio {
            Label::Sending
        } else {
            Label::NotSending
        },
    ]
}

/// The pieces of the status line, left to right.
pub fn status_line(state: &ClientState) -> (line: Vec<Label>)
    ensures
        line@ == status_labels(*state),
{
    let mut line: Vec<Label> = Vec::new();
    line.push(Label::Title);
    line.push(Label::Bar);
    if state.connected {
        line.push(Label::Connected);
    } else {
        line.push(Label::Disconnected);
    }
    let flagged = state.mute || state.deafen;
    if flagged {
        line.push(Label::Open);
    }
    if state.mute {
        line.push(Label::Muted);
    }
    if state.deafen {
        if state.mute {
            line.push(Label::Comma);
        }
        line.push(Label::Deafened);
    }
    if flagged {
        line.push(Label::Close);
    }
    line.push(Label::Bar);
    if state.sending_audio {
        line.push(Label::Sending);
    } else {
        line.push(Label::NotSending);
    }
    assert(line@ =~= status_labels(*state));
    line
}

/// The texts of a list of addresses.
pub open spec fn user_texts(users: Seq<PeerAddr>) -> Seq<Seq<char>> {
    users.map_values(|user: PeerAddr| user@)
}

/// The presentation: the session state, the list of connected peers, the
/// inbox for what the audio paths report, and a channel to each path.
#[derive(Debug)]
pub struct App {
    client_state: ClientState,
    users: Vec<PeerAddr>,
    rx: Receiver<TuiMessage>,
    tx_send_audio: Sender<TuiMessage>,
    tx_receive_audio: Sender<TuiMessage>,
}

impl View for App {
    type V = AppView;

    closed spec fn view(&self) -> AppView {
        AppView { state: self.client_state, users: user_texts(self.users@) }
    }
}

impl App {
    /// The inbox in which the audio paths' reports arrive.
    pub closed spec fn inbox(&self) -> Receiver<TuiMessage> {
        self.rx
    }

    /// The channel on which commands for the send path leave.
    pub closed spec fn send_audio_outbox(&self) -> Sender<TuiMessage> {
        self.tx_send_audio
    }

    /// The channel on which commands for the receive path leave.
    pub closed spec fn receive_audio_outbox(&self) -> Sender<TuiMessage> {
        self.tx_receive_audio
    }

    /// Whether both presentations read and write the same channels.
    pub open spec fn same_channels(&self, other: &App) -> bool {
        &&& self.inbox() == other.inbox()
        &&& self.send_audio_outbox() == other.send_audio_outbox()
        &&& self.receive_audio_outbox() == other.receive_audio_outbox()
    }

    /// A presentation of a session that is not connected and knows no peer.
    /// It reads what the audio paths report from `rx`, and sends commands
    /// for the send path on `tx_send_audio` and commands for the receive
    /// path on `tx_receive_audio`.
    pub fn new(
        rx: Receiver<TuiMessage>,
        tx_send_audio: Sender<TuiMessage>,
        tx_receive_audio: Sender<TuiMessage>,
    ) -> (app: App)
        ensures
            app@.state == (ClientState {
                sending_audio: false,
                connected: false,
                mute: false,
                deafen: false,
                exit: false,
            }),
            app@.users == Seq::<Seq<char>>::empty(),
            app.inbox() == rx,
            app.send_audio_outbox() == tx_send_audio,
            app.receive_audio_outbox() == tx_receive_audio,
    {
        let app = App {
            client_state: ClientState::default(),
            users: Vec::new(),
            rx,
            tx_send_audio,
            tx_receive_audio,
        };
        assert(app@.users =~= Seq::<Seq<char>>::empty());
        app
    }

    /// The session state.
    pub fn state(&self) -> (state: ClientState)
        ensures
            state == self@.state,
    {
        self.client_state
    }

    /// The peers that are known to be connected.
    pub fn users(&self) -> (users: &Vec<PeerAddr>)
        ensures
            user_texts(users@) == self@.users,
    {
        &self.users
    }

    /// Takes note of one event from the audio paths.
    pub fn apply(&mut self, message: &TuiMessage)
        ensures
            final(self)@ == old(self)@.applied(message@),
            final(self).same_channels(old(self)),
    {
        match message {
            TuiMessage::Connect => {
                self.client_state.connected = true;
            },
            TuiMessage::Disconnect => {
                self.client_state.connected = false;
                self.client_state.sending_audio = false;
            },
            TuiMessage::TransmitAudio(sending) => {
                self.client_state.sending_audio = *sending;
            },
            TuiMessage::NewClient(addr) => {
                let ghost before = self.users@;
                self.users.push(addr.clone());
                assert(user_texts(self.users@) =~= user_texts(before).push(addr@));
            },
            TuiMessage::DeleteClient(addr) => {
                let ghost before = self.users@;
                let mut kept: Vec<PeerAddr> = Vec::new();
                let mut i: usize = 0;
                while i < self.users.len()
                    invariant
                        self.users@ == before,
                        i <= self.users.len(),
                        user_texts(kept@) == without(user_texts(before.take(i as int)), addr@),
                    decreases self.users.len() - i,
                {
                    proof {
                        assert(user_texts(before.take(i as int + 1)) =~= user_texts(
                            before.take(i as int),
                        ).push(before[i as int]@));
                        lemma_without_push(
                            user_texts(before.take(i as int)),
                            before[i as int]@,
                            addr@,
                        );
                    }
                    if !self.users[i].same(addr) {
                        let ghost so_far = kept@;
                        kept.push(self.users[i].clone());
                        assert(user_texts(kept@) =~= user_texts(so_far).push(before[i as int]@));
                    }
                    i += 1;
                }
                assert(before.take(i as int) =~= before);
                self.users = kept;
            },
            _ => {},
        }
    }

    /// Takes note of a run of events, oldest first, and says whether there
    /// was any.
    pub fn apply_all(&mut self, messages: &Vec<TuiMessage>) -> (updated: bool)
        ensures
            final(self)@ == old(self)@.applied_all(events(messages@)),
            updated == (messages@.len() > 0),
            final(self).same_channels(old(self)),
    {
        let mut i: usize = 0;
        while i < messages.len()
            invariant
                i <= messages.len(),
                self@ == old(self)@.applied_all(events(messages@.take(i as int))),
                self.same_channels(old(self)),
            decreases messages.len() - i,
        {
            proof {
                let next = events(messages@.take(i as int + 1));
                assert(next.drop_last() =~= events(messages@.take(i as int)));
                assert(next.last() == messages@[i as int]@);
            }
            self.apply(&messages[i]);
            i += 1;
        }
        assert(messages@.take(i as int) =~= messages@);
        messages.len() > 0
    }

    /// Takes every event that is waiting in the inbox and takes note of
    /// each, oldest first. Says whether there was any, so that the caller
    /// knows whether to draw again.
    pub fn handle_tui_messages(&mut self) -> (updated: bool)
        ensures
            exists|batch: Seq<TuiMessageView>|
                {
                    &&& final(self)@ == #[trigger] old(self)@.applied_all(batch)
                    &&& updated == (batch.len() > 0)
                },
            final(self).same_channels(old(self)),
    {
        let batch = drain_tui_messages(&self.rx);
        let updated = self.apply_all(&batch);
        assert(self@ == old(self)@.applied_all(events(batch@)));
        updated
    }

    /// Takes note of a key press and returns the commands that it gives,
    /// each with the path that it is for, in the order in which they are to
    /// be handed over.
    pub fn press(&mut self, key: char) -> (list: Vec<(Route, TuiMessage)>)
        ensures
            final(self)@ == old(self)@.pressed(key).0,
            commands(list@) == old(self)@.pressed(key).1,
            final(self).same_channels(old(self)),
    {
        let mut list: Vec<(Route, TuiMessage)> = Vec::new();
        if key == 'd' || key == 'D' {
            self.client_state.deafen = !self.client_state.deafen;
            list.push((Route::ReceiveAudio, TuiMessage::ToggleDeafen));
        } else if key == 'm' || key == 'M' {
            self.client_state.mute = !self.client_state.mute;
            list.push((Route::SendAudio, TuiMessage::ToggleMute));
        } else if key == 'q' || key == 'Q' {
            self.client_state.exit = true;
            list.push((Route::SendAudio, TuiMessage::Exit));
            list.push((Route::ReceiveAudio, TuiMessage::Exit));
        }
        assert(commands(list@) =~= old(self)@.pressed(key).1);
        list
    }

    /// Takes note of a key press, as [`App::press`] does, and hands each
    /// command that it gives to the path it is for. Says how many of the
    /// commands their channels took.
    pub fn handle_event(&mut self, key: char) -> (taken: usize)
        ensures
            final(self)@ == old(self)@.pressed(key).0,
            taken <= old(self)@.pressed(key).1.len(),
            final(self).same_channels(old(self)),
    {
        let mut list = self.press(key);
        let ghost all = commands(list@);
        let mut taken: usize = 0;
        while list.len() > 0
            invariant
                all.len() <= 2,
                taken + list.len() <= all.len(),
            decreases list.len(),
        {
            let (route, message) = list.remove(0);
            let took = match route {
                Route::SendAudio => send(&self.tx_send_audio, message),
                Route::ReceiveAudio => send(&self.tx_receive_audio, message),
            };
            if took {
                taken += 1;
            }
        }
        taken
    }
}

} // verus!
