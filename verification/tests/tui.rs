use std::sync::mpsc::{channel, Receiver, Sender};
use wapplatalk::events::TuiMessage;
use wapplatalk::peer::PeerAddr;
use wapplatalk::tui::{status_line, App, ClientState, Label, Route, Tone};

struct Wires {
    to_app: Sender<TuiMessage>,
    send_audio: Receiver<TuiMessage>,
    receive_audio: Receiver<TuiMessage>,
}

fn app() -> (App, Wires) {
    let (to_app, rx) = channel();
    let (tx_send_audio, send_audio) = channel();
    let (tx_receive_audio, receive_audio) = channel();
    (App::new(rx, tx_send_audio, tx_receive_audio), Wires { to_app, send_audio, receive_audio })
}

fn peer(text: &str) -> PeerAddr {
    PeerAddr::new(text.to_string())
}

fn idle() -> ClientState {
    ClientState { sending_audio: false, connected: false, mute: false, deafen: false, exit: false }
}

fn words(state: &ClientState) -> String {
    status_line(state).iter().map(|label| label.text()).collect()
}

#[test]
fn default_state_is_all_off() {
    assert_eq!(ClientState::default(), idle());
    let (app, _wires) = app();
    assert_eq!(app.state(), idle());
    assert!(app.users().is_empty());
}

#[test]
fn nothing_waiting_means_nothing_to_draw() {
    let (mut app, _wires) = app();
    assert!(!app.handle_tui_messages());
    assert_eq!(app.state(), idle());
}

#[test]
fn connect_and_disconnect() {
    let (mut app, wires) = app();
    wires.to_app.send(TuiMessage::Connect).unwrap();
    wires.to_app.send(TuiMessage::TransmitAudio(true)).unwrap();
    assert!(app.handle_tui_messages());
    assert_eq!(app.state(), ClientState { connected: true, sending_audio: true, ..idle() });
    wires.to_app.send(TuiMessage::Disconnect).unwrap();
    assert!(app.handle_tui_messages());
    assert_eq!(app.state(), idle());
    assert!(!app.handle_tui_messages());
}

#[test]
fn transmit_state_follows_the_last_report() {
    let (mut app, wires) = app();
    for sending in [true, false, true, true, false] {
        wires.to_app.send(TuiMessage::TransmitAudio(sending)).unwrap();
    }
    assert!(app.handle_tui_messages());
    assert!(!app.state().sending_audio);
    app.apply(&TuiMessage::TransmitAudio(true));
    assert!(app.state().sending_audio);
}

#[test]
fn commands_in_the_inbox_change_nothing() {
    let (mut app, wires) = app();
    wires.to_app.send(TuiMessage::ToggleMute).unwrap();
    wires.to_app.send(TuiMessage::ToggleDeafen).unwrap();
    wires.to_app.send(TuiMessage::Exit).unwrap();
    assert!(app.handle_tui_messages());
    assert_eq!(app.state(), idle());
}

#[test]
fn peers_join_and_leave_the_list() {
    let (mut app, wires) = app();
    wires.to_app.send(TuiMessage::NewClient(peer("a:1"))).unwrap();
    wires.to_app.send(TuiMessage::NewClient(peer("b:2"))).unwrap();
    wires.to_app.send(TuiMessage::NewClient(peer("a:1"))).unwrap();
    assert!(app.handle_tui_messages());
    assert_eq!(app.users(), &vec![peer("a:1"), peer("b:2"), peer("a:1")]);
    wires.to_app.send(TuiMessage::DeleteClient(peer("c:3"))).unwrap();
    assert!(app.handle_tui_messages());
    assert_eq!(app.users().len(), 3);
    wires.to_app.send(TuiMessage::DeleteClient(peer("a:1"))).unwrap();
    assert!(app.handle_tui_messages());
    assert_eq!(app.users(), &vec![peer("b:2")]);
}

#[test]
fn apply_all_takes_events_in_order() {
    let (mut app, _wires) = app();
    assert!(!app.apply_all(&vec![]));
    let batch = vec![
        TuiMessage::NewClient(peer("a:1")),
        TuiMessage::DeleteClient(peer("a:1")),
        TuiMessage::NewClient(peer("b:2")),
        TuiMessage::Connect,
    ];
    assert!(app.apply_all(&batch));
    assert_eq!(app.users(), &vec![peer("b:2")]);
    assert!(app.state().connected);
}

#[test]
fn mute_key_goes_to_the_send_path() {
    let (mut app, wires) = app();
    assert_eq!(app.handle_event('m'), 1);
    assert!(app.state().mute);
    assert_eq!(app.handle_event('M'), 1);
    assert!(!app.state().mute);
    assert_eq!(
        wires.send_audio.try_iter().collect::<Vec<_>>(),
        vec![TuiMessage::ToggleMute, TuiMessage::ToggleMute]
    );
    assert!(wires.receive_audio.try_recv().is_err());
}

#[test]
fn deafen_key_goes_to_the_receive_path() {
    let (mut app, wires) = app();
    assert_eq!(app.handle_event('d'), 1);
    assert!(app.state().deafen);
    assert_eq!(app.handle_event('D'), 1);
    assert!(!app.state().deafen);
    assert_eq!(
        wires.receive_audio.try_iter().collect::<Vec<_>>(),
        vec![TuiMessage::ToggleDeafen, TuiMessage::ToggleDeafen]
    );
    assert!(wires.send_audio.try_recv().is_err());
}

#[test]
fn quit_key_tells_both_paths() {
    let (mut app, wires) = app();
    assert_eq!(app.handle_event('q'), 2);
    assert!(app.state().exit);
    assert_eq!(wires.send_audio.try_iter().collect::<Vec<_>>(), vec![TuiMessage::Exit]);
    assert_eq!(wires.receive_audio.try_iter().collect::<Vec<_>>(), vec![TuiMessage::Exit]);
    assert_eq!(app.handle_event('Q'), 2);
    assert!(app.state().exit);
    assert_eq!(wires.send_audio.try_iter().collect::<Vec<_>>(), vec![TuiMessage::Exit]);
    assert_eq!(wires.receive_audio.try_iter().collect::<Vec<_>>(), vec![TuiMessage::Exit]);
}

#[test]
fn quit_key_reaches_the_path_that_still_listens() {
    let (mut app, wires) = app();
    drop(wires.send_audio);
    assert_eq!(app.handle_event('q'), 1);
    assert_eq!(wires.receive_audio.try_iter().collect::<Vec<_>>(), vec![TuiMessage::Exit]);
}

#[test]
fn other_keys_do_nothing() {
    let (mut app, wires) = app();
    for key in ['x', ' ', '\n', '1', 'n', 'e'] {
        assert_eq!(app.handle_event(key), 0);
        assert!(app.press(key).is_empty());
    }
    assert_eq!(app.state(), idle());
    assert!(wires.send_audio.try_recv().is_err());
    assert!(wires.receive_audio.try_recv().is_err());
}

#[test]
fn press_returns_the_commands_and_their_paths() {
    let (mut app, _wires) = app();
    assert_eq!(app.press('m'), vec![(Route::SendAudio, TuiMessage::ToggleMute)]);
    assert_eq!(app.press('d'), vec![(Route::ReceiveAudio, TuiMessage::ToggleDeafen)]);
    assert_eq!(
        app.press('q'),
        vec![(Route::SendAudio, TuiMessage::Exit), (Route::ReceiveAudio, TuiMessage::Exit)]
    );
    assert_eq!(app.state(), ClientState { mute: true, deafen: true, exit: true, ..idle() });
}

#[test]
fn key_press_is_noted_even_if_nobody_listens() {
    let (mut app, wires) = app();
    drop(wires.send_audio);
    assert_eq!(app.handle_event('m'), 0);
    assert!(app.state().mute);
}

#[test]
fn status_line_of_an_idle_session() {
    assert_eq!(
        status_line(&idle()),
        vec![Label::Title, Label::Bar, Label::Disconnected, Label::Bar, Label::NotSending]
    );
    assert_eq!(words(&idle()), " WapplaTalk | Disconnected | Not Sending Audio ");
}

#[test]
fn status_line_of_a_busy_session() {
    let state = ClientState { connected: true, sending_audio: true, ..idle() };
    assert_eq!(
        status_line(&state),
        vec![Label::Title, Label::Bar, Label::Connected, Label::Bar, Label::Sending]
    );
    assert_eq!(words(&state), " WapplaTalk | Connected | Sending Audio ");
}

#[test]
fn status_line_shows_the_flags_in_brackets() {
    let muted = ClientState { connected: true, mute: true, ..idle() };
    assert_eq!(words(&muted), " WapplaTalk | Connected ( Muted ) | Not Sending Audio ");
    let deaf = ClientState { deafen: true, ..idle() };
    assert_eq!(words(&deaf), " WapplaTalk | Disconnected ( Deafened ) | Not Sending Audio ");
    let both = ClientState { mute: true, deafen: true, ..idle() };
    assert_eq!(
        status_line(&both),
        vec![
            Label::Title,
            Label::Bar,
            Label::Disconnected,
            Label::Open,
            Label::Muted,
            Label::Comma,
            Label::Deafened,
            Label::Close,
            Label::Bar,
            Label::NotSending
        ]
    );
    assert_eq!(words(&both), " WapplaTalk | Disconnected ( Muted, Deafened ) | Not Sending Audio ");
}

#[test]
fn tones_of_the_labels() {
    assert_eq!(Label::Title.tone(), Tone::Bold);
    assert_eq!(Label::Connected.tone(), Tone::Good);
    assert_eq!(Label::Sending.tone(), Tone::Good);
    assert_eq!(Label::Disconnected.tone(), Tone::Bad);
    assert_eq!(Label::NotSending.tone(), Tone::Bad);
    assert_eq!(Label::Muted.tone(), Tone::Warning);
    assert_eq!(Label::Deafened.tone(), Tone::Warning);
    for label in [Label::Bar, Label::Open, Label::Comma, Label::Close] {
        assert_eq!(label.tone(), Tone::Plain);
    }
}
