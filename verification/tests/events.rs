use std::sync::mpsc::channel;
use wapplatalk::events::{drain_tui_messages, receive_tui_message, send_all, send_tui_message};
use wapplatalk::events::TuiMessage;
use wapplatalk::peer::PeerAddr;

#[test]
fn no_inbox_no_message() {
    assert_eq!(receive_tui_message(&None), None);
}

#[test]
fn inbox_hands_out_oldest_first_and_never_waits() {
    let (tx, rx) = channel();
    let rx = Some(rx);
    assert_eq!(receive_tui_message(&rx), None);
    tx.send(TuiMessage::ToggleMute).unwrap();
    tx.send(TuiMessage::TransmitAudio(true)).unwrap();
    assert_eq!(receive_tui_message(&rx), Some(TuiMessage::ToggleMute));
    assert_eq!(receive_tui_message(&rx), Some(TuiMessage::TransmitAudio(true)));
    assert_eq!(receive_tui_message(&rx), None);
    drop(tx);
    assert_eq!(receive_tui_message(&rx), None);
}

#[test]
fn sending_without_a_channel_sends_nothing() {
    assert!(!send_tui_message(TuiMessage::Connect, &None));
}

#[test]
fn sent_messages_arrive_in_order() {
    let (tx, rx) = channel();
    let tx = Some(tx);
    let peer = PeerAddr::new("192.0.2.9:1234".to_string());
    assert!(send_tui_message(TuiMessage::Connect, &tx));
    assert!(send_tui_message(TuiMessage::NewClient(peer.clone()), &tx));
    assert!(send_tui_message(TuiMessage::Exit, &tx));
    assert_eq!(
        drain_tui_messages(&rx),
        vec![TuiMessage::Connect, TuiMessage::NewClient(peer), TuiMessage::Exit]
    );
    assert!(drain_tui_messages(&rx).is_empty());
    drop(rx);
    assert!(!send_tui_message(TuiMessage::Connect, &tx));
}

#[test]
fn send_all_hands_over_in_order() {
    let (tx, rx) = channel();
    let tx = Some(tx);
    assert_eq!(send_all(vec![], &tx), 0);
    assert_eq!(
        send_all(vec![TuiMessage::Disconnect, TuiMessage::Connect, TuiMessage::Exit], &tx),
        3
    );
    assert_eq!(
        drain_tui_messages(&rx),
        vec![TuiMessage::Disconnect, TuiMessage::Connect, TuiMessage::Exit]
    );
    drop(rx);
    assert_eq!(send_all(vec![TuiMessage::Connect, TuiMessage::Connect], &tx), 0);
    assert_eq!(send_all(vec![TuiMessage::Connect], &None), 0);
}
