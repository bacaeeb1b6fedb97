use std::sync::mpsc::{channel, Receiver, Sender};
use wapplatalk::client::{audio_datagram, bye_datagram, completion, hello_datagram};
use wapplatalk::client::{leaving_report, playback_bytes, screening_report, transmission_report};
use wapplatalk::client::{AudioReceiver, NetworkClient, Outcome, Reception};
use wapplatalk::events::TuiMessage;
use wapplatalk::peer::PeerAddr;

fn loud() -> Vec<u8> {
    let mut data = Vec::new();
    for k in 0..1920 {
        let s: i16 = if k % 2 == 0 { 12000 } else { -12000 };
        data.extend_from_slice(&s.to_le_bytes());
    }
    data
}

fn quiet() -> Vec<u8> {
    vec![0u8; 3840]
}

fn samples(data: &[u8]) -> Vec<i16> {
    data.chunks_exact(2).take(1920).map(|b| i16::from_le_bytes([b[0], b[1]])).collect()
}

fn wired() -> (NetworkClient, Sender<TuiMessage>, Receiver<TuiMessage>) {
    let (to_client, inbox) = channel();
    let (outbox, from_client) = channel();
    (NetworkClient::new(Some(outbox), Some(inbox)), to_client, from_client)
}

fn listening() -> (AudioReceiver, Sender<TuiMessage>, Receiver<TuiMessage>) {
    let (to_receiver, inbox) = channel();
    let (outbox, from_receiver) = channel();
    (AudioReceiver::new(Some(inbox), Some(outbox)), to_receiver, from_receiver)
}

fn peer_again() -> PeerAddr {
    PeerAddr::new("192.0.2.9:1234".to_string())
}

fn waiting(rx: &Receiver<TuiMessage>) -> Vec<TuiMessage> {
    rx.try_iter().collect()
}

#[test]
fn loud_frame_is_to_be_encoded() {
    let (mut client, _to, from) = wired();
    let data = loud();
    assert_eq!(client.consume(&data), Some(samples(&data)));
    assert!(waiting(&from).is_empty());
}

#[test]
fn only_the_first_frame_of_a_buffer_counts() {
    let (mut client, _to, _from) = wired();
    let mut data = loud();
    data.extend_from_slice(&[1, 2, 3, 4, 5]);
    let frame = client.consume(&data).unwrap();
    assert_eq!(frame.len(), 1920);
    assert_eq!(frame, samples(&data));
}

#[test]
fn silence_before_any_speech_is_suppressed() {
    let (mut client, _to, from) = wired();
    assert_eq!(client.consume(&quiet()), None);
    assert_eq!(waiting(&from), vec![TuiMessage::TransmitAudio(false)]);
}

#[test]
fn silence_after_speech_hangs_over_for_ten_frames() {
    let (mut client, _to, from) = wired();
    assert!(client.consume(&loud()).is_some());
    for _ in 0..10 {
        assert_eq!(client.consume(&quiet()), Some(vec![0i16; 1920]));
    }
    assert!(waiting(&from).is_empty());
    assert_eq!(client.consume(&quiet()), None);
    assert_eq!(client.consume(&quiet()), None);
    assert_eq!(
        waiting(&from),
        vec![TuiMessage::TransmitAudio(false), TuiMessage::TransmitAudio(false)]
    );
    assert!(client.consume(&loud()).is_some());
    assert!(client.consume(&quiet()).is_some());
}

#[test]
fn muted_client_sends_nothing_however_loud() {
    let (mut client, to, from) = wired();
    to.send(TuiMessage::ToggleMute).unwrap();
    assert_eq!(client.consume(&loud()), None);
    assert!(client.is_muted());
    for _ in 0..5 {
        assert_eq!(client.consume(&loud()), None);
        assert_eq!(client.consume(&quiet()), None);
    }
    assert_eq!(waiting(&from).len(), 11);
    to.send(TuiMessage::ToggleMute).unwrap();
    assert!(client.consume(&loud()).is_some());
    assert!(!client.is_muted());
}

#[test]
fn muting_leaves_the_hangover_alone() {
    let (mut client, to, _from) = wired();
    assert!(client.consume(&loud()).is_some());
    for _ in 0..4 {
        assert!(client.consume(&quiet()).is_some());
    }
    to.send(TuiMessage::ToggleMute).unwrap();
    for _ in 0..20 {
        assert_eq!(client.consume(&quiet()), None);
    }
    to.send(TuiMessage::ToggleMute).unwrap();
    for _ in 0..6 {
        assert!(client.consume(&quiet()).is_some());
    }
    assert_eq!(client.consume(&quiet()), None);
}

#[test]
fn one_control_event_is_taken_per_frame() {
    let (mut client, to, _from) = wired();
    to.send(TuiMessage::ToggleMute).unwrap();
    to.send(TuiMessage::ToggleMute).unwrap();
    assert_eq!(client.consume(&loud()), None);
    assert!(client.consume(&loud()).is_some());
}

#[test]
fn other_control_events_do_not_mute() {
    let (mut client, to, _from) = wired();
    to.send(TuiMessage::ToggleDeafen).unwrap();
    to.send(TuiMessage::Exit).unwrap();
    assert!(client.consume(&loud()).is_some());
    assert!(client.consume(&loud()).is_some());
    assert!(!client.is_muted());
}

#[test]
fn screen_decides_without_channels() {
    let mut client = NetworkClient::new(None, None);
    let data = loud();
    assert_eq!(client.screen(None, &data), Some(samples(&data)));
    assert_eq!(client.screen(Some(TuiMessage::ToggleMute), &data), None);
    assert_eq!(client.screen(Some(TuiMessage::Connect), &data), None);
    assert_eq!(client.screen(Some(TuiMessage::ToggleMute), &data), Some(samples(&data)));
    assert_eq!(client.consume(&data), Some(samples(&data)));
}

#[test]
fn transmit_frames_the_encoded_bytes_as_audio() {
    let (client, _to, from) = wired();
    let buffer = [9u8, 8, 7, 6, 5];
    assert_eq!(client.transmit(&buffer, 3), Some(vec![1, 9, 8, 7]));
    assert_eq!(client.transmit(&buffer, 0), Some(vec![1]));
    assert_eq!(client.transmit(&buffer, 5), Some(vec![1, 9, 8, 7, 6, 5]));
    assert_eq!(
        waiting(&from),
        vec![
            TuiMessage::TransmitAudio(true),
            TuiMessage::TransmitAudio(true),
            TuiMessage::TransmitAudio(true)
        ]
    );
    assert_eq!(client.transmit(&buffer, 6), None);
    assert!(waiting(&from).is_empty());
}

#[test]
fn announcements_are_bare_kind_bytes() {
    assert_eq!(hello_datagram(), vec![3]);
    assert_eq!(bye_datagram(), vec![4]);
}

#[test]
fn audio_is_to_be_played() {
    let (receiver, _to, _from) = listening();
    assert_eq!(receiver.classify(&[1, 4, 5, 6]), Reception::Play(&[4, 5, 6]));
    assert_eq!(receiver.classify(&[1]), Reception::Play(&[]));
}

#[test]
fn deafened_client_plays_nothing_and_goes_on() {
    let (mut receiver, to, from) = listening();
    to.send(TuiMessage::ToggleDeafen).unwrap();
    assert_eq!(receiver.poll(), None);
    assert!(receiver.is_deafened());
    for _ in 0..5 {
        assert_eq!(receiver.classify(&[1, 4, 5, 6]), Reception::Skip);
    }
    assert_eq!(receiver.classify(&[2]), Reception::Nothing);
    assert_eq!(receiver.classify(&[4]), Reception::Shutdown);
    to.send(TuiMessage::ToggleDeafen).unwrap();
    assert_eq!(receiver.poll(), None);
    assert!(!receiver.is_deafened());
    assert_eq!(receiver.classify(&[1, 4]), Reception::Play(&[4]));
    assert!(waiting(&from).is_empty());
}

#[test]
fn exit_gives_the_goodbye_and_reports_disconnect() {
    let (mut receiver, to, from) = listening();
    assert_eq!(receiver.poll(), None);
    to.send(TuiMessage::Exit).unwrap();
    assert_eq!(receiver.poll(), Some(vec![4]));
    assert_eq!(waiting(&from), vec![TuiMessage::Disconnect]);
    assert_eq!(receiver.poll(), None);
}

#[test]
fn control_applies_one_event() {
    let mut receiver = AudioReceiver::new(None, None);
    assert!(!receiver.control(None));
    assert!(!receiver.control(Some(TuiMessage::ToggleMute)));
    assert!(!receiver.is_deafened());
    assert!(!receiver.control(Some(TuiMessage::ToggleDeafen)));
    assert!(receiver.is_deafened());
    assert!(receiver.control(Some(TuiMessage::Exit)));
    assert!(receiver.is_deafened());
    assert_eq!(receiver.poll(), None);
}

#[test]
fn presence_datagrams_carry_an_address_text() {
    let (receiver, _to, _from) = listening();
    let mut joined = vec![5u8];
    joined.extend_from_slice(b"192.0.2.9:1234");
    assert_eq!(
        receiver.classify(&joined),
        Reception::Peer { joined: true, text: "192.0.2.9:1234".to_string() }
    );
    let mut left = vec![6u8];
    left.extend_from_slice(b"192.0.2.9:1234");
    assert_eq!(
        receiver.classify(&left),
        Reception::Peer { joined: false, text: "192.0.2.9:1234".to_string() }
    );
    assert_eq!(
        receiver.classify(&[5, 0xff]),
        Reception::Peer { joined: true, text: "\u{fffd}".to_string() }
    );
}

#[test]
fn other_datagrams_ask_nothing() {
    let (receiver, _to, _from) = listening();
    for datagram in [vec![], vec![0], vec![2], vec![3, b'h', b'i'], vec![7, 7], vec![255]] {
        assert_eq!(receiver.classify(&datagram), Reception::Nothing);
    }
    assert_eq!(receiver.classify(&[4, 1, 2]), Reception::Shutdown);
}

#[test]
fn completion_reports_presence_then_connect() {
    let peer = PeerAddr::new("192.0.2.9:1234".to_string());
    assert_eq!(completion(Outcome::Played), vec![TuiMessage::Connect]);
    assert_eq!(completion(Outcome::Noted), vec![TuiMessage::Connect]);
    assert_eq!(
        completion(Outcome::Peer { joined: true, addr: Some(peer.clone()) }),
        vec![TuiMessage::NewClient(peer.clone()), TuiMessage::Connect]
    );
    assert_eq!(
        completion(Outcome::Peer { joined: false, addr: Some(peer) }),
        vec![TuiMessage::DeleteClient(peer_again()), TuiMessage::Connect]
    );
}

#[test]
fn address_that_is_not_understood_is_passed_over() {
    assert_eq!(completion(Outcome::Peer { joined: true, addr: None }), vec![TuiMessage::Connect]);
    assert_eq!(completion(Outcome::Peer { joined: false, addr: None }), vec![TuiMessage::Connect]);
}

#[test]
fn dropped_audio_is_not_reported() {
    assert!(completion(Outcome::Dropped).is_empty());
    let (receiver, _to, from) = listening();
    assert_eq!(receiver.processed(Outcome::Dropped), 0);
    assert!(waiting(&from).is_empty());
}

#[test]
fn processed_sends_the_completion() {
    let (receiver, _to, from) = listening();
    let peer = PeerAddr::new("192.0.2.9:1234".to_string());
    assert_eq!(receiver.processed(Outcome::Played), 1);
    assert_eq!(receiver.processed(Outcome::Peer { joined: true, addr: Some(peer.clone()) }), 2);
    assert_eq!(
        waiting(&from),
        vec![TuiMessage::Connect, TuiMessage::NewClient(peer.clone()), TuiMessage::Connect]
    );
    drop(from);
    assert_eq!(receiver.processed(Outcome::Peer { joined: false, addr: Some(peer) }), 0);
    let silent = AudioReceiver::new(None, None);
    assert_eq!(silent.processed(Outcome::Noted), 0);
}

#[test]
fn playback_takes_the_decoded_samples_of_both_channels() {
    let pcm = [1i16, -1, 256, -32768, 7, 7];
    assert_eq!(playback_bytes(&pcm, 2), Some(vec![1, 0, 0xff, 0xff, 0, 1, 0, 0x80]));
    assert_eq!(playback_bytes(&pcm, 0), Some(vec![]));
    assert_eq!(playback_bytes(&pcm, 3).map(|b| b.len()), Some(12));
    assert_eq!(playback_bytes(&pcm, 4), None);
    assert_eq!(playback_bytes(&pcm, usize::MAX), None);
    assert_eq!(playback_bytes(&[1, 2, 3], 1), Some(vec![1, 0, 2, 0]));
    assert_eq!(playback_bytes(&[1, 2, 3], 2), None);
}

#[test]
fn exit_leaves_the_send_path_as_it_is() {
    let (mut client, to, from) = wired();
    to.send(TuiMessage::Exit).unwrap();
    assert!(client.consume(&loud()).is_some());
    assert!(!client.is_muted());
    assert!(waiting(&from).is_empty());
}

#[test]
fn client_without_an_inbox_decides_as_on_an_empty_one() {
    let (outbox, from) = channel();
    let mut client = NetworkClient::new(Some(outbox), None);
    let data = loud();
    assert_eq!(client.consume(&data), Some(samples(&data)));
    assert!(!client.is_muted());
    for _ in 0..10 {
        assert!(client.consume(&quiet()).is_some());
    }
    assert_eq!(client.consume(&quiet()), None);
    assert_eq!(waiting(&from), vec![TuiMessage::TransmitAudio(false)]);
}

#[test]
fn receiver_without_an_inbox_never_leaves() {
    let (outbox, from) = channel();
    let mut receiver = AudioReceiver::new(None, Some(outbox));
    for _ in 0..3 {
        assert_eq!(receiver.poll(), None);
        assert!(!receiver.is_deafened());
    }
    assert!(waiting(&from).is_empty());
}

#[test]
fn unsent_frame_is_reported_and_a_frame_to_send_is_not() {
    assert_eq!(screening_report(&None), vec![TuiMessage::TransmitAudio(false)]);
    assert!(screening_report(&Some(vec![1, 2, 3])).is_empty());
    assert!(screening_report(&Some(vec![])).is_empty());
}

#[test]
fn framed_audio_is_reported_as_sent() {
    assert_eq!(transmission_report(true), vec![TuiMessage::TransmitAudio(true)]);
    assert!(transmission_report(false).is_empty());
}

#[test]
fn leaving_is_reported_as_disconnect() {
    assert_eq!(leaving_report(true), vec![TuiMessage::Disconnect]);
    assert!(leaving_report(false).is_empty());
}

#[test]
fn audio_datagram_takes_the_encoded_length() {
    let buffer = [9u8, 8, 7, 6, 5];
    assert_eq!(audio_datagram(&buffer, 3), Some(vec![1, 9, 8, 7]));
    assert_eq!(audio_datagram(&buffer, 0), Some(vec![1]));
    assert_eq!(audio_datagram(&buffer, 5), Some(vec![1, 9, 8, 7, 6, 5]));
    assert_eq!(audio_datagram(&buffer, 6), None);
    assert_eq!(audio_datagram(&[], 0), Some(vec![1]));
    assert_eq!(audio_datagram(&vec![0u8; 3840], 3840).map(|d| d.len()), Some(3841));
}
