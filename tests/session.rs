use std::collections::{HashMap, HashSet};

use server_program::session::{ack, read_buffer, Action, Event, Failure, Session, Stage, RECEIVE_LIMIT};

#[derive(Default)]
struct Store {
    dirs: HashSet<Vec<u8>>,
    files: HashMap<Vec<u8>, Vec<u8>>,
}

struct Peer {
    frames: Vec<Vec<u8>>,
    next: usize,
    sent: Vec<u8>,
}

impl Peer {
    fn new(frames: &[&[u8]]) -> Peer {
        Peer { frames: frames.iter().map(|f| f.to_vec()).collect(), next: 0, sent: Vec::new() }
    }
}

/// Performs `action` against the peer and the store; `None` once the session ended.
fn perform(action: Action, peer: &mut Peer, store: &mut Store) -> Option<Event> {
    match action {
        Action::Receive => {
            if peer.next < peer.frames.len() {
                peer.next += 1;
                Some(Event::Received(peer.frames[peer.next - 1].clone()))
            } else {
                Some(Event::EndOfStream)
            }
        }
        Action::EnsureBranch(code) => {
            store.dirs.insert(code);
            Some(Event::BranchReady)
        }
        Action::SendOk => {
            peer.sent.extend(ack());
            Some(Event::OkSent)
        }
        Action::WriteReport { branch, report } => {
            store.files.insert(branch, report);
            Some(Event::ReportWritten)
        }
        Action::Finish | Action::Abort(_) => None,
    }
}

fn drive(frames: &[&[u8]], store: &mut Store) -> (Session, Vec<u8>) {
    let mut session = Session::new();
    let mut peer = Peer::new(frames);
    let mut action = Action::Receive;
    while let Some(event) = perform(action, &mut peer, store) {
        action = session.step(event);
    }
    (session, peer.sent)
}

#[test]
fn scenario_sample_report_is_stored() {
    let mut store = Store::default();
    let (session, sent) = drive(
        &[b"HEADER~BR01", b"~QUxCTk0sIFBST0QwMDEsIDEyLCAyMDIzLTAxLTAx~"],
        &mut store,
    );
    assert_eq!(session.stage(), Stage::Done);
    assert_eq!(sent, b"OKOK".to_vec());
    assert!(store.dirs.contains(&b"BR01".to_vec()));
    assert_eq!(
        store.files.get(&b"BR01".to_vec()).unwrap(),
        &b"ALBNM, PROD001, 12, 2023-01-01".to_vec()
    );
}

#[test]
fn scenario_hello_report() {
    let mut store = Store::default();
    let (session, sent) = drive(&[b"X~BR02", b"aGVsbG8="], &mut store);
    assert_eq!(session.stage(), Stage::Done);
    assert_eq!(sent, b"OKOK".to_vec());
    assert_eq!(store.files.get(&b"BR02".to_vec()).unwrap(), &b"hello".to_vec());
}

#[test]
fn scenario_ident_without_tilde() {
    let mut store = Store::default();
    let (session, sent) = drive(&[b"BR03", b"aGVsbG8="], &mut store);
    assert_eq!(session.stage(), Stage::Aborted(Failure::MalformedIdent));
    assert!(sent.is_empty());
    assert!(store.dirs.is_empty());
    assert!(store.files.is_empty());
}

#[test]
fn scenario_invalid_payload() {
    let mut store = Store::default();
    let (session, sent) = drive(&[b"H~BR04", b"##INVALID##"], &mut store);
    assert_eq!(session.stage(), Stage::Aborted(Failure::InvalidPayload));
    assert_eq!(sent, b"OK".to_vec());
    assert!(store.dirs.contains(&b"BR04".to_vec()));
    assert!(store.files.is_empty());
}

#[test]
fn scenario_interleaved_sessions() {
    let mut store = Store::default();
    let mut a = Session::new();
    let mut b = Session::new();
    let mut peer_a = Peer::new(&[b"A~BR05", b"YQ=="]);
    let mut peer_b = Peer::new(&[b"B~BR06", b"Yg=="]);
    let mut next_a = Some(Action::Receive);
    let mut next_b = Some(Action::Receive);
    while next_a.is_some() || next_b.is_some() {
        if let Some(action) = next_a.take() {
            next_a = perform(action, &mut peer_a, &mut store).map(|e| a.step(e));
        }
        if let Some(action) = next_b.take() {
            next_b = perform(action, &mut peer_b, &mut store).map(|e| b.step(e));
        }
    }
    assert_eq!(a.stage(), Stage::Done);
    assert_eq!(b.stage(), Stage::Done);
    assert_eq!(peer_a.sent, b"OKOK".to_vec());
    assert_eq!(peer_b.sent, b"OKOK".to_vec());
    assert_eq!(store.files.get(&b"BR05".to_vec()).unwrap(), &b"a".to_vec());
    assert_eq!(store.files.get(&b"BR06".to_vec()).unwrap(), &b"b".to_vec());
}

#[test]
fn scenario_later_session_overwrites() {
    let mut store = Store::default();
    let (first, _) = drive(&[b"H~BR07", b"YQ=="], &mut store);
    assert_eq!(first.stage(), Stage::Done);
    assert_eq!(store.files.get(&b"BR07".to_vec()).unwrap(), &b"a".to_vec());
    let (second, _) = drive(&[b"H~BR07", b"Yg=="], &mut store);
    assert_eq!(second.stage(), Stage::Done);
    assert_eq!(store.files.get(&b"BR07".to_vec()).unwrap(), &b"b".to_vec());
}

#[test]
fn invalid_payload_leaves_earlier_report() {
    let mut store = Store::default();
    drive(&[b"H~BR08", b"YQ=="], &mut store);
    let (session, sent) = drive(&[b"H~BR08", b"##INVALID##"], &mut store);
    assert_eq!(session.stage(), Stage::Aborted(Failure::InvalidPayload));
    assert_eq!(sent, b"OK".to_vec());
    assert_eq!(store.files.get(&b"BR08".to_vec()).unwrap(), &b"a".to_vec());
}

#[test]
fn branch_and_payload_extraction_in_a_session() {
    let mut store = Store::default();
    let (session, sent) = drive(&[b"H~ BR10 ~extra", b"~~aGVsbG8=~~"], &mut store);
    assert_eq!(session.stage(), Stage::Done);
    assert_eq!(session.branch(), &b"BR10".to_vec());
    assert_eq!(sent, b"OKOK".to_vec());
    assert_eq!(store.files.get(&b"BR10".to_vec()).unwrap(), &b"hello".to_vec());
}

#[test]
fn frame_beyond_buffer_is_cut() {
    // The identification frame's tilde lies past the buffer: no branch is read.
    let mut ident = vec![b'H'; RECEIVE_LIMIT];
    ident.extend_from_slice(b"~BR11");
    let mut store = Store::default();
    let (session, sent) = drive(&[&ident], &mut store);
    assert_eq!(session.stage(), Stage::Aborted(Failure::MalformedIdent));
    assert!(sent.is_empty());

    // A payload whose valid prefix fills the buffer decodes from that prefix alone.
    let mut payload = b"YWFh".repeat(RECEIVE_LIMIT / 4);
    payload.extend_from_slice(b"####");
    let (session, _) = drive(&[b"H~BR12", &payload], &mut store);
    assert_eq!(session.stage(), Stage::Done);
    assert_eq!(store.files.get(&b"BR12".to_vec()).unwrap(), &vec![b'a'; RECEIVE_LIMIT / 4 * 3]);
}

#[test]
fn read_buffer_keeps_at_most_the_limit() {
    assert_eq!(read_buffer(&vec![7u8; RECEIVE_LIMIT + 5]).len(), RECEIVE_LIMIT);
    assert_eq!(read_buffer(&vec![1u8, 2, 3]), vec![1u8, 2, 3]);
}

#[test]
fn closed_connection_aborts() {
    let mut store = Store::default();
    let (session, sent) = drive(&[], &mut store);
    assert_eq!(session.stage(), Stage::Aborted(Failure::EndOfStream));
    assert!(sent.is_empty());

    let (session, sent) = drive(&[b"H~BR13"], &mut store);
    assert_eq!(session.stage(), Stage::Aborted(Failure::EndOfStream));
    assert_eq!(sent, b"OK".to_vec());

    let mut s = Session::new();
    assert!(matches!(s.step(Event::Received(Vec::new())), Action::Abort(Failure::EndOfStream)));
}

#[test]
fn io_failure_aborts() {
    let mut s = Session::new();
    assert!(matches!(s.step(Event::Received(b"H~BR14".to_vec())), Action::EnsureBranch(_)));
    assert!(matches!(s.step(Event::Failed), Action::Abort(Failure::Io)));
    assert_eq!(s.stage(), Stage::Aborted(Failure::Io));
    assert!(s.is_finished());
    // A stopped session keeps answering with the same failure.
    assert!(matches!(s.step(Event::OkSent), Action::Abort(Failure::Io)));
}

#[test]
fn unexpected_event_aborts() {
    let mut s = Session::new();
    assert!(!s.is_finished());
    assert!(matches!(s.step(Event::OkSent), Action::Abort(Failure::UnexpectedEvent)));
    assert_eq!(s.stage(), Stage::Aborted(Failure::UnexpectedEvent));
}

#[test]
fn completed_session_only_finishes() {
    let mut store = Store::default();
    let (mut session, _) = drive(&[b"H~BR15", b"YQ=="], &mut store);
    assert!(session.is_finished());
    assert!(matches!(session.step(Event::OkSent), Action::Finish));
    assert_eq!(session.stage(), Stage::Done);
}

#[test]
fn ack_is_ok() {
    assert_eq!(ack(), b"OK".to_vec());
}
