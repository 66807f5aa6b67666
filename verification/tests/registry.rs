use tokio_tcpmux::errors::Error;
use tokio_tcpmux::messages::{ControlMessage, Header};
use tokio_tcpmux::registry::{InboundAction, StreamRegistry};

fn message(e: &Error) -> String {
    match e {
        Error::StreamDoesNotExistError(m)
        | Error::WriteError(m)
        | Error::ReadError(m)
        | Error::WaitError(m)
        | Error::NotAcceptingError(m) => m.clone(),
    }
}

#[test]
fn connect_then_acknowledge() {
    let mut r: StreamRegistry<&str, u8> = StreamRegistry::new();
    let id = r.begin_connect("inbound-1", 10).unwrap();
    assert_eq!(id, 1);
    assert_eq!(r.stream(1), Some(&"inbound-1"));
    match r.handle_header(&Header::new(ControlMessage::OpenAck, 1, 0)) {
        Ok(InboundAction::Acknowledge { stream_id, waiter }) => {
            assert_eq!(stream_id, 1);
            assert_eq!(waiter, 10);
        }
        _ => panic!("expected an acknowledgement"),
    }
    // A second acknowledgement finds nobody waiting.
    match r.handle_header(&Header::new(ControlMessage::OpenAck, 1, 0)) {
        Err(e @ Error::NotAcceptingError(_)) => {
            assert_eq!(message(&e), "peer tried to acknowledge nonexistent stream")
        }
        _ => panic!("expected an error"),
    }
}

#[test]
fn data_goes_to_open_streams_only() {
    let mut r: StreamRegistry<&str, u8> = StreamRegistry::new();
    let id = r.begin_connect("s", 0).unwrap();
    match r.handle_header(&Header::new(ControlMessage::Data, id, 33)) {
        Ok(InboundAction::Deliver { stream_id, data_size }) => {
            assert_eq!((stream_id, data_size), (id, 33));
        }
        _ => panic!("expected a delivery"),
    }
    match r.handle_header(&Header::new(ControlMessage::Data, 99, 5)) {
        Err(e @ Error::StreamDoesNotExistError(_)) => {
            assert_eq!(message(&e), "peer tried to send data to nonexistent stream")
        }
        _ => panic!("expected an error"),
    }
}

#[test]
fn peer_close_frees_the_id() {
    let mut r: StreamRegistry<&str, u8> = StreamRegistry::new();
    assert_eq!(r.begin_connect("a", 0), Some(1));
    assert_eq!(r.begin_connect("b", 0), Some(2));
    match r.handle_header(&Header::new(ControlMessage::Close, 1, 0)) {
        Ok(InboundAction::Closed { stream_id }) => assert_eq!(stream_id, 1),
        _ => panic!("expected a close"),
    }
    assert_eq!(r.stream(1), None);
    match r.handle_header(&Header::new(ControlMessage::Close, 1, 0)) {
        Err(e @ Error::StreamDoesNotExistError(_)) => {
            assert_eq!(message(&e), "peer tried to close nonexistent stream")
        }
        _ => panic!("expected an error"),
    }
    assert_eq!(r.begin_connect("c", 0), Some(3));
    assert_eq!(r.begin_connect("d", 0), Some(4));
}

#[test]
fn abandoned_connect_releases_everything() {
    let mut r: StreamRegistry<&str, u8> = StreamRegistry::new();
    let id = r.begin_connect("a", 7).unwrap();
    r.abandon(id);
    assert_eq!(r.stream(id), None);
    assert_eq!(r.take_waiter(id), None);
    let frames = r.close_frames();
    assert!(frames.is_empty());
}

#[test]
fn accept_flow() {
    let mut r: StreamRegistry<&str, u8> = StreamRegistry::new();
    match r.take_acceptor() {
        Err(e @ Error::NotAcceptingError(_)) => {
            assert_eq!(message(&e), "not currently accepting connections")
        }
        _ => panic!("expected an error"),
    }
    r.begin_accept(5);
    match r.handle_header(&Header::new(ControlMessage::Open, 40, 0)) {
        Ok(InboundAction::Accept { stream_id }) => assert_eq!(stream_id, 40),
        _ => panic!("expected an accept"),
    }
    assert_eq!(r.take_acceptor().ok(), Some(5));
    r.complete_accept(40, "peer-40");
    assert_eq!(r.stream(40), Some(&"peer-40"));
    match r.handle_header(&Header::new(ControlMessage::Data, 40, 1)) {
        Ok(InboundAction::Deliver { stream_id, data_size }) => assert_eq!((stream_id, data_size), (40, 1)),
        _ => panic!("expected a delivery"),
    }
}

#[test]
fn close_frames_cover_open_streams() {
    let mut r: StreamRegistry<&str, u8> = StreamRegistry::new();
    r.begin_connect("a", 0);
    r.begin_connect("b", 0);
    r.complete_accept(77, "c");
    let frames = r.close_frames();
    let mut ids: Vec<u32> = frames
        .iter()
        .map(|f| {
            assert_eq!(f.len(), 8);
            let mut w = [0u8; 8];
            w.copy_from_slice(&f[..]);
            let h = Header(u64::from_be_bytes(w));
            assert_eq!(h.control(), ControlMessage::Close);
            assert_eq!(h.data_size(), 0);
            h.stream_id()
        })
        .collect();
    ids.sort();
    assert_eq!(ids, vec![1, 2, 77]);
}

#[test]
fn written_frames_are_delivered_to_the_stream() {
    let mut r: StreamRegistry<&str, u8> = StreamRegistry::new();
    let id = r.begin_connect("s", 0).unwrap();
    let buf: Vec<u8> = (0u8..11).collect();
    let frames = tokio_tcpmux::frames::data_frames(id, 4, &buf);
    let mut joined = Vec::new();
    for f in &frames {
        let mut w = [0u8; 8];
        w.copy_from_slice(&f[..8]);
        match r.handle_header(&Header(u64::from_be_bytes(w))) {
            Ok(InboundAction::Deliver { stream_id, data_size }) => {
                assert_eq!(stream_id, id);
                assert_eq!(data_size as usize, f.len() - 8);
                joined.extend_from_slice(&f[8..]);
            }
            _ => panic!("expected a delivery"),
        }
    }
    assert_eq!(joined, buf);
}
