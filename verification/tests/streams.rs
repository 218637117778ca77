use dquic::crypto_stream::{
    ArcRecver, ArcSender, CryptoStream, CryptoStreamPackage, WriteFault, Woken, MAX_REASSEMBLY,
};
use dquic::error::{ErrorKind, QuicError};
use dquic::signals::Signals;
use dquic::stream_buf::{data_capacity, Piece, RecvBuf, SendBuf};

fn write(stream: &mut CryptoStream, bytes: &[u8]) {
    let (result, wakes) = stream.outgoing.sender.poll_write(1, bytes);
    assert_eq!(result.unwrap(), Some(bytes.len()));
    assert_eq!(wakes, Signals::transport());
}

fn loaded(pieces: &[Piece]) -> Vec<(u64, Vec<u8>)> {
    pieces
        .iter()
        .map(|piece| (piece.offset, piece.data.clone()))
        .collect()
}

fn retired(fault: WriteFault) -> bool {
    matches!(fault, WriteFault::Failed(error) if error.kind == ErrorKind::NoError)
}

#[test]
fn receiver_retirement_wakes_reader_and_preserves_crypto_retransmission() {
    let mut stream = CryptoStream::new();
    write(&mut stream, b"ServerHello");
    assert!(stream.recver.poll_read(7, 8).unwrap().is_none());
    assert!(!stream.outgoing.sender.poll_flush(7).unwrap());
    let packet = loaded(&stream.outgoing.try_load_data_into(64, false).unwrap());
    assert_eq!(packet, [(0, b"ServerHello".to_vec())]);

    assert_eq!(stream.recver.retire(), Some(7));
    let error = stream.recver.poll_read(7, 8).unwrap_err();
    assert_eq!(error.reason.as_str(), "CRYPTO receiver retired");
    assert!(!stream.outgoing.sender.poll_flush(7).unwrap());
    assert_eq!(
        stream.outgoing.sender.may_loss_data(0, 11),
        Signals::transport()
    );
    let retransmission = loaded(&stream.outgoing.try_load_data_into(64, false).unwrap());
    assert_eq!(retransmission, packet);
    assert_eq!(
        stream.outgoing.sender.on_data_acked(0, 11),
        Woken {
            writer: None,
            flusher: Some(7)
        }
    );
    assert!(stream.outgoing.sender.poll_flush(7).unwrap());
    assert_eq!(stream.recver.recv_frame(0, b"late").unwrap(), None);
    assert!(stream.recver.poll_read(7, 8).is_err());
}

#[test]
fn sender_retirement_wakes_flush_and_leaves_receiver_running() {
    let mut stream = CryptoStream::new();
    write(&mut stream, b"pending");
    assert!(!stream.outgoing.sender.poll_flush(3).unwrap());
    let (woken, wakes) = stream.outgoing.sender.retire();
    assert_eq!(woken.flusher, Some(3));
    assert_eq!(wakes, Signals::transport());
    assert!(retired(stream.outgoing.sender.poll_flush(3).unwrap_err()));
    let (result, _) = stream.outgoing.sender.poll_write(3, b"late");
    assert!(retired(result.unwrap_err()));
    assert!(stream.outgoing.try_load_data_into(64, true).is_err());
    stream.outgoing.sender.on_data_acked(0, 7);
    stream.outgoing.sender.may_loss_data(0, 7);
    assert!(stream.outgoing.try_load_data_into(64, true).is_err());
    stream.recver.recv_frame(0, b"peer").unwrap();
    assert_eq!(stream.recver.poll_read(3, 4).unwrap().unwrap(), b"peer");
}

#[test]
fn connection_error_wakes_both_sides_and_preserves_the_cause() {
    let mut stream = CryptoStream::new();
    write(&mut stream, b"pending");
    assert!(stream.recver.poll_read(1, 8).unwrap().is_none());
    assert!(!stream.outgoing.sender.poll_flush(2).unwrap());

    let (woken, reader) = stream.on_error(QuicError::new(ErrorKind::Crypto(40), "handshake failed"));
    assert_eq!(woken.flusher, Some(2));
    assert_eq!(reader, Some(1));
    stream.on_error(QuicError::new(ErrorKind::Internal, "late error"));
    stream.outgoing.sender.retire();
    stream.recver.retire();
    let read = stream.recver.poll_read(1, 8).unwrap_err();
    assert_eq!((read.kind, read.reason.as_str()), (ErrorKind::Crypto(40), "handshake failed"));
    for fault in [
        stream.outgoing.sender.poll_write(1, b"late").0.unwrap_err(),
        stream.outgoing.sender.poll_flush(1).unwrap_err(),
        stream.outgoing.sender.poll_shutdown(),
    ] {
        assert!(
            matches!(fault, WriteFault::Failed(error) if error.kind == ErrorKind::Crypto(40) && error.reason.as_str() == "handshake failed")
        );
    }
    assert!(stream.outgoing.try_load_data_into(64, true).is_err());
}

#[test]
fn shutdown_is_unsupported_and_keeps_unacknowledged_data() {
    let mut stream = CryptoStream::new();
    write(&mut stream, b"outgoing");
    assert!(matches!(
        stream.outgoing.sender.poll_shutdown(),
        WriteFault::Unsupported
    ));
    let pieces = stream.outgoing.try_load_data_into(64, false).unwrap();
    assert_eq!(pieces[0].data, b"outgoing");
    write(&mut stream, b"still open");
}

#[test]
fn acknowledging_crypto_wakes_flush() {
    let mut stream = CryptoStream::new();
    write(&mut stream, b"hello");
    stream.outgoing.try_load_data_into(64, false).unwrap();
    assert!(!stream.outgoing.sender.poll_flush(5).unwrap());
    let woken = stream.outgoing.sender.on_data_acked(0, 5);
    assert_eq!(woken.flusher, Some(5));
    assert!(stream.outgoing.sender.poll_flush(5).unwrap());
}

#[test]
fn sparse_crypto_cannot_allocate_an_unbounded_handshake_buffer() {
    let mut stream = CryptoStream::new();
    assert_eq!(MAX_REASSEMBLY, 256 * 1024);
    let error = stream.recver.recv_frame(256 * 1024, b"x").unwrap_err();
    assert_eq!(error.kind, ErrorKind::CryptoBufferExceeded);
}

#[test]
fn test_read() {
    let mut stream = CryptoStream::new();
    write(&mut stream, b"hello world");
    stream.recver.recv_frame(0, b"hello world").unwrap();
    assert_eq!(
        stream.recver.poll_read(1, 11).unwrap().unwrap(),
        b"hello world"
    );
}

#[test]
fn a_reader_is_woken_when_the_gap_closes() {
    let mut recver = ArcRecver::new();
    assert!(recver.poll_read(9, 4).unwrap().is_none());
    assert_eq!(recver.recv_frame(3, b"def").unwrap(), None);
    assert_eq!(recver.recv_frame(0, b"abc").unwrap(), Some(9));
    assert_eq!(recver.poll_read(9, 4).unwrap().unwrap(), b"abcd");
    assert_eq!(recver.poll_read(9, 4).unwrap().unwrap(), b"ef");
    assert_eq!(recver.recv_frame(1, b"xx").unwrap(), None);
    assert!(recver.poll_read(9, 4).unwrap().is_none());
}

#[test]
fn lost_bytes_are_sent_before_new_ones() {
    let mut buf = SendBuf::with_capacity(64);
    buf.write_bytes(b"abcdef");
    let first = buf.pick_up(6).unwrap();
    assert_eq!((first.offset, first.data.as_slice()), (0, b"abc".as_slice()));
    assert!(first.fresh);
    buf.may_loss_data(0, 2);
    let again = buf.pick_up(64).unwrap();
    assert_eq!((again.offset, again.data.as_slice()), (0, b"ab".as_slice()));
    assert!(!again.fresh);
    let rest = buf.pick_up(64).unwrap();
    assert_eq!((rest.offset, rest.data.as_slice()), (3, b"def".as_slice()));
    assert!(buf.pick_up(64).is_err());
    buf.on_data_acked(0, 6);
    assert!(buf.is_all_rcvd());
    buf.may_loss_data(0, 6);
    assert!(buf.is_all_rcvd(), "what arrived is not lost any more");
    assert_eq!(buf.written(), 6);
}

#[test]
fn room_is_left_for_the_frame_around_the_data() {
    assert_eq!(data_capacity(2, 0), None);
    assert_eq!(data_capacity(4, 0), Some(1));
    assert_eq!(data_capacity(4, 64), None);
}

#[test]
fn received_bytes_are_read_once_and_in_order() {
    let mut buf = RecvBuf::new();
    buf.recv(2, b"cd");
    assert!(!buf.is_readable());
    assert_eq!(buf.segment_count(), 1);
    buf.recv(0, b"ab");
    assert_eq!(buf.segment_count(), 1);
    assert!(buf.is_readable());
    assert_eq!(buf.try_read(3), b"abc");
    assert_eq!(buf.nread(), 3);
    buf.recv(0, b"zzzd");
    assert_eq!(buf.try_read(9), b"d");
    assert!(buf.try_read(9).is_empty());
}

#[test]
fn the_first_initial_load_forces_a_resend() {
    let mut stream = CryptoStream::new();
    write(&mut stream, b"hello");
    stream.outgoing.try_load_data_into(64, false).unwrap();
    let mut package = CryptoStreamPackage::new(false);
    assert!(package.dump(&mut stream.outgoing, 64).is_err());
    let mut package = CryptoStreamPackage::new(true);
    let pieces = package.dump(&mut stream.outgoing, 64).unwrap();
    assert_eq!(loaded(&pieces), [(0, b"hello".to_vec())]);
    assert!(package.dump(&mut stream.outgoing, 64).is_err());
}

#[test]
fn a_fresh_sender_has_nothing_to_flush() {
    let mut sender = ArcSender::new();
    assert!(sender.poll_flush(1).unwrap());
}

#[test]
fn full_buffer_holds_the_writer_until_the_peer_acknowledges() {
    let mut stream = CryptoStream::with_capacity(4);
    write(&mut stream, b"hello");
    let (result, wakes) = stream.outgoing.sender.poll_write(9, b"more");
    assert_eq!(result.unwrap(), None);
    assert_eq!(wakes, Signals::empty());
    let (nothing, _) = stream.outgoing.sender.poll_write(9, b"");
    assert_eq!(nothing.unwrap(), Some(0));
    assert!(!stream.outgoing.sender.poll_flush(9).unwrap());
    stream.outgoing.try_load_data_into(64, false).unwrap();
    // A gap at the front keeps everything.
    let nobody = Woken {
        writer: None,
        flusher: None,
    };
    assert_eq!(stream.outgoing.sender.on_data_acked(1, 5), nobody);
    assert_eq!(stream.outgoing.sender.poll_write(9, b"more").0.unwrap(), None);
    assert_eq!(
        stream.outgoing.sender.on_data_acked(0, 1),
        Woken {
            writer: Some(9),
            flusher: Some(9)
        }
    );
    // Woken once.
    assert_eq!(stream.outgoing.sender.on_data_acked(0, 5), nobody);
    let (result, _) = stream.outgoing.sender.poll_write(9, b"more");
    assert_eq!(result.unwrap(), Some(4));
    let pieces = stream.outgoing.try_load_data_into(64, false).unwrap();
    assert_eq!(loaded(&pieces), [(5, b"more".to_vec())]);
}

#[test]
fn loading_a_packet_keeps_those_who_wait() {
    let mut stream = CryptoStream::with_capacity(2);
    write(&mut stream, b"ab");
    assert_eq!(stream.outgoing.sender.poll_write(6, b"c").0.unwrap(), None);
    assert!(!stream.outgoing.sender.poll_flush(6).unwrap());
    let mut package = CryptoStreamPackage::new(true);
    assert_eq!(package.dump(&mut stream.outgoing, 64).unwrap().len(), 1);
    assert_eq!(
        stream.outgoing.sender.on_data_acked(0, 2),
        Woken {
            writer: Some(6),
            flusher: Some(6)
        }
    );
}
