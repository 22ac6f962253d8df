use fsuipc::errors::{FramingFault, IpcError};
use fsuipc::session::Batch;
use fsuipc::stub::{StubHandle, STUB_OVERHEAD};
use fsuipc::{Handle, Session, MESSAGE_SUCCESS};

fn push_word(out: &mut Vec<u8>, w: u32) {
    out.extend_from_slice(&w.to_le_bytes());
}

#[test]
fn empty_session_sends_one_termination_mark() {
    let handle = StubHandle::new(MESSAGE_SUCCESS, None);
    let session = handle.session();
    let outcome = session.process().unwrap();
    assert_eq!(outcome.total, STUB_OVERHEAD + 4);
    assert_eq!(outcome.read_results.len(), 0);
}

#[test]
fn batched_requests_frame_in_issuance_order() {
    let mut batch = Batch::new(4);
    assert_eq!(batch.add_read(0x3304, 4), 20);
    assert_eq!(batch.add_write(0x0D0C, &vec![0x34u8, 0x12]), 14);
    let sealed = batch.seal();
    assert_eq!(sealed.total(), 42);

    let mut expected: Vec<u8> = vec![0, 0, 0, 0];
    push_word(&mut expected, 1);
    push_word(&mut expected, 0x3304);
    push_word(&mut expected, 4);
    push_word(&mut expected, 0);
    expected.extend_from_slice(&[0, 0, 0, 0]);
    push_word(&mut expected, 2);
    push_word(&mut expected, 0x0D0C);
    push_word(&mut expected, 2);
    expected.extend_from_slice(&[0x34, 0x12]);
    push_word(&mut expected, 0);
    assert_eq!(sealed.wire_bytes(), &expected);
}

#[test]
fn session_wire_matches_the_batched_requests() {
    let handle = StubHandle::new(0, None);
    let mut session = handle.session();
    assert_eq!(session.read_bytes(0x3304, 4).unwrap(), 20);
    assert_eq!(session.write_bytes(0x0D0C, &vec![0x34u8, 0x12]).unwrap(), 14);
    let err = session.process().err().unwrap();
    match err {
        IpcError::RejectedBatch { status, buffer } => {
            assert_eq!(status, 0);
            let mut expected: Vec<u8> = vec![0, 0, 0, 0];
            push_word(&mut expected, 1);
            push_word(&mut expected, 0x3304);
            push_word(&mut expected, 4);
            push_word(&mut expected, 0);
            expected.extend_from_slice(&[0, 0, 0, 0]);
            push_word(&mut expected, 2);
            push_word(&mut expected, 0x0D0C);
            push_word(&mut expected, 2);
            expected.extend_from_slice(&[0x34, 0x12]);
            push_word(&mut expected, 0);
            assert_eq!(buffer, expected);
        },
        other => panic!("expected RejectedBatch, got {:?}", other),
    }
}

#[test]
fn rejected_batch_scatters_nothing() {
    let handle = StubHandle::new(6, None);
    let mut session = handle.session();
    session.read_bytes(0x0560, 8).unwrap();
    let err = session.process().err().unwrap();
    assert!(matches!(err, IpcError::RejectedBatch { status: 6, .. }));
}

#[test]
fn echo_exchange_returns_the_placeholder_zeros() {
    let handle = StubHandle::new(MESSAGE_SUCCESS, None);
    let mut session = handle.session();
    session.read_bytes(0x0560, 8).unwrap();
    session.read_bytes(0x0568, 2).unwrap();
    let outcome = session.process().unwrap();
    assert_eq!(outcome.total, 4 + 24 + 18 + 4);
    assert_eq!(outcome.read_results, vec![vec![0u8; 8], vec![0u8; 2]]);
}

#[test]
fn responses_scatter_to_each_read_in_order() {
    // Two reads of the same offset and length: the destination table tells
    // their results apart by index alone.
    let mut response: Vec<u8> = vec![0, 0, 0, 0];
    push_word(&mut response, 1);
    push_word(&mut response, 0x3304);
    push_word(&mut response, 4);
    push_word(&mut response, 0);
    response.extend_from_slice(&[0xAA, 0xBB, 0xCC, 0xDD]);
    push_word(&mut response, 1);
    push_word(&mut response, 0x3304);
    push_word(&mut response, 4);
    push_word(&mut response, 1);
    response.extend_from_slice(&[0x11, 0x22, 0x33, 0x44]);
    push_word(&mut response, 0);

    let handle = StubHandle::new(MESSAGE_SUCCESS, Some(response.clone()));
    let mut session = handle.session();
    session.read_bytes(0x3304, 4).unwrap();
    session.read_bytes(0x3304, 4).unwrap();
    let outcome = session.process().unwrap();
    assert_eq!(outcome.read_results, vec![vec![0xAA, 0xBB, 0xCC, 0xDD], vec![
        0x11, 0x22, 0x33, 0x44,
    ]]);

    // The same response, scattered by the engine directly.
    let mut batch = Batch::new(4);
    batch.add_read(0x3304, 4);
    batch.add_read(0x3304, 4);
    let sealed = batch.seal();
    let results = sealed.scatter(&response).unwrap();
    assert_eq!(results, vec![vec![0xAA, 0xBB, 0xCC, 0xDD], vec![0x11, 0x22, 0x33, 0x44]]);
}

#[test]
fn write_echoes_are_discarded_during_the_scan() {
    let handle = StubHandle::new(MESSAGE_SUCCESS, None);
    let mut session = handle.session();
    session.write_bytes(0x0D0C, &vec![0x34u8, 0x12]).unwrap();
    session.read_bytes(0x3304, 1).unwrap();
    let outcome = session.process().unwrap();
    assert_eq!(outcome.read_results, vec![vec![0u8]]);
}

#[test]
fn out_of_range_index_is_a_framing_error() {
    let mut response: Vec<u8> = vec![0, 0, 0, 0];
    push_word(&mut response, 1);
    push_word(&mut response, 0x3304);
    push_word(&mut response, 4);
    push_word(&mut response, 5);
    response.extend_from_slice(&[0xAA, 0xBB, 0xCC, 0xDD]);
    push_word(&mut response, 0);

    let mut batch = Batch::new(4);
    batch.add_read(0x3304, 4);
    let sealed = batch.seal();
    let err = sealed.scatter(&response).err().unwrap();
    assert!(matches!(err, IpcError::FramingError(FramingFault::InvalidIndex(5))));
}

#[test]
fn corrupt_response_tag_is_a_framing_error() {
    let mut response: Vec<u8> = vec![0, 0, 0, 0];
    push_word(&mut response, 9);

    let handle = StubHandle::new(MESSAGE_SUCCESS, Some(response));
    let session = handle.session();
    let err = session.process().err().unwrap();
    assert!(matches!(err, IpcError::FramingError(FramingFault::UnknownTag(9))));
}

#[test]
fn truncated_response_is_eof() {
    let response: Vec<u8> = vec![0, 0, 0, 0, 1, 0];
    let handle = StubHandle::new(MESSAGE_SUCCESS, Some(response));
    let session = handle.session();
    let err = session.process().err().unwrap();
    assert!(matches!(err, IpcError::UnexpectedEof));
}

#[test]
fn oversized_response_body_is_truncated_to_the_destination() {
    let mut response: Vec<u8> = vec![0, 0, 0, 0];
    push_word(&mut response, 1);
    push_word(&mut response, 0x3304);
    push_word(&mut response, 6);
    push_word(&mut response, 0);
    response.extend_from_slice(&[0x01, 0x02, 0x03, 0x04, 0x05, 0x06]);
    push_word(&mut response, 0);

    let mut batch = Batch::new(4);
    batch.add_read(0x3304, 4);
    let results = batch.seal().scatter(&response).unwrap();
    assert_eq!(results, vec![vec![0x01, 0x02, 0x03, 0x04]]);
}

#[test]
fn undersized_response_body_keeps_trailing_zeros() {
    let mut response: Vec<u8> = vec![0, 0, 0, 0];
    push_word(&mut response, 1);
    push_word(&mut response, 0x3304);
    push_word(&mut response, 2);
    push_word(&mut response, 0);
    response.extend_from_slice(&[0x01, 0x02]);
    push_word(&mut response, 0);

    let mut batch = Batch::new(4);
    batch.add_read(0x3304, 4);
    let results = batch.seal().scatter(&response).unwrap();
    assert_eq!(results, vec![vec![0x01, 0x02, 0x00, 0x00]]);
}

#[test]
fn a_batch_with_no_reserved_prefix_scans_from_its_first_byte() {
    let mut response: Vec<u8> = Vec::new();
    push_word(&mut response, 1);
    push_word(&mut response, 0x0560);
    push_word(&mut response, 1);
    push_word(&mut response, 0);
    response.push(0x5A);
    push_word(&mut response, 0);

    let mut batch = Batch::new(0);
    assert_eq!(batch.add_read(0x0560, 1), 17);
    let sealed = batch.seal();
    assert_eq!(sealed.total(), 17 + 4);
    let results = sealed.scatter(&response).unwrap();
    assert_eq!(results, vec![vec![0x5A]]);
}

#[test]
fn a_handle_makes_independent_sessions() {
    let handle = StubHandle::new(MESSAGE_SUCCESS, None);
    let first = handle.session();
    assert_eq!(first.process().unwrap().total, 8);
    let mut second = handle.session();
    second.read_bytes(0x0560, 2).unwrap();
    assert_eq!(second.process().unwrap().total, 8 + 18);
    handle.disconnect();
}
