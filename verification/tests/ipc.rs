use fsuipc::errors::{FramingFault, IpcError};
use fsuipc::ipc::{Buffer, MsgHeader};
use fsuipc::raw::{MutRawBytes, RawBytes};

fn word(bytes: &[u8], at: usize) -> u32 {
    u32::from_le_bytes([bytes[at], bytes[at + 1], bytes[at + 2], bytes[at + 3]])
}

#[test]
fn should_read_rsd_header() {
    let mut buff = Buffer::from_bytes(vec![
        0x01, 0x00, 0x00, 0x00, 0x00, 0x10, 0x00, 0x00, 0x04, 0x00, 0x00, 0x00, 0x00, 0x20, 0x00,
        0x00,
    ]);
    let expected = MsgHeader::ReadStateData { offset: 0x1000, len: 4, target: 0x2000 };
    assert_eq!(buff.read_header().unwrap(), (expected, 16));
}

#[test]
fn should_read_rsd_body() {
    let mut buff = Buffer::from_bytes(vec![0x01, 0x02, 0x03, 0x04]);
    let header = MsgHeader::ReadStateData { offset: 0x1000, len: 4, target: 0x2000 };
    let mut output = MutRawBytes::new(vec![0u8; 4]);
    assert_eq!(buff.read_body(&header, &mut output).unwrap(), 4);
    let data = output.into_inner();
    assert_eq!(data[0], 1);
    assert_eq!(data[1], 2);
    assert_eq!(data[2], 3);
    assert_eq!(data[3], 4);
}

#[test]
fn should_read_wsd_header() {
    let mut buff = Buffer::from_bytes(vec![
        0x02, 0x00, 0x00, 0x00, 0x00, 0x10, 0x00, 0x00, 0x04, 0x00, 0x00, 0x00,
    ]);
    let expected = MsgHeader::WriteStateData { offset: 0x1000, len: 4 };
    assert_eq!(buff.read_header().unwrap(), (expected, 12));
}

#[test]
fn should_read_wsd_body() {
    let mut buff = Buffer::from_bytes(vec![0x01, 0x02, 0x03, 0x04]);
    let header = MsgHeader::WriteStateData { offset: 0x1000, len: 4 };
    let mut output = MutRawBytes::new(vec![0u8; 4]);
    assert_eq!(buff.read_body(&header, &mut output).unwrap(), 4);
    let data = output.into_inner();
    assert_eq!(data[0], 1);
    assert_eq!(data[1], 2);
    assert_eq!(data[2], 3);
    assert_eq!(data[3], 4);
}

#[test]
fn should_read_tm_header() {
    let mut buff = Buffer::from_bytes(vec![0x00, 0x00, 0x00, 0x00]);
    assert_eq!(buff.read_header().unwrap(), (MsgHeader::TerminationMark, 4));
}

#[test]
fn should_read_tm_body() {
    let mut buff = Buffer::from_bytes(vec![0x01, 0x02, 0x03, 0x04]);
    let mut output = MutRawBytes::new(Vec::new());
    assert_eq!(buff.read_body(&MsgHeader::TerminationMark, &mut output).unwrap(), 0);
    assert_eq!(output.into_inner().len(), 0);
}

#[test]
fn should_fail_to_read_from_invalid_stream() {
    let mut buff = Buffer::from_bytes(vec![0x01, 0x02, 0x03, 0x04]);
    let err = buff.read_header().err().unwrap();
    assert!(matches!(err, IpcError::FramingError(FramingFault::UnknownTag(0x04030201))));
}

#[test]
fn unrecognized_tag_reports_the_offending_value() {
    let mut buff = Buffer::from_bytes(vec![0x02, 0x03, 0x04, 0x05]);
    let err = buff.read_header().err().unwrap();
    assert!(matches!(err, IpcError::FramingError(FramingFault::UnknownTag(0x05040302))));
}

#[test]
fn truncated_header_reports_eof() {
    let mut buff = Buffer::from_bytes(vec![0x01, 0x00, 0x00, 0x00, 0x10]);
    let err = buff.read_header().err().unwrap();
    assert!(matches!(err, IpcError::UnexpectedEof));
}

#[test]
fn should_write_rsd_header() {
    let mut buff = Buffer::new();
    let msg = MsgHeader::ReadStateData { offset: 0x1000, len: 4, target: 0x2000 };
    assert_eq!(buff.write_header(&msg), 16);
    let bytes = buff.bytes();
    assert_eq!(bytes.len(), 16);
    assert_eq!(word(bytes, 0), 1);
    assert_eq!(word(bytes, 4), 0x1000);
    assert_eq!(word(bytes, 8), 4);
    assert_eq!(word(bytes, 12), 0x2000);
}

#[test]
fn should_write_rsd_body() {
    let mut buff = Buffer::new();
    let mut input = RawBytes::new(vec![0x01u8, 0x02, 0x03, 0x04]);
    let msg = MsgHeader::ReadStateData { offset: 0x1000, len: 4, target: 0x2000 };
    assert_eq!(buff.write_body(&msg, &mut input).unwrap(), 4);
    let bytes = buff.bytes();
    assert_eq!(bytes[0], 1);
    assert_eq!(bytes[1], 2);
    assert_eq!(bytes[2], 3);
    assert_eq!(bytes[3], 4);
}

#[test]
fn should_write_rsd() {
    let mut buff = Buffer::new();
    assert_eq!(buff.write_rsd(0x1000, 0x2000, 4), 20);
    let bytes = buff.bytes();
    assert_eq!(bytes.len(), 20);
    assert_eq!(word(bytes, 0), 1);
    assert_eq!(word(bytes, 4), 0x1000);
    assert_eq!(word(bytes, 8), 4);
    assert_eq!(word(bytes, 12), 0x2000);
    assert_eq!(word(bytes, 16), 0);
}

#[test]
fn should_write_wsd_header() {
    let mut buff = Buffer::new();
    let msg = MsgHeader::WriteStateData { offset: 0x1000, len: 4 };
    assert_eq!(buff.write_header(&msg), 12);
    let bytes = buff.bytes();
    assert_eq!(bytes.len(), 12);
    assert_eq!(word(bytes, 0), 2);
    assert_eq!(word(bytes, 4), 0x1000);
    assert_eq!(word(bytes, 8), 4);
}

#[test]
fn should_write_wsd_body() {
    let mut buff = Buffer::new();
    let mut input = RawBytes::new(vec![0x01u8, 0x02, 0x03, 0x04]);
    let msg = MsgHeader::WriteStateData { offset: 0x1000, len: 4 };
    assert_eq!(buff.write_body(&msg, &mut input).unwrap(), 4);
    let bytes = buff.bytes();
    assert_eq!(bytes[0], 1);
    assert_eq!(bytes[1], 2);
    assert_eq!(bytes[2], 3);
    assert_eq!(bytes[3], 4);
}

#[test]
fn should_write_wsd() {
    let mut buff = Buffer::new();
    let data = 0x01020304u32.to_le_bytes().to_vec();
    assert_eq!(buff.write_wsd(0x1000, &data), 16);
    let bytes = buff.bytes();
    assert_eq!(bytes.len(), 16);
    assert_eq!(word(bytes, 0), 2);
    assert_eq!(word(bytes, 4), 0x1000);
    assert_eq!(word(bytes, 8), 4);
    assert_eq!(word(bytes, 12), 0x01020304);
}

#[test]
fn should_write_tm_header() {
    let mut buff = Buffer::new();
    assert_eq!(buff.write_header(&MsgHeader::TerminationMark), 4);
    assert_eq!(word(buff.bytes(), 0), 0);
}

#[test]
fn should_write_tm_body() {
    let mut buff = Buffer::new();
    let mut input = RawBytes::new(vec![0x01u8, 0x02, 0x03, 0x04]);
    assert_eq!(buff.write_body(&MsgHeader::TerminationMark, &mut input).unwrap(), 0);
    assert_eq!(buff.bytes().len(), 0);
}

#[test]
fn header_round_trips_for_every_variant() {
    let headers = vec![
        MsgHeader::ReadStateData { offset: 0xFFFF, len: 0xFFFF_FFFF, target: 0 },
        MsgHeader::ReadStateData { offset: 0x3304, len: 4, target: 7 },
        MsgHeader::WriteStateData { offset: 0x0D0C, len: 2 },
        MsgHeader::WriteStateData { offset: 0, len: 0 },
        MsgHeader::TerminationMark,
    ];
    let counts = vec![16usize, 16, 12, 12, 4];
    for (h, n) in headers.into_iter().zip(counts.into_iter()) {
        let mut buff = Buffer::new();
        assert_eq!(buff.write_header(&h), n);
        assert_eq!(buff.read_header().unwrap(), (h, n));
    }
}

#[test]
fn body_copy_is_exact_for_any_length() {
    for n in [0usize, 1, 3, 257] {
        let src: Vec<u8> = (0..n).map(|i| (i % 251) as u8).collect();
        let mut buff = Buffer::from_bytes(src.clone());
        let header = MsgHeader::WriteStateData { offset: 0, len: n as u32 };
        let mut output = MutRawBytes::new(vec![0u8; n]);
        assert_eq!(buff.read_body(&header, &mut output).unwrap(), n);
        assert_eq!(output.into_inner(), src);
    }
}

#[test]
fn body_copy_into_short_destination_is_write_zero() {
    let mut buff = Buffer::from_bytes(vec![1u8, 2, 3, 4]);
    let header = MsgHeader::WriteStateData { offset: 0, len: 4 };
    let mut output = MutRawBytes::new(vec![0u8; 2]);
    let err = buff.read_body(&header, &mut output).err().unwrap();
    assert!(matches!(err, IpcError::WriteZero));
}

#[test]
fn body_copy_from_short_stream_is_eof() {
    let mut buff = Buffer::from_bytes(vec![1u8, 2]);
    let header = MsgHeader::WriteStateData { offset: 0, len: 4 };
    let mut output = MutRawBytes::new(vec![0u8; 4]);
    let err = buff.read_body(&header, &mut output).err().unwrap();
    assert!(matches!(err, IpcError::UnexpectedEof));
}
