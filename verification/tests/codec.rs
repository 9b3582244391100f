//! Tests for the message codec: parsing datagrams and serializing packets.

use tftp_codec::reader::Error as ReadError;
use tftp_codec::tftp::BlockNum;
use tftp_codec::tftp::Data;
use tftp_codec::tftp::Error;
use tftp_codec::tftp::ErrorCode;
use tftp_codec::tftp::ErrorMessage;
use tftp_codec::tftp::Filename;
use tftp_codec::tftp::Opcode;
use tftp_codec::tftp::Packet;
use tftp_codec::tftp::TransferMode;
use tftp_codec::writer::Error as WriteError;

#[test]
fn tftp_it_works() {}

#[test]
fn parses_read_request() {
    let buf = [0u8, 1, b'a', b'b', b'c', 0, b'o', b'c', b't', b'e', b't', 0];
    match Packet::parse(&buf) {
        Ok(Packet::Read(f, m)) => {
            assert_eq!(f.0, "abc");
            assert_eq!(m, TransferMode::Octet);
        }
        other => panic!("expected a read request, got {:?}", other),
    }
}

#[test]
fn parses_write_request() {
    let buf = [0u8, 2, b'f', 0, b'o', b'c', b't', b'e', b't', 0];
    match Packet::parse(&buf) {
        Ok(Packet::Write(f, m)) => {
            assert_eq!(f.0, "f");
            assert_eq!(m, TransferMode::Octet);
        }
        other => panic!("expected a write request, got {:?}", other),
    }
}

#[test]
fn parses_data() {
    let buf = [0u8, 3, 0, 1, 9, 8, 7];
    match Packet::parse(&buf) {
        Ok(Packet::Data(block, data)) => {
            assert_eq!(block.0, 1);
            assert_eq!(data.0, &[9u8, 8, 7]);
        }
        other => panic!("expected data, got {:?}", other),
    }
}

#[test]
fn parses_empty_data() {
    let buf = [0u8, 3, 0, 5];
    match Packet::parse(&buf) {
        Ok(Packet::Data(block, data)) => {
            assert_eq!(block.0, 5);
            assert!(data.0.is_empty());
        }
        other => panic!("expected data, got {:?}", other),
    }
}

#[test]
fn parses_ack() {
    let buf = [0u8, 4, 1, 0];
    match Packet::parse(&buf) {
        Ok(Packet::Ack(block)) => assert_eq!(block.0, 256),
        other => panic!("expected an acknowledgement, got {:?}", other),
    }
}

#[test]
fn parses_error_notice() {
    let buf = [
        0u8, 5, 0, 1, b'N', b'o', b't', b' ', b'f', b'o', b'u', b'n', b'd', 0,
    ];
    match Packet::parse(&buf) {
        Ok(Packet::Error(code, message)) => {
            assert_eq!(code, ErrorCode::FileNotFound);
            assert_eq!(message.0, "Not found");
        }
        other => panic!("expected an error notice, got {:?}", other),
    }
}

#[test]
fn rejects_unknown_opcodes() {
    assert_eq!(
        Packet::parse(&[0u8, 9]).unwrap_err(),
        Error::InvalidOpCode(9)
    );
    assert_eq!(
        Packet::parse(&[0u8, 0]).unwrap_err(),
        Error::InvalidOpCode(0)
    );
    assert_eq!(
        Packet::parse(&[0u8, 6]).unwrap_err(),
        Error::InvalidOpCode(6)
    );
    assert_eq!(
        Packet::parse(&[255u8, 255]).unwrap_err(),
        Error::InvalidOpCode(65535)
    );
}

#[test]
fn accepts_every_known_opcode() {
    assert!(matches!(
        Packet::parse(&[0u8, 1, b'f', 0, b'o', b'c', b't', b'e', b't', 0]),
        Ok(Packet::Read(..))
    ));
    assert!(matches!(
        Packet::parse(&[0u8, 2, b'f', 0, b'o', b'c', b't', b'e', b't', 0]),
        Ok(Packet::Write(..))
    ));
    assert!(matches!(
        Packet::parse(&[0u8, 3, 0, 1]),
        Ok(Packet::Data(..))
    ));
    assert!(matches!(Packet::parse(&[0u8, 4, 0, 1]), Ok(Packet::Ack(..))));
    assert!(matches!(
        Packet::parse(&[0u8, 5, 0, 0, b'm', 0]),
        Ok(Packet::Error(..))
    ));
}

#[test]
fn short_buffers_fail_to_parse() {
    assert_eq!(
        Packet::parse(&[]).unwrap_err(),
        Error::ReadError(ReadError::NotEnoughData)
    );
    assert_eq!(
        Packet::parse(&[0u8]).unwrap_err(),
        Error::ReadError(ReadError::NotEnoughData)
    );
    assert_eq!(
        Packet::parse(&[0u8, 4]).unwrap_err(),
        Error::ReadError(ReadError::NotEnoughData)
    );
    assert_eq!(
        Packet::parse(&[0u8, 4, 1]).unwrap_err(),
        Error::ReadError(ReadError::NotEnoughData)
    );
    assert_eq!(
        Packet::parse(&[0u8, 3, 1]).unwrap_err(),
        Error::ReadError(ReadError::NotEnoughData)
    );
}

#[test]
fn unterminated_filename_fails_to_parse() {
    assert_eq!(
        Packet::parse(&[0u8, 1, b'a', b'b']).unwrap_err(),
        Error::ReadError(ReadError::StringNotTerminated)
    );
    assert_eq!(
        Packet::parse(&[0u8, 1, b'a', 0, b'o', b'c']).unwrap_err(),
        Error::ReadError(ReadError::StringNotTerminated)
    );
    assert_eq!(
        Packet::parse(&[0u8, 5, 0, 1, b'm']).unwrap_err(),
        Error::ReadError(ReadError::StringNotTerminated)
    );
}

#[test]
fn mode_matching_ignores_case() {
    let buf = [0u8, 1, b'f', 0, b'O', b'C', b'T', b'E', b'T', 0];
    assert!(matches!(Packet::parse(&buf), Ok(Packet::Read(..))));
    let buf = [0u8, 1, b'f', 0, b'o', b'C', b't', b'E', b't', 0];
    assert!(matches!(Packet::parse(&buf), Ok(Packet::Read(..))));
}

#[test]
fn unrecognized_mode_fails_to_parse() {
    let buf = [
        0u8, 1, b'f', 0, b'n', b'e', b't', b'a', b's', b'c', b'i', b'i', 0,
    ];
    assert_eq!(Packet::parse(&buf).unwrap_err(), Error::Unknown);
    let buf = [0u8, 1, b'f', 0, 0];
    assert_eq!(Packet::parse(&buf).unwrap_err(), Error::Unknown);
}

#[test]
fn lossy_filename_decoding_keeps_going() {
    let buf = [0u8, 1, 0xff, 0, b'o', b'c', b't', b'e', b't', 0];
    match Packet::parse(&buf) {
        Ok(Packet::Read(f, _)) => assert_eq!(f.0, "\u{fffd}"),
        other => panic!("expected a read request, got {:?}", other),
    }
}

#[test]
fn trailing_bytes_are_ignored() {
    let buf = [0u8, 4, 0, 7, 42, 42];
    match Packet::parse(&buf) {
        Ok(Packet::Ack(block)) => assert_eq!(block.0, 7),
        other => panic!("expected an acknowledgement, got {:?}", other),
    }
    let buf = [
        0u8, 1, b'f', 0, b'o', b'c', b't', b'e', b't', 0, 99, 99, 99,
    ];
    assert!(matches!(Packet::parse(&buf), Ok(Packet::Read(..))));
}

#[test]
fn every_error_code_parses() {
    for code in 0u8..=8 {
        let buf = [0u8, 5, 0, code, b'm', 0];
        match Packet::parse(&buf) {
            Ok(Packet::Error(c, m)) => {
                assert_eq!(Some(c), ErrorCode::from(code as u16));
                assert_eq!(m.0, "m");
            }
            other => panic!("expected an error notice for code {}, got {:?}", code, other),
        }
    }
}

#[test]
fn out_of_range_error_codes_fail() {
    assert_eq!(
        Packet::parse(&[0u8, 5, 0, 9, b'm', 0]).unwrap_err(),
        Error::InvalidErrorCode(9)
    );
    assert_eq!(
        Packet::parse(&[0u8, 5, 0x27, 0x0f, b'm', 0]).unwrap_err(),
        Error::InvalidErrorCode(9999)
    );
}

#[test]
fn short_error_code_counts_as_sentinel() {
    assert_eq!(
        Packet::parse(&[0u8, 5]).unwrap_err(),
        Error::InvalidErrorCode(999)
    );
    assert_eq!(
        Packet::parse(&[0u8, 5, 0]).unwrap_err(),
        Error::InvalidErrorCode(999)
    );
}

#[test]
fn serializes_ack() {
    let mut buf = vec![0u8; 4];
    let n = Packet::Ack(BlockNum(7)).write(&mut buf).unwrap();
    assert_eq!(n, 4);
    assert_eq!(buf, vec![0u8, 4, 0, 7]);
}

#[test]
fn serializes_read_request() {
    let mut buf = vec![0u8; 32];
    let n = Packet::Read(Filename(String::from("abc")), TransferMode::Octet)
        .write(&mut buf)
        .unwrap();
    assert_eq!(n, 12);
    assert_eq!(
        &buf[..n],
        &[0u8, 1, b'a', b'b', b'c', 0, b'o', b'c', b't', b'e', b't', 0]
    );
}

#[test]
fn serializes_error_notice() {
    let mut buf = vec![0u8; 32];
    let n = Packet::Error(ErrorCode::DiskFull, ErrorMessage(String::from("full")))
        .write(&mut buf)
        .unwrap();
    assert_eq!(n, 9);
    assert_eq!(&buf[..n], &[0u8, 5, 0, 3, b'f', b'u', b'l', b'l', 0]);
}

#[test]
fn serializes_data() {
    let payload = [1u8, 2, 3];
    let mut buf = vec![0u8; 16];
    let n = Packet::Data(BlockNum(258), Data(&payload))
        .write(&mut buf)
        .unwrap();
    assert_eq!(n, 7);
    assert_eq!(&buf[..n], &[0u8, 3, 1, 2, 1, 2, 3]);
}

#[test]
fn serializing_rejects_non_ascii_text() {
    let mut buf = vec![0u8; 32];
    let before = buf.clone();
    let e = Packet::Read(Filename(String::from("caf\u{e9}")), TransferMode::Octet)
        .write(&mut buf)
        .unwrap_err();
    assert_eq!(e, Error::WriteError(WriteError::StringNotASCII));
    assert_eq!(&buf[2..], &before[2..]);
}

#[test]
fn serializing_rejects_embedded_null() {
    let mut buf = vec![0u8; 32];
    let e = Packet::Error(ErrorCode::NotDefined, ErrorMessage(String::from("a\0b")))
        .write(&mut buf)
        .unwrap_err();
    assert_eq!(e, Error::WriteError(WriteError::StringContainsNull));
}

#[test]
fn serializing_needs_room() {
    let mut buf = vec![0u8; 3];
    let e = Packet::Ack(BlockNum(7)).write(&mut buf).unwrap_err();
    assert_eq!(e, Error::WriteError(WriteError::NotEnoughSpace));
    assert_eq!(buf, vec![0u8, 4, 0]);
    let mut buf = vec![0u8; 1];
    let e = Packet::Ack(BlockNum(7)).write(&mut buf).unwrap_err();
    assert_eq!(e, Error::WriteError(WriteError::NotEnoughSpace));
    assert_eq!(buf, vec![0u8]);
}

#[test]
fn round_trips_every_variant() {
    let mut buf = vec![0u8; 64];
    let n = Packet::Read(Filename(String::from("file.txt")), TransferMode::Octet)
        .write(&mut buf)
        .unwrap();
    match Packet::parse(&buf[..n]) {
        Ok(Packet::Read(f, m)) => {
            assert_eq!(f.0, "file.txt");
            assert_eq!(m, TransferMode::Octet);
        }
        other => panic!("expected a read request, got {:?}", other),
    }

    let n = Packet::Write(Filename(String::from("up.bin")), TransferMode::Octet)
        .write(&mut buf)
        .unwrap();
    match Packet::parse(&buf[..n]) {
        Ok(Packet::Write(f, _)) => assert_eq!(f.0, "up.bin"),
        other => panic!("expected a write request, got {:?}", other),
    }

    let payload = [0u8, 1, 0, 255];
    let n = Packet::Data(BlockNum(9), Data(&payload)).write(&mut buf).unwrap();
    match Packet::parse(&buf[..n]) {
        Ok(Packet::Data(block, data)) => {
            assert_eq!(block.0, 9);
            assert_eq!(data.0, &payload);
        }
        other => panic!("expected data, got {:?}", other),
    }

    let n = Packet::Ack(BlockNum(65535)).write(&mut buf).unwrap();
    match Packet::parse(&buf[..n]) {
        Ok(Packet::Ack(block)) => assert_eq!(block.0, 65535),
        other => panic!("expected an acknowledgement, got {:?}", other),
    }

    let n = Packet::Error(ErrorCode::NoSuchUser, ErrorMessage(String::from("who?")))
        .write(&mut buf)
        .unwrap();
    match Packet::parse(&buf[..n]) {
        Ok(Packet::Error(code, message)) => {
            assert_eq!(code, ErrorCode::NoSuchUser);
            assert_eq!(message.0, "who?");
        }
        other => panic!("expected an error notice, got {:?}", other),
    }
}

#[test]
fn opcode_mapping_is_exact() {
    assert!(matches!(Opcode::from(1), Some(Opcode::RRQ)));
    assert!(matches!(Opcode::from(2), Some(Opcode::WRQ)));
    assert!(matches!(Opcode::from(3), Some(Opcode::DATA)));
    assert!(matches!(Opcode::from(4), Some(Opcode::ACK)));
    assert!(matches!(Opcode::from(5), Some(Opcode::ERROR)));
    assert!(Opcode::from(0).is_none());
    assert!(Opcode::from(6).is_none());
    assert!(Opcode::from(65535).is_none());
}

#[test]
fn error_code_mapping_is_exact() {
    assert!(matches!(ErrorCode::from(0), Some(ErrorCode::NotDefined)));
    assert!(matches!(ErrorCode::from(1), Some(ErrorCode::FileNotFound)));
    assert!(matches!(ErrorCode::from(2), Some(ErrorCode::AccessViolation)));
    assert!(matches!(ErrorCode::from(3), Some(ErrorCode::DiskFull)));
    assert!(matches!(ErrorCode::from(4), Some(ErrorCode::IllegalOperation)));
    assert!(matches!(ErrorCode::from(5), Some(ErrorCode::UnknownTransferId)));
    assert!(matches!(ErrorCode::from(6), Some(ErrorCode::FileAlreadyExists)));
    assert!(matches!(ErrorCode::from(7), Some(ErrorCode::NoSuchUser)));
    assert!(matches!(ErrorCode::from(8), Some(ErrorCode::BadOptions)));
    assert!(ErrorCode::from(9).is_none());
    assert!(ErrorCode::from(999).is_none());
}

#[test]
fn transfer_mode_parse_matches_octet_only() {
    assert!(matches!(
        TransferMode::parse(b"octet"),
        Some(TransferMode::Octet)
    ));
    assert!(matches!(
        TransferMode::parse(b"OCTET"),
        Some(TransferMode::Octet)
    ));
    assert!(TransferMode::parse(b"netascii").is_none());
    assert!(TransferMode::parse(b"octe").is_none());
    assert!(TransferMode::parse(b"octett").is_none());
    assert!(TransferMode::parse(b"").is_none());
}

#[test]
fn opcode_method_names_the_variant() {
    let payload = [1u8];
    assert!(matches!(
        Packet::Read(Filename(String::new()), TransferMode::Octet).opcode(),
        Opcode::RRQ
    ));
    assert!(matches!(
        Packet::Write(Filename(String::new()), TransferMode::Octet).opcode(),
        Opcode::WRQ
    ));
    assert!(matches!(
        Packet::Data(BlockNum(0), Data(&payload)).opcode(),
        Opcode::DATA
    ));
    assert!(matches!(Packet::Ack(BlockNum(0)).opcode(), Opcode::ACK));
    assert!(matches!(
        Packet::Error(ErrorCode::NotDefined, ErrorMessage(String::new())).opcode(),
        Opcode::ERROR
    ));
}
