//! The message codec: the datagram kinds of the protocol, their binary
//! layouts, and the top-level parse and serialize entry points composed from
//! the cursor reader and writer.

use vstd::prelude::*;

use crate::reader;
use crate::wire::{be_bytes, first_null, has_null, is_octet_bytes, octet_bytes, str_bytes, u16_be};
use crate::writer;

verus! {

/// A protocol datagram.
#[derive(Debug)]
pub enum Packet<'a> {
    Read(Filename, TransferMode),
    Write(Filename, TransferMode),
    Data(BlockNum, Data<'a>),
    Ack(BlockNum),
    Error(ErrorCode, ErrorMessage),
}

/// The 16-bit operation code at the start of every datagram.
#[derive(Clone, Copy, Debug, PartialEq, Eq, Structural)]
pub enum Opcode {
    RRQ,
    WRQ,
    DATA,
    ACK,
    ERROR,
}

impl Opcode {
    /// The wire value of this opcode.
    pub open spec fn spec_value(self) -> u16 {
        match self {
            Opcode::RRQ => 1,
            Opcode::WRQ => 2,
            Opcode::DATA => 3,
            Opcode::ACK => 4,
            Opcode::ERROR => 5,
        }
    }

    /// The wire value of this opcode.
    pub fn value(self) -> (v: u16)
        ensures
            v == self.spec_value(),
    {
        match self {
            Opcode::RRQ => 1,
            Opcode::WRQ => 2,
            Opcode::DATA => 3,
            Opcode::ACK => 4,
            Opcode::ERROR => 5,
        }
    }

    /// The opcode denoted by a wire value, if any.
    pub open spec fn spec_from(opcode: u16) -> Option<Opcode> {
        match opcode {
            1u16 => Some(Opcode::RRQ),
            2u16 => Some(Opcode::WRQ),
            3u16 => Some(Opcode::DATA),
            4u16 => Some(Opcode::ACK),
            5u16 => Some(Opcode::ERROR),
            _ => None,
        }
    }

    /// Maps a wire value to its opcode; every value outside 1 through 5 is
    /// invalid.
    pub fn from(opcode: u16) -> (r: Option<Self>)
        ensures
            r == Opcode::spec_from(opcode),
    {
        match opcode {
            1u16 => Some(Opcode::RRQ),
            2u16 => Some(Opcode::WRQ),
            3u16 => Some(Opcode::DATA),
            4u16 => Some(Opcode::ACK),
            5u16 => Some(Opcode::ERROR),
            _ => None,
        }
    }
}

/// The name of the file a request speaks of.
#[derive(Debug)]
pub struct Filename(pub String);

/// How a transfer's content is encoded; only the byte-oriented mode is
/// recognized.
#[derive(Clone, Copy, Debug, PartialEq, Eq, Structural)]
pub enum TransferMode {
    Octet,
}

/// Folds one ASCII upper-case letter to lower case.
fn lower_byte(c: u8) -> (r: u8)
    ensures
        r == crate::wire::lower(c),
{
    if c >= 65 && c <= 90 {
        c + 32
    } else {
        c
    }
}

impl TransferMode {
    /// Maps a mode's wire bytes to the mode they name, matching the literal
    /// `octet` without regard to ASCII case; any other text is unrecognized.
    pub fn parse(buffer: &[u8]) -> (r: Option<Self>)
        ensures
            r == if crate::wire::is_octet_bytes(buffer@) {
                Some(TransferMode::Octet)
            } else {
                None::<TransferMode>
            },
    {
        if buffer.len() != 5 {
            return None;
        }
        proof {
            assert(crate::wire::octet_bytes()[0] == 111u8);
            assert(crate::wire::octet_bytes()[1] == 99u8);
            assert(crate::wire::octet_bytes()[2] == 116u8);
            assert(crate::wire::octet_bytes()[3] == 101u8);
            assert(crate::wire::octet_bytes()[4] == 116u8);
        }
        let b0 = lower_byte(*vstd::slice::slice_index_get(buffer, 0));
        let b1 = lower_byte(*vstd::slice::slice_index_get(buffer, 1));
        let b2 = lower_byte(*vstd::slice::slice_index_get(buffer, 2));
        let b3 = lower_byte(*vstd::slice::slice_index_get(buffer, 3));
        let b4 = lower_byte(*vstd::slice::slice_index_get(buffer, 4));
        if b0 == 111 && b1 == 99 && b2 == 116 && b3 == 101 && b4 == 116 {
            proof {
                assert forall|i: int| 0 <= i < 5 implies crate::wire::lower(buffer@[i])
                    == crate::wire::octet_bytes()[i] by {
                    if i == 0 {
                    } else if i == 1 {
                    } else if i == 2 {
                    } else if i == 3 {
                    } else {
                        assert(i == 4);
                    }
                }
            }
            Some(TransferMode::Octet)
        } else {
            None
        }
    }
}

/// A 16-bit block counter, carried opaquely at this layer.
#[derive(Debug)]
pub struct BlockNum(pub u16);

/// One block of file content, borrowed from the buffer it was parsed from.
#[derive(Debug)]
pub struct Data<'a>(pub &'a [u8]);

/// The machine-readable reason in an `ERROR` packet.
#[derive(Clone, Copy, Debug, PartialEq, Eq, Structural)]
pub enum ErrorCode {
    /// Not defined, see error message (if any).
    NotDefined,
    /// File not found.
    FileNotFound,
    /// Access violation.
    AccessViolation,
    /// Disk full or allocation exceeded.
    DiskFull,
    /// Illegal operation for this protocol.
    IllegalOperation,
    /// Unknown transfer ID.
    UnknownTransferId,
    /// File already exists.
    FileAlreadyExists,
    /// No such user.
    NoSuchUser,
    /// Options not acceptable.
    BadOptions,
}

impl ErrorCode {
    /// The wire value of this error code.
    pub open spec fn spec_value(self) -> u16 {
        match self {
            ErrorCode::NotDefined => 0,
            ErrorCode::FileNotFound => 1,
            ErrorCode::AccessViolation => 2,
            ErrorCode::DiskFull => 3,
            ErrorCode::IllegalOperation => 4,
            ErrorCode::UnknownTransferId => 5,
            ErrorCode::FileAlreadyExists => 6,
            ErrorCode::NoSuchUser => 7,
            ErrorCode::BadOptions => 8,
        }
    }

    /// The wire value of this error code.
    pub fn value(self) -> (v: u16)
        ensures
            v == self.spec_value(),
    {
        match self {
            ErrorCode::NotDefined => 0,
            ErrorCode::FileNotFound => 1,
            ErrorCode::AccessViolation => 2,
            ErrorCode::DiskFull => 3,
            ErrorCode::IllegalOperation => 4,
            ErrorCode::UnknownTransferId => 5,
            ErrorCode::FileAlreadyExists => 6,
            ErrorCode::NoSuchUser => 7,
            ErrorCode::BadOptions => 8,
        }
    }

    /// The error code denoted by a wire value, if any.
    pub open spec fn spec_from(code: u16) -> Option<ErrorCode> {
        match code {
            0u16 => Some(ErrorCode::NotDefined),
            1u16 => Some(ErrorCode::FileNotFound),
            2u16 => Some(ErrorCode::AccessViolation),
            3u16 => Some(ErrorCode::DiskFull),
            4u16 => Some(ErrorCode::IllegalOperation),
            5u16 => Some(ErrorCode::UnknownTransferId),
            6u16 => Some(ErrorCode::FileAlreadyExists),
            7u16 => Some(ErrorCode::NoSuchUser),
            8u16 => Some(ErrorCode::BadOptions),
            _ => None,
        }
    }

    /// Maps a wire value to its error code; every value above 8 is invalid.
    pub fn from(code: u16) -> (r: Option<Self>)
        ensures
            r == ErrorCode::spec_from(code),
    {
        match code {
            0u16 => Some(ErrorCode::NotDefined),
            1u16 => Some(ErrorCode::FileNotFound),
            2u16 => Some(ErrorCode::AccessViolation),
            3u16 => Some(ErrorCode::DiskFull),
            4u16 => Some(ErrorCode::IllegalOperation),
            5u16 => Some(ErrorCode::UnknownTransferId),
            6u16 => Some(ErrorCode::FileAlreadyExists),
            7u16 => Some(ErrorCode::NoSuchUser),
            8u16 => Some(ErrorCode::BadOptions),
            _ => None,
        }
    }
}

/// The human-readable text in an `ERROR` packet.
#[derive(Debug)]
pub struct ErrorMessage(pub String);

/// Everything that can go wrong while parsing or serializing a datagram;
/// reader and writer failures are wrapped with their original reason kept.
#[derive(Debug, PartialEq, Eq, Structural)]
pub enum Error {
    InvalidOpCode(u16),
    InvalidErrorCode(u16),
    ReadError(reader::Error),
    WriteError(writer::Error),
    Unknown,
}

/// The mathematical value of a packet: its text fields as character
/// sequences, its payload as a byte sequence.
#[verifier::ext_equal]
pub enum PacketV {
    Read { filename: Seq<char>, mode: TransferMode },
    Write { filename: Seq<char>, mode: TransferMode },
    Data { block: u16, payload: Seq<u8> },
    Ack { block: u16 },
    Error { code: ErrorCode, message: Seq<char> },
}

impl<'a> View for Packet<'a> {
    type V = PacketV;

    open spec fn view(&self) -> PacketV {
        match self {
            Packet::Read(f, m) => PacketV::Read { filename: f.0@, mode: *m },
            Packet::Write(f, m) => PacketV::Write { filename: f.0@, mode: *m },
            Packet::Data(b, d) => PacketV::Data { block: b.0, payload: d.0@ },
            Packet::Ack(b) => PacketV::Ack { block: b.0 },
            Packet::Error(c, m) => PacketV::Error { code: *c, message: m.0@ },
        }
    }
}

/// Whether a mode field's raw bytes name the byte-oriented mode: the text
/// they decode to, re-encoded, spells `octet` without regard to ASCII case.
pub open spec fn mode_ok(raw: Seq<u8>) -> bool {
    is_octet_bytes(vstd::utf8::encode_utf8(reader::text_of(raw)))
}

/// The opcode that tags a packet's variant.
pub open spec fn packet_opcode(p: PacketV) -> Opcode {
    match p {
        PacketV::Read { .. } => Opcode::RRQ,
        PacketV::Write { .. } => Opcode::WRQ,
        PacketV::Data { .. } => Opcode::DATA,
        PacketV::Ack { .. } => Opcode::ACK,
        PacketV::Error { .. } => Opcode::ERROR,
    }
}

/// Whether a text field can be put on the wire: 7-bit ASCII with no embedded
/// null byte.
pub open spec fn text_writable(s: Seq<char>) -> bool {
    vstd::utf8::is_ascii_chars(s) && !has_null(str_bytes(s))
}

/// Whether every text field of `p` can be put on the wire.
pub open spec fn packet_writable(p: PacketV) -> bool {
    match p {
        PacketV::Read { filename, .. } => text_writable(filename),
        PacketV::Write { filename, .. } => text_writable(filename),
        PacketV::Data { .. } => true,
        PacketV::Ack { .. } => true,
        PacketV::Error { message, .. } => text_writable(message),
    }
}

/// The exact bytes a packet occupies on the wire: its opcode, then its
/// fields in layout order.
pub open spec fn packet_bytes(p: PacketV) -> Seq<u8> {
    be_bytes(packet_opcode(p).spec_value()) + (match p {
        PacketV::Read { filename, .. } => str_bytes(filename) + seq![0u8] + octet_bytes()
            + seq![0u8],
        PacketV::Write { filename, .. } => str_bytes(filename) + seq![0u8] + octet_bytes()
            + seq![0u8],
        PacketV::Data { block, payload } => be_bytes(block) + payload,
        PacketV::Ack { block } => be_bytes(block),
        PacketV::Error { code, message } => be_bytes(code.spec_value()) + str_bytes(message)
            + seq![0u8],
    })
}

/// What parsing a read or write request's payload yields: filename, then
/// mode, each null-terminated; an unrecognized mode is a generic decode
/// error.
pub open spec fn spec_parse_request(rest: Seq<u8>, read_request: bool) -> Result<PacketV, Error> {
    if !has_null(rest) {
        Err(Error::ReadError(reader::Error::StringNotTerminated))
    } else {
        let n1 = first_null(rest);
        let rest2 = rest.skip(n1 + 1);
        if !has_null(rest2) {
            Err(Error::ReadError(reader::Error::StringNotTerminated))
        } else if mode_ok(rest2.take(first_null(rest2))) {
            if read_request {
                Ok(
                    PacketV::Read {
                        filename: reader::text_of(rest.take(n1)),
                        mode: TransferMode::Octet,
                    },
                )
            } else {
                Ok(
                    PacketV::Write {
                        filename: reader::text_of(rest.take(n1)),
                        mode: TransferMode::Octet,
                    },
                )
            }
        } else {
            Err(Error::Unknown)
        }
    }
}

/// What parsing a data payload yields: a block number, then the rest of the
/// datagram as content.
pub open spec fn spec_parse_data(rest: Seq<u8>) -> Result<PacketV, Error> {
    if rest.len() < 2 {
        Err(Error::ReadError(reader::Error::NotEnoughData))
    } else {
        Ok(PacketV::Data { block: u16_be(rest[0], rest[1]), payload: rest.skip(2) })
    }
}

/// What parsing an acknowledgement payload yields: a block number.
pub open spec fn spec_parse_ack(rest: Seq<u8>) -> Result<PacketV, Error> {
    if rest.len() < 2 {
        Err(Error::ReadError(reader::Error::NotEnoughData))
    } else {
        Ok(PacketV::Ack { block: u16_be(rest[0], rest[1]) })
    }
}

/// What parsing an error notice's payload yields. A code that cannot be read
/// whole counts as the out-of-range sentinel 999, so a short buffer is
/// reported as an invalid code rather than as missing data.
pub open spec fn spec_parse_error(rest: Seq<u8>) -> Result<PacketV, Error> {
    let code = if rest.len() < 2 {
        999u16
    } else {
        u16_be(rest[0], rest[1])
    };
    match ErrorCode::spec_from(code) {
        None => Err(Error::InvalidErrorCode(code)),
        Some(c) => {
            let rest2 = rest.skip(2);
            if !has_null(rest2) {
                Err(Error::ReadError(reader::Error::StringNotTerminated))
            } else {
                Ok(
                    PacketV::Error {
                        code: c,
                        message: reader::text_of(rest2.take(first_null(rest2))),
                    },
                )
            }
        },
    }
}

/// What parsing a whole datagram yields: the packet its bytes spell, or the
/// error naming the first thing wrong with them. Trailing bytes after a
/// complete parse are ignored.
pub open spec fn spec_parse(bytes: Seq<u8>) -> Result<PacketV, Error> {
    if bytes.len() < 2 {
        Err(Error::ReadError(reader::Error::NotEnoughData))
    } else {
        let op = u16_be(bytes[0], bytes[1]);
        match Opcode::spec_from(op) {
            Some(Opcode::RRQ) => spec_parse_request(bytes.skip(2), true),
            Some(Opcode::WRQ) => spec_parse_request(bytes.skip(2), false),
            Some(Opcode::DATA) => spec_parse_data(bytes.skip(2)),
            Some(Opcode::ACK) => spec_parse_ack(bytes.skip(2)),
            Some(Opcode::ERROR) => spec_parse_error(bytes.skip(2)),
            None => Err(Error::InvalidOpCode(op)),
        }
    }
}

/// The outcome a null-terminated text field contributes to serialization:
/// its validation errors come before its space check.
pub open spec fn spec_write_text_result(s: Seq<char>, total: int, cap: int) -> Result<int, Error> {
    if !vstd::utf8::is_ascii_chars(s) {
        Err(Error::WriteError(writer::Error::StringNotASCII))
    } else if has_null(str_bytes(s)) {
        Err(Error::WriteError(writer::Error::StringContainsNull))
    } else if total > cap {
        Err(Error::WriteError(writer::Error::NotEnoughSpace))
    } else {
        Ok(total)
    }
}

/// The outcome of serializing `p` into a buffer of `cap` bytes: the total
/// bytes written, or what the first failing field operation reports.
pub open spec fn spec_write_result(p: PacketV, cap: int) -> Result<int, Error> {
    let total = packet_bytes(p).len() as int;
    if cap < 2 {
        Err(Error::WriteError(writer::Error::NotEnoughSpace))
    } else {
        match p {
            PacketV::Read { filename, .. } => spec_write_text_result(filename, total, cap),
            PacketV::Write { filename, .. } => spec_write_text_result(filename, total, cap),
            PacketV::Data { .. } => if total > cap {
                Err(Error::WriteError(writer::Error::NotEnoughSpace))
            } else {
                Ok(total)
            },
            PacketV::Ack { .. } => if total > cap {
                Err(Error::WriteError(writer::Error::NotEnoughSpace))
            } else {
                Ok(total)
            },
            PacketV::Error { message, .. } => if cap < 4 {
                Err(Error::WriteError(writer::Error::NotEnoughSpace))
            } else {
                spec_write_text_result(message, total, cap)
            },
        }
    }
}

/// How far a null-terminated text field advances the written prefix: not at
/// all when it fails, past its terminator when it succeeds.
pub open spec fn spec_written_text_len(s: Seq<char>, start: int, total: int, cap: int) -> int {
    if !vstd::utf8::is_ascii_chars(s) || has_null(str_bytes(s)) {
        start
    } else if start + str_bytes(s).len() + 1 > cap {
        start
    } else if total > cap {
        start + str_bytes(s).len() + 1
    } else {
        total
    }
}

/// How many bytes serializing `p` into a buffer of `cap` bytes actually
/// places there: every field written before the first failure stays.
pub open spec fn spec_written_len(p: PacketV, cap: int) -> int {
    let total = packet_bytes(p).len() as int;
    if cap < 2 {
        0
    } else {
        match p {
            PacketV::Read { filename, .. } => spec_written_text_len(filename, 2, total, cap),
            PacketV::Write { filename, .. } => spec_written_text_len(filename, 2, total, cap),
            PacketV::Data { .. } => if cap < 4 {
                2
            } else if total > cap {
                4
            } else {
                total
            },
            PacketV::Ack { .. } => if cap < 4 {
                2
            } else {
                4
            },
            PacketV::Error { message, .. } => if cap < 4 {
                2
            } else {
                spec_written_text_len(message, 4, total, cap)
            },
        }
    }
}

/// An ASCII text field's bytes are valid UTF-8 and decode back to exactly
/// its characters.
pub proof fn lemma_text_roundtrip(s: Seq<char>)
    requires
        vstd::utf8::is_ascii_chars(s),
    ensures
        vstd::utf8::encode_utf8(s) == str_bytes(s),
        vstd::utf8::valid_utf8(str_bytes(s)),
        reader::text_of(str_bytes(s)) == s,
{
    vstd::utf8::is_ascii_chars_encode_utf8(s);
    vstd::utf8::encode_utf8_valid_utf8(s);
    vstd::utf8::encode_utf8_decode_utf8(s);
    assert(vstd::utf8::encode_utf8(s) =~= str_bytes(s));
}

/// The wire text of the byte-oriented mode: five ASCII letters, none of them
/// null, naming the mode in any case.
pub proof fn lemma_octet_mode()
    ensures
        vstd::utf8::is_ascii_chars("octet"@),
        str_bytes("octet"@) == octet_bytes(),
        !has_null(octet_bytes()),
        mode_ok(octet_bytes()),
{
    reveal_strlit("octet");
    assert forall|i: int| 0 <= i < ("octet"@).len() implies '\0' <= #[trigger] ("octet"@)[i]
        <= '\u{7f}' by {
        if i == 0 {
        } else if i == 1 {
        } else if i == 2 {
        } else if i == 3 {
        } else {
            assert(i == 4);
        }
    }
    assert(vstd::utf8::is_ascii_chars("octet"@));
    assert(str_bytes("octet"@) =~= octet_bytes()) by {
        assert forall|i: int| 0 <= i < 5 implies str_bytes("octet"@)[i] == octet_bytes()[i] by {
            if i == 0 {
            } else if i == 1 {
            } else if i == 2 {
            } else if i == 3 {
            } else {
                assert(i == 4);
            }
        }
    }
    assert forall|i: int| 0 <= i < octet_bytes().len() implies octet_bytes()[i] != 0u8 by {
        if i == 0 {
        } else if i == 1 {
        } else if i == 2 {
        } else if i == 3 {
        } else {
            assert(i == 4);
        }
    }
    lemma_text_roundtrip("octet"@);
    assert forall|i: int| 0 <= i < 5 implies crate::wire::lower(octet_bytes()[i])
        == octet_bytes()[i] by {
        if i == 0 {
        } else if i == 1 {
        } else if i == 2 {
        } else if i == 3 {
        } else {
            assert(i == 4);
        }
    }
    assert(is_octet_bytes(vstd::utf8::encode_utf8(reader::text_of(octet_bytes()))));
}

impl Opcode {
    /// Reads the leading 16-bit field and maps it to an opcode.
    fn read(buffer: &mut reader::reader) -> (r: Result<Opcode, Error>)
        requires
            old(buffer).wf(),
        ensures
            final(buffer).wf(),
            final(buffer).bytes() == old(buffer).bytes(),
            ({
                let b = old(buffer).bytes();
                let p = old(buffer).position();
                if b.len() - p < 2 {
                    r == Err::<Opcode, Error>(Error::ReadError(reader::Error::NotEnoughData))
                        && final(buffer).position() == p
                } else {
                    final(buffer).position() == p + 2 && (match Opcode::spec_from(
                        u16_be(b[p], b[p + 1]),
                    ) {
                        Some(op) => r == Ok::<Opcode, Error>(op),
                        None => r == Err::<Opcode, Error>(
                            Error::InvalidOpCode(u16_be(b[p], b[p + 1])),
                        ),
                    })
                }
            }),
    {
        match buffer.take_u16() {
            Ok(code) => match Opcode::from(code) {
                Some(opcode) => Ok(opcode),
                None => Err(Error::InvalidOpCode(code)),
            },
            Err(e) => Err(Error::ReadError(e)),
        }
    }

    /// Writes this opcode's 16-bit wire value.
    pub fn write(self, w: &mut writer::writer) -> (r: Result<(), Error>)
        requires
            old(w).wf(),
        ensures
            final(w).wf(),
            final(w).buf@.len() == old(w).buf@.len(),
            ({
                let b = old(w).buf@;
                let p = old(w).pos as int;
                if p + 2 <= b.len() {
                    r == Ok::<(), Error>(()) && final(w).buf@ == b.take(p) + be_bytes(
                        self.spec_value(),
                    ) + b.skip(p + 2) && final(w).pos == p + 2
                } else {
                    r == Err::<(), Error>(Error::WriteError(writer::Error::NotEnoughSpace))
                        && final(w).buf@ == b && final(w).pos == old(w).pos
                }
            }),
    {
        let ghost b = w.buf@;
        let ghost p = w.pos as int;
        match w.put_u16(self.value()) {
            Ok(u) => {
                proof {
                    assert(w.buf@ =~= b.take(p) + be_bytes(self.spec_value()) + b.skip(p + 2));
                }
                Ok(u)
            },
            Err(e) => Err(Error::WriteError(e)),
        }
    }
}

impl Filename {
    /// Reads a null-terminated filename.
    fn read(buff: &mut reader::reader) -> (r: Result<Filename, Error>)
        requires
            old(buff).wf(),
        ensures
            final(buff).wf(),
            final(buff).bytes() == old(buff).bytes(),
            ({
                let rest = old(buff).bytes().skip(old(buff).position());
                if has_null(rest) {
                    (r matches Ok(f) && f.0@ == reader::text_of(rest.take(first_null(rest))))
                        && final(buff).position() == old(buff).position() + first_null(rest) + 1
                } else {
                    r == Err::<Filename, Error>(
                        Error::ReadError(reader::Error::StringNotTerminated),
                    ) && final(buff).position() == old(buff).position()
                }
            }),
    {
        match buff.take_string() {
            Ok(s) => Ok(Filename(s)),
            Err(e) => Err(Error::ReadError(e)),
        }
    }

    /// Writes the filename followed by its null terminator.
    fn write(self, w: &mut writer::writer) -> (r: Result<(), Error>)
        requires
            old(w).wf(),
        ensures
            final(w).wf(),
            final(w).buf@.len() == old(w).buf@.len(),
            text_field_write_ensures(self.0@, *old(w), *final(w), r),
    {
        match w.put_string(self.0.as_str()) {
            Ok(u) => Ok(u),
            Err(e) => Err(Error::WriteError(e)),
        }
    }
}

/// What writing a null-terminated text field does: validation errors, then
/// the space check, then the field's bytes and terminator in place.
pub open spec fn text_field_write_ensures(
    s: Seq<char>,
    pre: writer::writer,
    post: writer::writer,
    r: Result<(), Error>,
) -> bool {
    let b = pre.buf@;
    let p = pre.pos as int;
    let sb = str_bytes(s);
    let unchanged = post.buf@ == b && post.pos == pre.pos;
    if !vstd::utf8::is_ascii_chars(s) {
        r == Err::<(), Error>(Error::WriteError(writer::Error::StringNotASCII)) && unchanged
    } else if has_null(sb) {
        r == Err::<(), Error>(Error::WriteError(writer::Error::StringContainsNull)) && unchanged
    } else if p + sb.len() + 1 > b.len() {
        r == Err::<(), Error>(Error::WriteError(writer::Error::NotEnoughSpace)) && unchanged
    } else {
        r == Ok::<(), Error>(()) && post.buf@ == b.take(p) + sb + seq![0u8] + b.skip(
            p + sb.len() + 1,
        ) && post.pos == p + sb.len() + 1
    }
}

impl TransferMode {
    /// Reads a null-terminated mode text and maps it to a transfer mode; an
    /// unrecognized mode is a generic decode error.
    fn read(buff: &mut reader::reader) -> (r: Result<TransferMode, Error>)
        requires
            old(buff).wf(),
        ensures
            final(buff).wf(),
            final(buff).bytes() == old(buff).bytes(),
            ({
                let rest = old(buff).bytes().skip(old(buff).position());
                if has_null(rest) {
                    (if mode_ok(rest.take(first_null(rest))) {
                        r == Ok::<TransferMode, Error>(TransferMode::Octet)
                    } else {
                        r == Err::<TransferMode, Error>(Error::Unknown)
                    }) && final(buff).position() == old(buff).position() + first_null(rest) + 1
                } else {
                    r == Err::<TransferMode, Error>(
                        Error::ReadError(reader::Error::StringNotTerminated),
                    ) && final(buff).position() == old(buff).position()
                }
            }),
    {
        match buff.take_string() {
            Ok(mode) => match TransferMode::parse(mode.as_str().as_bytes()) {
                Some(txmode) => Ok(txmode),
                None => Err(Error::Unknown),
            },
            Err(e) => Err(Error::ReadError(e)),
        }
    }

    /// Writes this mode's wire text followed by its null terminator.
    fn write(self, w: &mut writer::writer) -> (r: Result<(), Error>)
        requires
            old(w).wf(),
        ensures
            final(w).wf(),
            final(w).buf@.len() == old(w).buf@.len(),
            ({
                let b = old(w).buf@;
                let p = old(w).pos as int;
                if p + 6 <= b.len() {
                    r == Ok::<(), Error>(()) && final(w).buf@ == b.take(p) + octet_bytes()
                        + seq![0u8] + b.skip(p + 6) && final(w).pos == p + 6
                } else {
                    r == Err::<(), Error>(Error::WriteError(writer::Error::NotEnoughSpace))
                        && final(w).buf@ == b && final(w).pos == old(w).pos
                }
            }),
    {
        let text = match self {
            TransferMode::Octet => "octet",
        };
        proof {
            lemma_octet_mode();
        }
        match w.put_string(text) {
            Ok(u) => Ok(u),
            Err(e) => Err(Error::WriteError(e)),
        }
    }
}

impl BlockNum {
    /// Reads a 16-bit block number.
    fn read(buff: &mut reader::reader) -> (r: Result<BlockNum, Error>)
        requires
            old(buff).wf(),
        ensures
            final(buff).wf(),
            final(buff).bytes() == old(buff).bytes(),
            ({
                let b = old(buff).bytes();
                let p = old(buff).position();
                if b.len() - p >= 2 {
                    (r matches Ok(bn) && bn.0 == u16_be(b[p], b[p + 1])) && final(buff).position()
                        == p + 2
                } else {
                    r == Err::<BlockNum, Error>(Error::ReadError(reader::Error::NotEnoughData))
                        && final(buff).position() == p
                }
            }),
    {
        match buff.take_u16() {
            Ok(v) => Ok(BlockNum(v)),
            Err(e) => Err(Error::ReadError(e)),
        }
    }

    /// Writes this block number's 16-bit wire value.
    fn write(self, w: &mut writer::writer) -> (r: Result<(), Error>)
        requires
            old(w).wf(),
        ensures
            final(w).wf(),
            final(w).buf@.len() == old(w).buf@.len(),
            ({
                let b = old(w).buf@;
                let p = old(w).pos as int;
                if p + 2 <= b.len() {
                    r == Ok::<(), Error>(()) && final(w).buf@ == b.take(p) + be_bytes(self.0)
                        + b.skip(p + 2) && final(w).pos == p + 2
                } else {
                    r == Err::<(), Error>(Error::WriteError(writer::Error::NotEnoughSpace))
                        && final(w).buf@ == b && final(w).pos == old(w).pos
                }
            }),
    {
        let ghost b = w.buf@;
        let ghost p = w.pos as int;
        match w.put_u16(self.0) {
            Ok(u) => {
                proof {
                    assert(w.buf@ =~= b.take(p) + be_bytes(self.0) + b.skip(p + 2));
                }
                Ok(u)
            },
            Err(e) => Err(Error::WriteError(e)),
        }
    }
}

impl<'a> Data<'a> {
    /// Takes the whole remainder of the datagram as this block's content.
    fn read(buff: &mut reader::reader<'a>) -> (r: Result<Data<'a>, Error>)
        requires
            old(buff).wf(),
        ensures
            final(buff).wf(),
            final(buff).bytes() == old(buff).bytes(),
            final(buff).position() == old(buff).bytes().len(),
            r matches Ok(d) && d.0@ == old(buff).bytes().skip(old(buff).position()),
    {
        match buff.take_all() {
            Ok(rem) => Ok(Data(rem)),
            Err(e) => {
                proof {
                    assert(false);
                }
                Err(Error::ReadError(e))
            },
        }
    }

    /// Writes the content bytes as they are.
    fn write(self, w: &mut writer::writer) -> (r: Result<(), Error>)
        requires
            old(w).wf(),
        ensures
            final(w).wf(),
            final(w).buf@.len() == old(w).buf@.len(),
            ({
                let b = old(w).buf@;
                let p = old(w).pos as int;
                if p + self.0@.len() <= b.len() {
                    r == Ok::<(), Error>(()) && final(w).buf@ == b.take(p) + self.0@ + b.skip(
                        p + self.0@.len(),
                    ) && final(w).pos == p + self.0@.len()
                } else {
                    r == Err::<(), Error>(Error::WriteError(writer::Error::NotEnoughSpace))
                        && final(w).buf@ == b && final(w).pos == old(w).pos
                }
            }),
    {
        match w.put_bytes(self.0) {
            Ok(u) => Ok(u),
            Err(e) => Err(Error::WriteError(e)),
        }
    }
}

impl ErrorCode {
    /// Reads a 16-bit error code and maps it; a code that cannot be read
    /// whole counts as the out-of-range sentinel 999, so it is reported as
    /// invalid rather than as missing data.
    fn read(buffer: &mut reader::reader) -> (r: Result<ErrorCode, Error>)
        requires
            old(buffer).wf(),
        ensures
            final(buffer).wf(),
            final(buffer).bytes() == old(buffer).bytes(),
            ({
                let b = old(buffer).bytes();
                let p = old(buffer).position();
                let code = if b.len() - p < 2 {
                    999u16
                } else {
                    u16_be(b[p], b[p + 1])
                };
                (final(buffer).position() == if b.len() - p < 2 {
                    p
                } else {
                    p + 2
                }) && (match ErrorCode::spec_from(code) {
                    Some(c) => r == Ok::<ErrorCode, Error>(c),
                    None => r == Err::<ErrorCode, Error>(Error::InvalidErrorCode(code)),
                })
            }),
    {
        let code = match buffer.take_u16() {
            Ok(value) => value,
            Err(_) => 999,
        };
        match ErrorCode::from(code) {
            Some(errorcode) => Ok(errorcode),
            None => Err(Error::InvalidErrorCode(code)),
        }
    }

    /// Writes this error code's 16-bit wire value.
    pub fn write(self, w: &mut writer::writer) -> (r: Result<(), Error>)
        requires
            old(w).wf(),
        ensures
            final(w).wf(),
            final(w).buf@.len() == old(w).buf@.len(),
            ({
                let b = old(w).buf@;
                let p = old(w).pos as int;
                if p + 2 <= b.len() {
                    r == Ok::<(), Error>(()) && final(w).buf@ == b.take(p) + be_bytes(
                        self.spec_value(),
                    ) + b.skip(p + 2) && final(w).pos == p + 2
                } else {
                    r == Err::<(), Error>(Error::WriteError(writer::Error::NotEnoughSpace))
                        && final(w).buf@ == b && final(w).pos == old(w).pos
                }
            }),
    {
        let ghost b = w.buf@;
        let ghost p = w.pos as int;
        match w.put_u16(self.value()) {
            Ok(u) => {
                proof {
                    assert(w.buf@ =~= b.take(p) + be_bytes(self.spec_value()) + b.skip(p + 2));
                }
                Ok(u)
            },
            Err(e) => Err(Error::WriteError(e)),
        }
    }
}

impl ErrorMessage {
    /// Reads a null-terminated error message.
    fn read(buffer: &mut reader::reader) -> (r: Result<ErrorMessage, Error>)
        requires
            old(buffer).wf(),
        ensures
            final(buffer).wf(),
            final(buffer).bytes() == old(buffer).bytes(),
            ({
                let rest = old(buffer).bytes().skip(old(buffer).position());
                if has_null(rest) {
                    (r matches Ok(m) && m.0@ == reader::text_of(rest.take(first_null(rest))))
                        && final(buffer).position() == old(buffer).position() + first_null(rest)
                        + 1
                } else {
                    r == Err::<ErrorMessage, Error>(
                        Error::ReadError(reader::Error::StringNotTerminated),
                    ) && final(buffer).position() == old(buffer).position()
                }
            }),
    {
        match buffer.take_string() {
            Ok(s) => Ok(ErrorMessage(s)),
            Err(e) => Err(Error::ReadError(e)),
        }
    }

    /// Writes the message followed by its null terminator.
    pub fn write(self, w: &mut writer::writer) -> (r: Result<(), Error>)
        requires
            old(w).wf(),
        ensures
            final(w).wf(),
            final(w).buf@.len() == old(w).buf@.len(),
            text_field_write_ensures(self.0@, *old(w), *final(w), r),
    {
        match w.put_string(self.0.as_str()) {
            Ok(u) => Ok(u),
            Err(e) => Err(Error::WriteError(e)),
        }
    }
}

impl<'a> Packet<'a> {
    /// Parses one datagram: reads the opcode, then the fields the matching
    /// variant declares. Trailing bytes after a complete parse are ignored.
    pub fn parse(buf: &'a [u8]) -> (r: Result<Packet<'a>, Error>)
        ensures
            ({
                let sp = spec_parse(buf@);
                match r {
                    Ok(p) => sp == Ok::<PacketV, Error>(p@),
                    Err(e) => sp == Err::<PacketV, Error>(e),
                }
            }),
    {
        let mut buffer = reader::reader::new(buf);
        let opcode = match Opcode::read(&mut buffer) {
            Ok(op) => op,
            Err(e) => return Err(e),
        };
        let ghost rest = buf@.skip(2);
        match opcode {
            Opcode::RRQ => {
                let filename = match Filename::read(&mut buffer) {
                    Ok(f) => f,
                    Err(e) => return Err(e),
                };
                proof {
                    crate::wire::lemma_first_null(rest);
                    assert(rest.skip(first_null(rest) + 1) =~= buf@.skip(
                        2 + first_null(rest) + 1,
                    ));
                }
                let mode = match TransferMode::read(&mut buffer) {
                    Ok(m) => m,
                    Err(e) => return Err(e),
                };
                Ok(Packet::Read(filename, mode))
            },
            Opcode::WRQ => {
                let filename = match Filename::read(&mut buffer) {
                    Ok(f) => f,
                    Err(e) => return Err(e),
                };
                proof {
                    crate::wire::lemma_first_null(rest);
                    assert(rest.skip(first_null(rest) + 1) =~= buf@.skip(
                        2 + first_null(rest) + 1,
                    ));
                }
                let mode = match TransferMode::read(&mut buffer) {
                    Ok(m) => m,
                    Err(e) => return Err(e),
                };
                Ok(Packet::Write(filename, mode))
            },
            Opcode::DATA => {
                let block = match BlockNum::read(&mut buffer) {
                    Ok(b) => b,
                    Err(e) => return Err(e),
                };
                proof {
                    assert(rest.skip(2) =~= buf@.skip(4));
                }
                let data = match Data::read(&mut buffer) {
                    Ok(d) => d,
                    Err(e) => return Err(e),
                };
                Ok(Packet::Data(block, data))
            },
            Opcode::ACK => {
                let block = match BlockNum::read(&mut buffer) {
                    Ok(b) => b,
                    Err(e) => return Err(e),
                };
                Ok(Packet::Ack(block))
            },
            Opcode::ERROR => {
                let code = match ErrorCode::read(&mut buffer) {
                    Ok(c) => c,
                    Err(e) => return Err(e),
                };
                proof {
                    assert(rest.skip(2) =~= buf@.skip(4));
                }
                let message = match ErrorMessage::read(&mut buffer) {
                    Ok(m) => m,
                    Err(e) => return Err(e),
                };
                Ok(Packet::Error(code, message))
            },
        }
    }

    /// The opcode that tags this packet's variant.
    pub fn opcode(&self) -> (op: Opcode)
        ensures
            op == packet_opcode(self@),
    {
        match self {
            Packet::Read(..) => Opcode::RRQ,
            Packet::Write(..) => Opcode::WRQ,
            Packet::Data(..) => Opcode::DATA,
            Packet::Ack(..) => Opcode::ACK,
            Packet::Error(..) => Opcode::ERROR,
        }
    }

    /// Serializes this packet's fields, opcode first, into a writer opened
    /// at the start of its buffer.
    fn write_fields(self, w: &mut writer::writer) -> (r: Result<usize, Error>)
        requires
            old(w).wf(),
            old(w).pos == 0,
        ensures
            final(w).wf(),
            final(w).buf@.len() == old(w).buf@.len(),
            ({
                let cap = old(w).buf@.len() as int;
                let k = spec_written_len(self@, cap);
                final(w).buf@ == packet_bytes(self@).take(k) + old(w).buf@.skip(k)
                    && final(w).pos == k && (match r {
                    Ok(n) => spec_write_result(self@, cap) == Ok::<int, Error>(n as int),
                    Err(e) => spec_write_result(self@, cap) == Err::<int, Error>(e),
                })
            }),
    {
        let ghost pv = self@;
        let ghost full = packet_bytes(pv);
        let ghost b0 = w.buf@;
        let ghost cap = b0.len() as int;
        let op = self.opcode();
        match op.write(w) {
            Ok(()) => {},
            Err(e) => {
                proof {
                    assert(w.buf@ =~= full.take(0) + b0.skip(0));
                }
                return Err(e);
            },
        }
        proof {
            assert(full.take(2) =~= be_bytes(op.spec_value()));
            assert(w.buf@ =~= full.take(2) + b0.skip(2));
        }
        match self {
            Packet::Read(filename, mode) => {
                let ghost sb = str_bytes(filename.0@);
                proof {
                    assert(full.len() == 2 + sb.len() + 1 + 6);
                }
                match filename.write(w) {
                    Ok(()) => {},
                    Err(e) => {
                        return Err(e);
                    },
                }
                proof {
                    assert(w.buf@ =~= full.take(2 + sb.len() as int + 1) + b0.skip(2 + sb.len() as int + 1));
                }
                match mode.write(w) {
                    Ok(()) => {},
                    Err(e) => {
                        return Err(e);
                    },
                }
                proof {
                    assert(w.buf@ =~= full.take(full.len() as int) + b0.skip(
                        full.len() as int,
                    ));
                }
                Ok(w.pos)
            },
            Packet::Write(filename, mode) => {
                let ghost sb = str_bytes(filename.0@);
                proof {
                    assert(full.len() == 2 + sb.len() + 1 + 6);
                }
                match filename.write(w) {
                    Ok(()) => {},
                    Err(e) => {
                        return Err(e);
                    },
                }
                proof {
                    assert(w.buf@ =~= full.take(2 + sb.len() as int + 1) + b0.skip(2 + sb.len() as int + 1));
                }
                match mode.write(w) {
                    Ok(()) => {},
                    Err(e) => {
                        return Err(e);
                    },
                }
                proof {
                    assert(w.buf@ =~= full.take(full.len() as int) + b0.skip(
                        full.len() as int,
                    ));
                }
                Ok(w.pos)
            },
            Packet::Data(block, data) => {
                let ghost payload = data.0@;
                proof {
                    assert(full.len() == 4 + payload.len());
                }
                match block.write(w) {
                    Ok(()) => {},
                    Err(e) => {
                        return Err(e);
                    },
                }
                proof {
                    assert(w.buf@ =~= full.take(4) + b0.skip(4));
                }
                match data.write(w) {
                    Ok(()) => {},
                    Err(e) => {
                        return Err(e);
                    },
                }
                proof {
                    assert(w.buf@ =~= full.take(full.len() as int) + b0.skip(
                        full.len() as int,
                    ));
                }
                Ok(w.pos)
            },
            Packet::Ack(block) => {
                proof {
                    assert(full.len() == 4);
                }
                match block.write(w) {
                    Ok(()) => {},
                    Err(e) => {
                        return Err(e);
                    },
                }
                proof {
                    assert(w.buf@ =~= full.take(4) + b0.skip(4));
                    assert(full.take(4) =~= full);
                }
                Ok(w.pos)
            },
            Packet::Error(code, message) => {
                let ghost sb = str_bytes(message.0@);
                proof {
                    assert(full.len() == 4 + sb.len() + 1);
                }
                match code.write(w) {
                    Ok(()) => {},
                    Err(e) => {
                        return Err(e);
                    },
                }
                proof {
                    assert(w.buf@ =~= full.take(4) + b0.skip(4));
                }
                match message.write(w) {
                    Ok(()) => {},
                    Err(e) => {
                        return Err(e);
                    },
                }
                proof {
                    assert(w.buf@ =~= full.take(full.len() as int) + b0.skip(
                        full.len() as int,
                    ));
                }
                Ok(w.pos)
            },
        }
    }

    /// Serializes this packet into the caller's buffer: its opcode, then its
    /// fields in layout order. Returns the total bytes written; a failing
    /// field operation reports its error, and everything written before it
    /// stays in place.
    pub fn write(self, buf: &mut Vec<u8>) -> (r: Result<usize, Error>)
        ensures
            final(buf)@.len() == old(buf)@.len(),
            ({
                let cap = old(buf)@.len() as int;
                let k = spec_written_len(self@, cap);
                final(buf)@ == packet_bytes(self@).take(k) + old(buf)@.skip(k) && (match r {
                    Ok(n) => spec_write_result(self@, cap) == Ok::<int, Error>(n as int),
                    Err(e) => spec_write_result(self@, cap) == Err::<int, Error>(e),
                })
            }),
    {
        let mut tmp: Vec<u8> = Vec::new();
        core::mem::swap(buf, &mut tmp);
        let mut buffer = writer::writer::new(tmp);
        let result = self.write_fields(&mut buffer);
        *buf = buffer.buf;
        result
    }
}

/// Request payloads made of a writable filename, a terminator, the mode
/// text, and its terminator parse back to the request they serialize,
/// whatever bytes follow.
proof fn lemma_request_fields(filename: Seq<char>, tail: Seq<u8>)
    requires
        text_writable(filename),
    ensures
        ({
            let rest = str_bytes(filename) + seq![0u8] + octet_bytes() + seq![0u8] + tail;
            spec_parse_request(rest, true) == Ok::<PacketV, Error>(
                PacketV::Read { filename: filename, mode: TransferMode::Octet },
            ) && spec_parse_request(rest, false) == Ok::<PacketV, Error>(
                PacketV::Write { filename: filename, mode: TransferMode::Octet },
            )
        }),
{
    let sb = str_bytes(filename);
    let tail2 = octet_bytes() + seq![0u8] + tail;
    let rest = sb + seq![0u8] + octet_bytes() + seq![0u8] + tail;
    lemma_octet_mode();
    crate::wire::lemma_first_null_of_terminated(sb, tail2);
    assert(rest =~= sb + seq![0u8] + tail2);
    assert(has_null(rest) && first_null(rest) == sb.len());
    assert(rest.take(sb.len() as int) =~= sb);
    lemma_text_roundtrip(filename);
    let rest2 = rest.skip(sb.len() as int + 1);
    assert(rest2 =~= octet_bytes() + seq![0u8] + tail);
    crate::wire::lemma_first_null_of_terminated(octet_bytes(), tail);
    assert(octet_bytes() + seq![0u8] + tail =~= rest2);
    assert(has_null(rest2) && first_null(rest2) == octet_bytes().len());
    assert(rest2.take(first_null(rest2)) =~= octet_bytes());
}

/// Error-notice payloads made of a code and a writable message parse back to
/// the notice they serialize, whatever bytes follow.
proof fn lemma_error_fields(code: ErrorCode, message: Seq<char>, tail: Seq<u8>)
    requires
        text_writable(message),
    ensures
        spec_parse_error(be_bytes(code.spec_value()) + str_bytes(message) + seq![0u8] + tail)
            == Ok::<PacketV, Error>(PacketV::Error { code: code, message: message }),
{
    let sb = str_bytes(message);
    let rest = be_bytes(code.spec_value()) + sb + seq![0u8] + tail;
    assert(rest[0] == crate::wire::be_hi(code.spec_value()) && rest[1] == crate::wire::be_lo(
        code.spec_value(),
    ));
    crate::wire::lemma_be_bytes_roundtrip(code.spec_value());
    assert(ErrorCode::spec_from(code.spec_value()) == Some(code));
    let rest2 = rest.skip(2);
    assert(rest2 =~= sb + seq![0u8] + tail);
    crate::wire::lemma_first_null_of_terminated(sb, tail);
    assert(sb + seq![0u8] + tail =~= rest2);
    assert(has_null(rest2) && first_null(rest2) == sb.len());
    assert(rest2.take(first_null(rest2)) =~= sb);
    lemma_text_roundtrip(message);
}

/// Serialization succeeds exactly when every text field can be put on the
/// wire and the packet's wire form fits the buffer, and it then reports the
/// wire length.
pub proof fn lemma_write_success(p: PacketV, cap: int)
    ensures
        spec_write_result(p, cap) == Ok::<int, Error>(packet_bytes(p).len() as int) <==> (
        packet_writable(p) && packet_bytes(p).len() <= cap),
{
    match p {
        PacketV::Read { filename, mode } => {
            assert(packet_bytes(p).len() >= 2);
        },
        PacketV::Write { filename, mode } => {
            assert(packet_bytes(p).len() >= 2);
        },
        PacketV::Data { block, payload } => {
            assert(packet_bytes(p).len() >= 4);
        },
        PacketV::Ack { block } => {
            assert(packet_bytes(p).len() == 4);
        },
        PacketV::Error { code, message } => {
            assert(packet_bytes(p).len() >= 5);
        },
    }
}

/// Round trip: a packet whose text fields can be put on the wire parses back
/// from exactly the bytes it serializes to.
pub proof fn lemma_round_trip(p: PacketV)
    requires
        packet_writable(p),
    ensures
        spec_parse(packet_bytes(p)) == Ok::<PacketV, Error>(p),
{
    let full = packet_bytes(p);
    let opv = packet_opcode(p).spec_value();
    assert(full[0] == crate::wire::be_hi(opv) && full[1] == crate::wire::be_lo(opv));
    crate::wire::lemma_be_bytes_roundtrip(opv);
    let rest = full.skip(2);
    match p {
        PacketV::Read { filename, mode } => {
            lemma_request_fields(filename, Seq::<u8>::empty());
            assert(rest =~= str_bytes(filename) + seq![0u8] + octet_bytes() + seq![0u8]
                + Seq::<u8>::empty());
        },
        PacketV::Write { filename, mode } => {
            lemma_request_fields(filename, Seq::<u8>::empty());
            assert(rest =~= str_bytes(filename) + seq![0u8] + octet_bytes() + seq![0u8]
                + Seq::<u8>::empty());
        },
        PacketV::Data { block, payload } => {
            assert(rest =~= be_bytes(block) + payload);
            assert(rest[0] == crate::wire::be_hi(block) && rest[1] == crate::wire::be_lo(block));
            crate::wire::lemma_be_bytes_roundtrip(block);
            assert(rest.skip(2) =~= payload);
        },
        PacketV::Ack { block } => {
            assert(rest =~= be_bytes(block));
            assert(rest[0] == crate::wire::be_hi(block) && rest[1] == crate::wire::be_lo(block));
            crate::wire::lemma_be_bytes_roundtrip(block);
        },
        PacketV::Error { code, message } => {
            lemma_error_fields(code, message, Seq::<u8>::empty());
            assert(rest =~= be_bytes(code.spec_value()) + str_bytes(message) + seq![0u8]
                + Seq::<u8>::empty());
        },
    }
}

/// Trailing bytes after a complete parse are ignored: every packet but a
/// data block parses back from its wire bytes whatever bytes follow them. A
/// data block's content is the whole remainder of the datagram, so bytes
/// that follow it become part of the content instead.
pub proof fn lemma_parse_ignores_trailing(p: PacketV, tail: Seq<u8>)
    requires
        packet_writable(p),
        !(p is Data),
    ensures
        spec_parse(packet_bytes(p) + tail) == Ok::<PacketV, Error>(p),
{
    let full = packet_bytes(p) + tail;
    let opv = packet_opcode(p).spec_value();
    assert(full[0] == crate::wire::be_hi(opv) && full[1] == crate::wire::be_lo(opv));
    crate::wire::lemma_be_bytes_roundtrip(opv);
    let rest = full.skip(2);
    match p {
        PacketV::Read { filename, mode } => {
            lemma_request_fields(filename, tail);
            assert(rest =~= str_bytes(filename) + seq![0u8] + octet_bytes() + seq![0u8] + tail);
        },
        PacketV::Write { filename, mode } => {
            lemma_request_fields(filename, tail);
            assert(rest =~= str_bytes(filename) + seq![0u8] + octet_bytes() + seq![0u8] + tail);
        },
        PacketV::Data { block, payload } => {
            assert(false);
        },
        PacketV::Ack { block } => {
            assert(rest =~= be_bytes(block) + tail);
            assert(rest[0] == crate::wire::be_hi(block) && rest[1] == crate::wire::be_lo(block));
            crate::wire::lemma_be_bytes_roundtrip(block);
        },
        PacketV::Error { code, message } => {
            lemma_error_fields(code, message, tail);
            assert(rest =~= be_bytes(code.spec_value()) + str_bytes(message) + seq![0u8] + tail);
        },
    }
}

} // verus!
