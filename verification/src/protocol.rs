//! The message protocol: the closed set of values that travel between two
//! connected peers, and their byte encoding.  A message is either user
//! traffic (chat text, a file announcement) or internal control traffic for
//! the file-transfer subsystem.  Encoding is a tag byte followed by the
//! fields; strings travel as length-prefixed UTF-8, byte blocks as
//! length-prefixed raw bytes, integers in big-endian order.

use vstd::prelude::*;

use crate::bytes::{
    push_u64_be, read_u64_be, spec_u64_from_be_bytes, spec_u64_to_be_bytes,
};
use crate::framing::{
    frame_payload, lemma_frame_round_trip, lemma_parse_bytes_exact, read_frame, spec_frame,
    spec_parse_bytes, spec_read_frame,
};
use vstd::slice::{slice_subrange, slice_to_vec};
use vstd::string::StrSliceExecFns;
use vstd::string::StringExecFns;
use vstd::utf8::{decode_utf8, encode_utf8, valid_utf8};

verus! {

broadcast use vstd::utf8::encode_utf8_valid_utf8, vstd::utf8::encode_utf8_decode_utf8;

/// Tag byte for a chat text message.
pub const TAG_TEXT: u8 = 1;

/// Tag byte for a file announcement (name, size, file id).
pub const TAG_FILE_HEADER: u8 = 2;

/// Tag byte for a request to send the file with a given id.
pub const TAG_FILE_REQUEST: u8 = 3;

/// Tag byte for one chunk of file content (id, offset, bytes).
pub const TAG_FILE_CONTENT: u8 = 4;

/// Tag byte for an upload-side failure report (id, reason).
pub const TAG_FILE_CONTENT_ERROR: u8 = 5;

/// Content of a user-visible message.
#[derive(Debug, Clone, PartialEq, Eq)]
pub enum UserMessage {
    Text(String),
    /// File name, file size in bytes, file id.
    FileHeader(String, u64, u64),
}

/// Content of an internal file-transfer control message.
#[derive(Debug, Clone, PartialEq, Eq)]
pub enum InternalMessage {
    /// File id the peer is asked to start sending.
    FileRequest(u64),
    /// File id, index of the first byte, the chunk's bytes.
    FileContent(u64, u64, Vec<u8>),
    /// File id and the reason the upload side stopped.
    FileContentError(u64, String),
}

/// Main message structure: everything that crosses an established session.
#[derive(Debug, Clone, PartialEq, Eq)]
pub enum Message {
    User(UserMessage),
    Internal(InternalMessage),
}

/// Identity value exchanged once at the beginning of a connection.
#[derive(Debug, Clone, PartialEq, Eq)]
pub struct ConnectionInfo {
    pub user_name: String,
}

/// Why serializing to or reading from a stream failed.
#[derive(Debug, Clone, PartialEq, Eq)]
pub enum StreamSerializerError {
    /// The underlying transport failed; holds its description.
    Io(String),
    /// The bytes do not form a valid encoding.
    Decode(String),
    /// Any other failure, described in words.
    StrError(String),
}

/// Mathematical value of a `UserMessage`.
pub enum UserMessageView {
    Text(Seq<char>),
    FileHeader(Seq<char>, u64, u64),
}

/// Mathematical value of an `InternalMessage`.
pub enum InternalMessageView {
    FileRequest(u64),
    FileContent(u64, u64, Seq<u8>),
    FileContentError(u64, Seq<char>),
}

/// Mathematical value of a `Message`.
pub enum MessageView {
    User(UserMessageView),
    Internal(InternalMessageView),
}

impl View for UserMessage {
    type V = UserMessageView;

    open spec fn view(&self) -> UserMessageView {
        match self {
            UserMessage::Text(s) => UserMessageView::Text(s@),
            UserMessage::FileHeader(name, size, id) => UserMessageView::FileHeader(
                name@,
                *size,
                *id,
            ),
        }
    }
}

impl View for InternalMessage {
    type V = InternalMessageView;

    open spec fn view(&self) -> InternalMessageView {
        match self {
            InternalMessage::FileRequest(id) => InternalMessageView::FileRequest(*id),
            InternalMessage::FileContent(id, off, data) => InternalMessageView::FileContent(
                *id,
                *off,
                data@,
            ),
            InternalMessage::FileContentError(id, reason) => InternalMessageView::FileContentError(
                *id,
                reason@,
            ),
        }
    }
}

impl View for Message {
    type V = MessageView;

    open spec fn view(&self) -> MessageView {
        match self {
            Message::User(u) => MessageView::User(u@),
            Message::Internal(i) => MessageView::Internal(i@),
        }
    }
}

impl View for ConnectionInfo {
    type V = Seq<char>;

    open spec fn view(&self) -> Seq<char> {
        self.user_name@
    }
}


/// The byte encoding of a user message.
pub open spec fn spec_encode_user_message(m: UserMessageView) -> Seq<u8> {
    match m {
        UserMessageView::Text(s) => {
            let body = encode_utf8(s);
            seq![TAG_TEXT] + spec_u64_to_be_bytes(body.len() as u64) + body
        },
        UserMessageView::FileHeader(name, size, id) => {
            let nb = encode_utf8(name);
            seq![TAG_FILE_HEADER] + spec_u64_to_be_bytes(nb.len() as u64) + nb
                + spec_u64_to_be_bytes(size) + spec_u64_to_be_bytes(id)
        },
    }
}

/// The byte encoding of an internal message.
pub open spec fn spec_encode_internal_message(m: InternalMessageView) -> Seq<u8> {
    match m {
        InternalMessageView::FileRequest(id) => seq![TAG_FILE_REQUEST] + spec_u64_to_be_bytes(id),
        InternalMessageView::FileContent(id, off, data) => seq![TAG_FILE_CONTENT]
            + spec_u64_to_be_bytes(id) + spec_u64_to_be_bytes(off) + spec_u64_to_be_bytes(
            data.len() as u64,
        ) + data,
        InternalMessageView::FileContentError(id, reason) => {
            let rb = encode_utf8(reason);
            seq![TAG_FILE_CONTENT_ERROR] + spec_u64_to_be_bytes(id) + spec_u64_to_be_bytes(
                rb.len() as u64,
            ) + rb
        },
    }
}

/// The byte encoding of a message.
pub open spec fn spec_encode_message(m: MessageView) -> Seq<u8> {
    match m {
        MessageView::User(u) => spec_encode_user_message(u),
        MessageView::Internal(i) => spec_encode_internal_message(i),
    }
}

/// A message small enough for the wire: its whole encoding, fields and
/// length prefixes included, fits behind a `u64`.  Every message built
/// from executable values satisfies this.
pub open spec fn message_wf(m: MessageView) -> bool {
    spec_encode_message(m).len() <= u64::MAX
}

/// The message encoded in `b`, if `b` is exactly one valid encoding.
pub open spec fn spec_decode_message(b: Seq<u8>) -> Option<MessageView> {
    if b.len() == 0 {
        Option::None
    } else {
        let tag = b[0];
        let rest = b.subrange(1, b.len() as int);
        if tag == TAG_TEXT {
            match spec_parse_bytes(rest) {
                Option::Some((body, tail)) => {
                    if tail.len() == 0 && valid_utf8(body) {
                        Option::Some(MessageView::User(UserMessageView::Text(decode_utf8(body))))
                    } else {
                        Option::None
                    }
                },
                Option::None => Option::None,
            }
        } else if tag == TAG_FILE_HEADER {
            match spec_parse_bytes(rest) {
                Option::Some((nb, tail)) => {
                    if tail.len() == 16 && valid_utf8(nb) {
                        Option::Some(
                            MessageView::User(
                                UserMessageView::FileHeader(
                                    decode_utf8(nb),
                                    spec_u64_from_be_bytes(tail.subrange(0, 8)),
                                    spec_u64_from_be_bytes(tail.subrange(8, 16)),
                                ),
                            ),
                        )
                    } else {
                        Option::None
                    }
                },
                Option::None => Option::None,
            }
        } else if tag == TAG_FILE_REQUEST {
            if rest.len() == 8 {
                Option::Some(
                    MessageView::Internal(
                        InternalMessageView::FileRequest(spec_u64_from_be_bytes(rest)),
                    ),
                )
            } else {
                Option::None
            }
        } else if tag == TAG_FILE_CONTENT {
            if rest.len() < 16 {
                Option::None
            } else {
                let id = spec_u64_from_be_bytes(rest.subrange(0, 8));
                let off = spec_u64_from_be_bytes(rest.subrange(8, 16));
                match spec_parse_bytes(rest.subrange(16, rest.len() as int)) {
                    Option::Some((data, tail)) => {
                        if tail.len() == 0 {
                            Option::Some(
                                MessageView::Internal(
                                    InternalMessageView::FileContent(id, off, data),
                                ),
                            )
                        } else {
                            Option::None
                        }
                    },
                    Option::None => Option::None,
                }
            }
        } else if tag == TAG_FILE_CONTENT_ERROR {
            if rest.len() < 8 {
                Option::None
            } else {
                let id = spec_u64_from_be_bytes(rest.subrange(0, 8));
                match spec_parse_bytes(rest.subrange(8, rest.len() as int)) {
                    Option::Some((rb, tail)) => {
                        if tail.len() == 0 && valid_utf8(rb) {
                            Option::Some(
                                MessageView::Internal(
                                    InternalMessageView::FileContentError(id, decode_utf8(rb)),
                                ),
                            )
                        } else {
                            Option::None
                        }
                    },
                    Option::None => Option::None,
                }
            }
        } else {
            Option::None
        }
    }
}

proof fn lemma_round_trip_text(s: Seq<char>)
    requires
        encode_utf8(s).len() <= u64::MAX,
    ensures
        spec_decode_message(spec_encode_message(MessageView::User(UserMessageView::Text(s))))
            == Option::Some(MessageView::User(UserMessageView::Text(s))),
{
    let b = spec_encode_message(MessageView::User(UserMessageView::Text(s)));
    let body = encode_utf8(s);
    let rest = b.subrange(1, b.len() as int);
    assert(b[0] == TAG_TEXT);
    assert(rest =~= spec_u64_to_be_bytes(body.len() as u64) + body + Seq::<u8>::empty());
    lemma_parse_bytes_exact(body, Seq::<u8>::empty());
    assert(decode_utf8(body) == s);
}

proof fn lemma_round_trip_file_header(name: Seq<char>, size: u64, id: u64)
    requires
        encode_utf8(name).len() <= u64::MAX,
    ensures
        spec_decode_message(
            spec_encode_message(MessageView::User(UserMessageView::FileHeader(name, size, id))),
        ) == Option::Some(MessageView::User(UserMessageView::FileHeader(name, size, id))),
{
    let b = spec_encode_message(MessageView::User(UserMessageView::FileHeader(name, size, id)));
    let nb = encode_utf8(name);
    let tail = spec_u64_to_be_bytes(size) + spec_u64_to_be_bytes(id);
    let rest = b.subrange(1, b.len() as int);
    assert(b[0] == TAG_FILE_HEADER);
    assert(rest =~= spec_u64_to_be_bytes(nb.len() as u64) + nb + tail);
    lemma_parse_bytes_exact(nb, tail);
    assert(tail.subrange(0, 8) =~= spec_u64_to_be_bytes(size));
    assert(tail.subrange(8, 16) =~= spec_u64_to_be_bytes(id));
    crate::bytes::lemma_u64_be_round_trip(size);
    crate::bytes::lemma_u64_be_round_trip(id);
    assert(decode_utf8(nb) == name);
}

proof fn lemma_round_trip_file_request(id: u64)
    ensures
        spec_decode_message(
            spec_encode_message(MessageView::Internal(InternalMessageView::FileRequest(id))),
        ) == Option::Some(MessageView::Internal(InternalMessageView::FileRequest(id))),
{
    let b = spec_encode_message(MessageView::Internal(InternalMessageView::FileRequest(id)));
    let rest = b.subrange(1, b.len() as int);
    assert(b[0] == TAG_FILE_REQUEST);
    assert(rest =~= spec_u64_to_be_bytes(id));
    crate::bytes::lemma_u64_be_round_trip(id);
}

proof fn lemma_round_trip_file_content(id: u64, off: u64, data: Seq<u8>)
    requires
        data.len() <= u64::MAX,
    ensures
        spec_decode_message(
            spec_encode_message(
                MessageView::Internal(InternalMessageView::FileContent(id, off, data)),
            ),
        ) == Option::Some(MessageView::Internal(InternalMessageView::FileContent(id, off, data))),
{
    let b = spec_encode_message(
        MessageView::Internal(InternalMessageView::FileContent(id, off, data)),
    );
    let rest = b.subrange(1, b.len() as int);
    assert(b[0] == TAG_FILE_CONTENT);
    assert(rest =~= spec_u64_to_be_bytes(id) + spec_u64_to_be_bytes(off) + spec_u64_to_be_bytes(
        data.len() as u64,
    ) + data);
    assert(rest.subrange(0, 8) =~= spec_u64_to_be_bytes(id));
    assert(rest.subrange(8, 16) =~= spec_u64_to_be_bytes(off));
    crate::bytes::lemma_u64_be_round_trip(id);
    crate::bytes::lemma_u64_be_round_trip(off);
    assert(rest.subrange(16, rest.len() as int) =~= spec_u64_to_be_bytes(data.len() as u64) + data
        + Seq::<u8>::empty());
    lemma_parse_bytes_exact(data, Seq::<u8>::empty());
}

proof fn lemma_round_trip_file_content_error(id: u64, reason: Seq<char>)
    requires
        encode_utf8(reason).len() <= u64::MAX,
    ensures
        spec_decode_message(
            spec_encode_message(
                MessageView::Internal(InternalMessageView::FileContentError(id, reason)),
            ),
        ) == Option::Some(
            MessageView::Internal(InternalMessageView::FileContentError(id, reason)),
        ),
{
    let b = spec_encode_message(
        MessageView::Internal(InternalMessageView::FileContentError(id, reason)),
    );
    let rb = encode_utf8(reason);
    let rest = b.subrange(1, b.len() as int);
    assert(b[0] == TAG_FILE_CONTENT_ERROR);
    assert(rest =~= spec_u64_to_be_bytes(id) + spec_u64_to_be_bytes(rb.len() as u64) + rb);
    assert(rest.subrange(0, 8) =~= spec_u64_to_be_bytes(id));
    crate::bytes::lemma_u64_be_round_trip(id);
    assert(rest.subrange(8, rest.len() as int) =~= spec_u64_to_be_bytes(rb.len() as u64) + rb
        + Seq::<u8>::empty());
    lemma_parse_bytes_exact(rb, Seq::<u8>::empty());
    assert(decode_utf8(rb) == reason);
}

/// The byte encoding of the identity handshake value: the display name as
/// length-prefixed UTF-8.
pub open spec fn spec_encode_connection_info(name: Seq<char>) -> Seq<u8> {
    let nb = encode_utf8(name);
    spec_u64_to_be_bytes(nb.len() as u64) + nb
}

/// The display name encoded in `b`, if `b` is exactly one valid encoding.
pub open spec fn spec_decode_connection_info(b: Seq<u8>) -> Option<Seq<char>> {
    match spec_parse_bytes(b) {
        Option::Some((body, tail)) => {
            if tail.len() == 0 && valid_utf8(body) {
                Option::Some(decode_utf8(body))
            } else {
                Option::None
            }
        },
        Option::None => Option::None,
    }
}

/// Decoding an encoded handshake value gives the display name back.
pub proof fn lemma_connection_info_round_trip(name: Seq<char>)
    requires
        encode_utf8(name).len() <= u64::MAX,
    ensures
        spec_decode_connection_info(spec_encode_connection_info(name)) == Option::Some(name),
{
    let nb = encode_utf8(name);
    assert(spec_encode_connection_info(name) =~= spec_u64_to_be_bytes(nb.len() as u64) + nb
        + Seq::<u8>::empty());
    lemma_parse_bytes_exact(nb, Seq::<u8>::empty());
    assert(decode_utf8(nb) == name);
}

/// Relies on `String::from_utf8`: it returns the decoded string exactly when
/// the bytes are a valid UTF-8 encoding, and rejects them otherwise.
#[verifier::external_body]
fn bytes_to_string(bytes: Vec<u8>) -> (r: Option<String>)
    ensures
        match r {
            Some(s) => valid_utf8(bytes@) && s@ == decode_utf8(bytes@),
            None => !valid_utf8(bytes@),
        },
{
    match String::from_utf8(bytes) {
        Ok(s) => Some(s),
        Err(_) => None,
    }
}

/// The error value reported when bytes do not form one whole message.
fn malformed_note() -> (r: StreamSerializerError) {
    StreamSerializerError::Decode(String::from_str("malformed message"))
}

/// Reads a length-prefixed block out of `bytes` starting at `off`; returns
/// the block and the position just past it.
fn take_block(bytes: &Vec<u8>, off: usize) -> (r: Option<(Vec<u8>, usize)>)
    requires
        off <= bytes@.len(),
    ensures
        match r {
            Option::Some(p) => {
                &&& off + 8 <= p.1 <= bytes@.len()
                &&& spec_parse_bytes(bytes@.subrange(off as int, bytes@.len() as int))
                    == Option::Some(
                    (p.0@, bytes@.subrange(p.1 as int, bytes@.len() as int)),
                )
            },
            Option::None => spec_parse_bytes(
                bytes@.subrange(off as int, bytes@.len() as int),
            ) is None,
        },
{
    let total = bytes.len();
    let ghost s = bytes@.subrange(off as int, bytes@.len() as int);
    if total - off < 8 {
        return None;
    }
    let len64 = read_u64_be(bytes, off);
    proof {
        assert(s.subrange(0, 8) =~= bytes@.subrange(off as int, off as int + 8));
    }
    let rem = total - off - 8;
    proof {
        assert(s.subrange(8, s.len() as int).len() == rem);
    }
    if (rem as u64) < len64 {
        return None;
    }
    let n = len64 as usize;
    let data = slice_to_vec(slice_subrange(bytes.as_slice(), off + 8, off + 8 + n));
    proof {
        assert(s.subrange(8, s.len() as int).subrange(0, n as int) =~= bytes@.subrange(
            off as int + 8,
            off as int + 8 + n,
        ));
        assert(s.subrange(8, s.len() as int).subrange(n as int, rem as int) =~= bytes@.subrange(
            off as int + 8 + n,
            bytes@.len() as int,
        ));
    }
    Some((data, off + 8 + n))
}

/// Serializes a message to its byte encoding.
pub fn encode_message(m: &Message) -> (r: Vec<u8>)
    ensures
        r@ == spec_encode_message(m@),
        message_wf(m@),
{
    let mut out: Vec<u8> = Vec::new();
    match m {
        Message::User(UserMessage::Text(s)) => {
            out.push(TAG_TEXT);
            let body = s.as_str().as_bytes_vec();
            push_u64_be(&mut out, body.len() as u64);
            out.extend_from_slice(body.as_slice());
            proof {
                assert(out@ =~= spec_encode_message(m@));
            }
        },
        Message::User(UserMessage::FileHeader(name, size, id)) => {
            out.push(TAG_FILE_HEADER);
            let nb = name.as_str().as_bytes_vec();
            push_u64_be(&mut out, nb.len() as u64);
            out.extend_from_slice(nb.as_slice());
            push_u64_be(&mut out, *size);
            push_u64_be(&mut out, *id);
            proof {
                assert(out@ =~= spec_encode_message(m@));
            }
        },
        Message::Internal(InternalMessage::FileRequest(id)) => {
            out.push(TAG_FILE_REQUEST);
            push_u64_be(&mut out, *id);
            proof {
                assert(out@ =~= spec_encode_message(m@));
            }
        },
        Message::Internal(InternalMessage::FileContent(id, off, data)) => {
            out.push(TAG_FILE_CONTENT);
            push_u64_be(&mut out, *id);
            push_u64_be(&mut out, *off);
            push_u64_be(&mut out, data.len() as u64);
            out.extend_from_slice(data.as_slice());
            proof {
                assert(out@ =~= spec_encode_message(m@));
            }
        },
        Message::Internal(InternalMessage::FileContentError(id, reason)) => {
            out.push(TAG_FILE_CONTENT_ERROR);
            push_u64_be(&mut out, *id);
            let rb = reason.as_str().as_bytes_vec();
            push_u64_be(&mut out, rb.len() as u64);
            out.extend_from_slice(rb.as_slice());
            proof {
                assert(out@ =~= spec_encode_message(m@));
            }
        },
    }
    let _total = out.len();
    out
}

/// Deserializes a message from its byte encoding.  Returns the message
/// exactly when `bytes` is one whole valid encoding, and a decode error
/// otherwise.
pub fn decode_message(bytes: &Vec<u8>) -> (r: Result<Message, StreamSerializerError>)
    ensures
        match r {
            Ok(m) => spec_decode_message(bytes@) == Option::Some(m@),
            Err(_) => spec_decode_message(bytes@) is None,
        },
{
    let total = bytes.len();
    if total == 0 {
        return Err(malformed_note());
    }
    let tag = bytes[0];
    let ghost rest = bytes@.subrange(1, bytes@.len() as int);
    if tag == TAG_TEXT {
        match take_block(bytes, 1) {
            Some((body, newoff)) => {
                proof {
                    assert(bytes@.subrange(1, bytes@.len() as int) =~= rest);
                }
                if newoff != total {
                    proof {
                        assert(bytes@.subrange(newoff as int, bytes@.len() as int).len() != 0);
                    }
                    return Err(malformed_note());
                }
                proof {
                    assert(bytes@.subrange(newoff as int, bytes@.len() as int).len() == 0);
                }
                match bytes_to_string(body) {
                    Some(s) => Ok(Message::User(UserMessage::Text(s))),
                    None => Err(malformed_note()),
                }
            },
            None => Err(malformed_note()),
        }
    } else if tag == TAG_FILE_HEADER {
        match take_block(bytes, 1) {
            Some((nb, newoff)) => {
                let ghost tail = bytes@.subrange(newoff as int, bytes@.len() as int);
                if total - newoff != 16 {
                    return Err(malformed_note());
                }
                let size = read_u64_be(bytes, newoff);
                let id = read_u64_be(bytes, newoff + 8);
                proof {
                    assert(tail.subrange(0, 8) =~= bytes@.subrange(
                        newoff as int,
                        newoff as int + 8,
                    ));
                    assert(tail.subrange(8, 16) =~= bytes@.subrange(
                        newoff as int + 8,
                        newoff as int + 16,
                    ));
                }
                match bytes_to_string(nb) {
                    Some(name) => Ok(Message::User(UserMessage::FileHeader(name, size, id))),
                    None => Err(malformed_note()),
                }
            },
            None => Err(malformed_note()),
        }
    } else if tag == TAG_FILE_REQUEST {
        if total != 9 {
            return Err(malformed_note());
        }
        let id = read_u64_be(bytes, 1);
        proof {
            assert(rest =~= bytes@.subrange(1, 9));
        }
        Ok(Message::Internal(InternalMessage::FileRequest(id)))
    } else if tag == TAG_FILE_CONTENT {
        if total < 17 {
            return Err(malformed_note());
        }
        let id = read_u64_be(bytes, 1);
        let off = read_u64_be(bytes, 9);
        proof {
            assert(rest.subrange(0, 8) =~= bytes@.subrange(1, 9));
            assert(rest.subrange(8, 16) =~= bytes@.subrange(9, 17));
            assert(rest.subrange(16, rest.len() as int) =~= bytes@.subrange(
                17,
                bytes@.len() as int,
            ));
        }
        match take_block(bytes, 17) {
            Some((data, newoff)) => {
                if newoff != total {
                    proof {
                        assert(bytes@.subrange(newoff as int, bytes@.len() as int).len() != 0);
                    }
                    return Err(malformed_note());
                }
                proof {
                    assert(bytes@.subrange(newoff as int, bytes@.len() as int).len() == 0);
                }
                Ok(Message::Internal(InternalMessage::FileContent(id, off, data)))
            },
            None => Err(malformed_note()),
        }
    } else if tag == TAG_FILE_CONTENT_ERROR {
        if total < 9 {
            return Err(malformed_note());
        }
        let id = read_u64_be(bytes, 1);
        proof {
            assert(rest.subrange(0, 8) =~= bytes@.subrange(1, 9));
            assert(rest.subrange(8, rest.len() as int) =~= bytes@.subrange(
                9,
                bytes@.len() as int,
            ));
        }
        match take_block(bytes, 9) {
            Some((rb, newoff)) => {
                if newoff != total {
                    return Err(malformed_note());
                }
                match bytes_to_string(rb) {
                    Some(reason) => Ok(
                        Message::Internal(InternalMessage::FileContentError(id, reason)),
                    ),
                    None => Err(malformed_note()),
                }
            },
            None => Err(malformed_note()),
        }
    } else {
        Err(malformed_note())
    }
}

/// Serializes a message and wraps it in one frame: exactly what the write
/// loop puts on the wire for each message it dequeues.
pub fn frame_message(m: &Message) -> (r: Vec<u8>)
    ensures
        r@ == spec_frame(spec_encode_message(m@)),
        message_wf(m@),
{
    let payload = encode_message(m);
    frame_payload(&payload)
}

/// Reads one framed message out of `buf` starting at `start`: exactly what
/// the read loop does with the wire.  On success returns the message and
/// the bytes consumed; fails on a short frame or a payload that is not one
/// whole message encoding.
pub fn read_framed_message(buf: &Vec<u8>, start: usize) -> (r: Result<
    (Message, usize),
    StreamSerializerError,
>)
    requires
        start <= buf@.len(),
    ensures
        match r {
            Ok(mc) => match spec_read_frame(buf@.subrange(start as int, buf@.len() as int)) {
                Option::Some(pc) => {
                    &&& mc.1 == pc.1
                    &&& start + mc.1 <= buf@.len()
                    &&& spec_decode_message(pc.0) == Option::Some(mc.0@)
                },
                Option::None => false,
            },
            Err(_) => match spec_read_frame(buf@.subrange(start as int, buf@.len() as int)) {
                Option::Some(pc) => spec_decode_message(pc.0) is None,
                Option::None => true,
            },
        },
{
    let (payload, consumed) = read_frame(buf, start)?;
    let m = decode_message(&payload)?;
    Ok((m, consumed))
}

/// A message written to a stream as one frame is read back whole: the read
/// consumes exactly the frame — the length prefix plus the encoded
/// message — and decodes to the same message, whatever traffic follows on
/// the stream.
pub proof fn lemma_framed_message_round_trip(m: MessageView, rest: Seq<u8>)
    requires
        message_wf(m),
    ensures
        ({
            let stream = spec_frame(spec_encode_message(m)) + rest;
            &&& spec_read_frame(stream) == Option::Some(
                (spec_encode_message(m), 8 + spec_encode_message(m).len() as int),
            )
            &&& spec_decode_message(spec_encode_message(m)) == Option::Some(m)
        }),
{
    lemma_frame_round_trip(spec_encode_message(m), rest);
    lemma_message_round_trip(m);
}

/// Serializes the identity handshake value to its byte encoding.
pub fn encode_connection_info(info: &ConnectionInfo) -> (r: Vec<u8>)
    ensures
        r@ == spec_encode_connection_info(info@),
        encode_utf8(info@).len() <= u64::MAX,
{
    let mut out: Vec<u8> = Vec::new();
    let nb = info.user_name.as_str().as_bytes_vec();
    push_u64_be(&mut out, nb.len() as u64);
    out.extend_from_slice(nb.as_slice());
    out
}

/// Deserializes the identity handshake value from its byte encoding.
pub fn decode_connection_info(bytes: &Vec<u8>) -> (r: Result<
    ConnectionInfo,
    StreamSerializerError,
>)
    ensures
        match r {
            Ok(info) => spec_decode_connection_info(bytes@) == Option::Some(info@),
            Err(_) => spec_decode_connection_info(bytes@) is None,
        },
{
    let total = bytes.len();
    match take_block(bytes, 0) {
        Some((body, newoff)) => {
            proof {
                assert(bytes@.subrange(0, bytes@.len() as int) =~= bytes@);
            }
            if newoff != total {
                proof {
                    assert(bytes@.subrange(newoff as int, bytes@.len() as int).len() != 0);
                }
                return Err(malformed_note());
            }
            proof {
                assert(bytes@.subrange(newoff as int, bytes@.len() as int).len() == 0);
            }
            match bytes_to_string(body) {
                Some(name) => Ok(ConnectionInfo { user_name: name }),
                None => Err(malformed_note()),
            }
        },
        None => {
            proof {
                assert(bytes@.subrange(0, bytes@.len() as int) =~= bytes@);
            }
            Err(malformed_note())
        },
    }
}

proof fn lemma_canonical_text(b: Seq<u8>)
    requires
        b.len() > 0,
        b[0] == TAG_TEXT,
        spec_decode_message(b) is Some,
    ensures
        spec_encode_message(spec_decode_message(b)->Some_0) == b,
{
    broadcast use vstd::utf8::decode_utf8_encode_utf8;

    let rest = b.subrange(1, b.len() as int);
    let p = spec_parse_bytes(rest)->Some_0;
    crate::framing::lemma_parse_bytes_canonical(rest);
    assert(encode_utf8(decode_utf8(p.0)) == p.0);
    assert(spec_encode_message(spec_decode_message(b)->Some_0) =~= b);
}

proof fn lemma_canonical_file_header(b: Seq<u8>)
    requires
        b.len() > 0,
        b[0] == TAG_FILE_HEADER,
        spec_decode_message(b) is Some,
    ensures
        spec_encode_message(spec_decode_message(b)->Some_0) == b,
{
    broadcast use vstd::utf8::decode_utf8_encode_utf8;

    let rest = b.subrange(1, b.len() as int);
    let p = spec_parse_bytes(rest)->Some_0;
    crate::framing::lemma_parse_bytes_canonical(rest);
    assert(encode_utf8(decode_utf8(p.0)) == p.0);
    crate::bytes::lemma_u64_be_bytes_canonical(p.1.subrange(0, 8));
    crate::bytes::lemma_u64_be_bytes_canonical(p.1.subrange(8, 16));
    assert(p.1 =~= p.1.subrange(0, 8) + p.1.subrange(8, 16));
    assert(spec_encode_message(spec_decode_message(b)->Some_0) =~= b);
}

proof fn lemma_canonical_file_request(b: Seq<u8>)
    requires
        b.len() > 0,
        b[0] == TAG_FILE_REQUEST,
        spec_decode_message(b) is Some,
    ensures
        spec_encode_message(spec_decode_message(b)->Some_0) == b,
{
    let rest = b.subrange(1, b.len() as int);
    crate::bytes::lemma_u64_be_bytes_canonical(rest);
    assert(spec_encode_message(spec_decode_message(b)->Some_0) =~= b);
}

proof fn lemma_canonical_file_content(b: Seq<u8>)
    requires
        b.len() > 0,
        b[0] == TAG_FILE_CONTENT,
        spec_decode_message(b) is Some,
    ensures
        spec_encode_message(spec_decode_message(b)->Some_0) == b,
{
    let rest = b.subrange(1, b.len() as int);
    crate::bytes::lemma_u64_be_bytes_canonical(rest.subrange(0, 8));
    crate::bytes::lemma_u64_be_bytes_canonical(rest.subrange(8, 16));
    let blk = rest.subrange(16, rest.len() as int);
    crate::framing::lemma_parse_bytes_canonical(blk);
    assert(rest =~= rest.subrange(0, 8) + rest.subrange(8, 16) + blk);
    assert(spec_encode_message(spec_decode_message(b)->Some_0) =~= b);
}

proof fn lemma_canonical_file_content_error(b: Seq<u8>)
    requires
        b.len() > 0,
        b[0] == TAG_FILE_CONTENT_ERROR,
        spec_decode_message(b) is Some,
    ensures
        spec_encode_message(spec_decode_message(b)->Some_0) == b,
{
    broadcast use vstd::utf8::decode_utf8_encode_utf8;

    let rest = b.subrange(1, b.len() as int);
    crate::bytes::lemma_u64_be_bytes_canonical(rest.subrange(0, 8));
    let blk = rest.subrange(8, rest.len() as int);
    let p = spec_parse_bytes(blk)->Some_0;
    crate::framing::lemma_parse_bytes_canonical(blk);
    assert(encode_utf8(decode_utf8(p.0)) == p.0);
    assert(rest =~= rest.subrange(0, 8) + blk);
    assert(spec_encode_message(spec_decode_message(b)->Some_0) =~= b);
}

/// The decoder accepts only canonical bytes: whatever it decodes, encoding
/// the result gives back exactly the bytes that were decoded.  With the
/// round trip the other way, the wire format is a bijection between
/// messages and their encodings.
pub proof fn lemma_message_encoding_canonical(b: Seq<u8>)
    requires
        spec_decode_message(b) is Some,
    ensures
        spec_encode_message(spec_decode_message(b)->Some_0) == b,
{
    if b[0] == TAG_TEXT {
        lemma_canonical_text(b);
    } else if b[0] == TAG_FILE_HEADER {
        lemma_canonical_file_header(b);
    } else if b[0] == TAG_FILE_REQUEST {
        lemma_canonical_file_request(b);
    } else if b[0] == TAG_FILE_CONTENT {
        lemma_canonical_file_content(b);
    } else {
        lemma_canonical_file_content_error(b);
    }
}

/// No two distinct messages share an encoding.
pub proof fn lemma_message_encoding_injective(m1: MessageView, m2: MessageView)
    requires
        message_wf(m1),
        message_wf(m2),
        spec_encode_message(m1) == spec_encode_message(m2),
    ensures
        m1 == m2,
{
    lemma_message_round_trip(m1);
    lemma_message_round_trip(m2);
}

/// Decoding an encoded message gives the message back: the wire format is
/// lossless for every message variant.
pub proof fn lemma_message_round_trip(m: MessageView)
    requires
        message_wf(m),
    ensures
        spec_decode_message(spec_encode_message(m)) == Option::Some(m),
{
    match m {
        MessageView::User(UserMessageView::Text(s)) => lemma_round_trip_text(s),
        MessageView::User(UserMessageView::FileHeader(name, size, id)) => {
            lemma_round_trip_file_header(name, size, id)
        },
        MessageView::Internal(InternalMessageView::FileRequest(id)) => {
            lemma_round_trip_file_request(id)
        },
        MessageView::Internal(InternalMessageView::FileContent(id, off, data)) => {
            lemma_round_trip_file_content(id, off, data)
        },
        MessageView::Internal(InternalMessageView::FileContentError(id, reason)) => {
            lemma_round_trip_file_content_error(id, reason)
        },
    }
}

} // verus!
