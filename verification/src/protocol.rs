//! The wire format and the handlers of the four message kinds.
//!
//! A datagram is a four-byte kind tag followed by the payload text. Inbound
//! buffers are padded with zero bytes up to their fixed size; the padding is
//! removed when a buffer is decoded.
use crate::membership::Membership;
use crate::text::{join_words, split_words, texts, words};
use vstd::prelude::*;
use vstd::slice::slice_subrange;
use vstd::string::StrSliceExecFns;
use vstd::utf8::*;

verus! {

/// Why a buffer could not be decoded.
#[derive(Clone, Copy, Debug, PartialEq, Eq, Structural)]
pub enum DecodeError {
    /// Fewer than four bytes are available for the kind tag.
    TooShort,
    /// The kind tag or the payload is not UTF-8 text.
    InvalidText,
}

/// `bytes` without the zero bytes at its end.
pub open spec fn strip_trailing_nuls(bytes: Seq<u8>) -> Seq<u8>
    decreases bytes.len(),
{
    if bytes.len() > 0 && bytes.last() == 0u8 {
        strip_trailing_nuls(bytes.drop_last())
    } else {
        bytes
    }
}

/// The bytes of the message with tag `kind` and text `payload`.
pub open spec fn frame(kind: Seq<char>, payload: Seq<char>) -> Seq<u8> {
    encode_utf8(kind) + encode_utf8(payload)
}

/// The tag and payload that a received datagram holds.
pub open spec fn decode(bytes: Seq<u8>) -> Result<(Seq<char>, Seq<char>), DecodeError> {
    if bytes.len() < 4 {
        Err(DecodeError::TooShort)
    } else {
        let tag = bytes.subrange(0, 4);
        let body = strip_trailing_nuls(bytes.subrange(4, bytes.len() as int));
        if valid_utf8(tag) && valid_utf8(body) {
            Ok((decode_utf8(tag), decode_utf8(body)))
        } else {
            Err(DecodeError::InvalidText)
        }
    }
}

/// What decoding the first `length` bytes of `buffer` yields. A length beyond
/// the buffer leaves nothing to decode.
pub open spec fn decode_prefix(buffer: Seq<u8>, length: int) -> Result<
    (Seq<char>, Seq<char>),
    DecodeError,
> {
    if 0 <= length <= buffer.len() {
        decode(buffer.subrange(0, length))
    } else {
        Err(DecodeError::TooShort)
    }
}

/// Calls `core::str::from_utf8`, which checks that `bytes` is well-formed UTF-8
/// and, if so, hands the same bytes back as a string slice. The contract states
/// this over vstd's definition of UTF-8: success exactly on valid input, and
/// then the text that the bytes encode.
#[verifier::external_body]
fn text_of<'a>(bytes: &'a [u8]) -> (text: Option<&'a str>)
    ensures
        text is Some <==> valid_utf8(bytes@),
        text matches Some(s) ==> s@ == decode_utf8(bytes@),
{
    match core::str::from_utf8(bytes) {
        Ok(s) => Some(s),
        Err(_) => None,
    }
}

/// The length of `bytes` once the zero bytes at its end are dropped.
fn stripped_len(bytes: &[u8]) -> (end: usize)
    ensures
        end <= bytes@.len(),
        bytes@.subrange(0, end as int) == strip_trailing_nuls(bytes@),
{
    let mut end: usize = bytes.len();
    assert(bytes@.subrange(0, end as int) =~= bytes@);
    while end > 0 && bytes[end - 1] == 0
        invariant
            end <= bytes@.len(),
            strip_trailing_nuls(bytes@.subrange(0, end as int)) == strip_trailing_nuls(bytes@),
        decreases end,
    {
        assert(bytes@.subrange(0, end as int).drop_last() =~= bytes@.subrange(0, end - 1));
        end = end - 1;
    }
    end
}

/// Decodes the first `buffer_size` bytes of `buf` into the kind tag and the
/// payload text, the padding removed.
pub fn parse_buffer(buf: &[u8], buffer_size: usize) -> (r: Result<(String, String), DecodeError>)
    ensures
        match r {
            Ok((kind, payload)) => decode_prefix(buf@, buffer_size as int) == Ok::<
                (Seq<char>, Seq<char>),
                DecodeError,
            >((kind@, payload@)),
            Err(e) => decode_prefix(buf@, buffer_size as int) == Err::<
                (Seq<char>, Seq<char>),
                DecodeError,
            >(e),
        },
{
    if buffer_size < 4 || buffer_size > buf.len() {
        return Err(DecodeError::TooShort);
    }
    let tag = slice_subrange(buf, 0, 4);
    let padded = slice_subrange(buf, 4, buffer_size);
    let body = slice_subrange(padded, 0, stripped_len(padded));
    proof {
        let bytes = buf@.subrange(0, buffer_size as int);
        assert(tag@ =~= bytes.subrange(0, 4));
        assert(padded@ =~= bytes.subrange(4, bytes.len() as int));
    }
    match (text_of(tag), text_of(body)) {
        (Some(kind), Some(payload)) => Ok((kind.to_owned(), payload.to_owned())),
        _ => Err(DecodeError::InvalidText),
    }
}

/// The datagram bytes for a message: the kind tag followed by the payload.
pub fn encode(kind: &str, payload: &str) -> (bytes: Vec<u8>)
    ensures
        bytes@ == frame(kind@, payload@),
{
    let mut bytes = kind.as_bytes_vec();
    bytes.extend_from_slice(payload.as_bytes());
    bytes
}

/// The kinds of message that the protocol knows.
#[derive(Clone, Copy, Debug, PartialEq, Eq, Structural)]
pub enum Kind {
    /// `INIT`: a joiner asks a seed for the membership.
    Init,
    /// `INFO`: the seed's answer, a list of addresses.
    Info,
    /// `CONN`: a peer announces itself.
    Conn,
    /// `GOSP`: the periodic heartbeat.
    Gosp,
    /// Any other tag.
    Unrecognized,
}

/// The kind that a tag stands for.
pub open spec fn kind_of(tag: Seq<char>) -> Kind {
    if tag == "INIT"@ {
        Kind::Init
    } else if tag == "INFO"@ {
        Kind::Info
    } else if tag == "CONN"@ {
        Kind::Conn
    } else if tag == "GOSP"@ {
        Kind::Gosp
    } else {
        Kind::Unrecognized
    }
}

/// A datagram to be sent: its destination and its bytes.
#[derive(Debug, PartialEq, Eq)]
pub struct Datagram {
    pub to: String,
    pub bytes: Vec<u8>,
}

/// A datagram as a value: the destination's text and the bytes.
pub struct DatagramView {
    pub to: Seq<char>,
    pub bytes: Seq<u8>,
}

impl View for Datagram {
    type V = DatagramView;

    open spec fn view(&self) -> DatagramView {
        DatagramView { to: self.to@, bytes: self.bytes@ }
    }
}

/// The datagram that carries the message `kind`, `payload` to `to`.
pub open spec fn message_to(to: Seq<char>, kind: Seq<char>, payload: Seq<char>) -> DatagramView {
    DatagramView { to, bytes: frame(kind, payload) }
}

/// The datagrams held by a sequence, each as a value.
pub open spec fn datagrams(list: Seq<Datagram>) -> Seq<DatagramView> {
    Seq::new(list.len(), |i: int| list[i]@)
}

/// The `INFO` reply owed to a joiner at `to` by a node whose membership is
/// `peers`.
pub open spec fn info_reply(peers: Seq<Seq<char>>, to: Seq<char>) -> DatagramView {
    message_to(to, "INFO"@, join_words(peers))
}

/// The `CONN` announcements owed to the addresses listed in an `INFO`
/// payload, one for each word of it, in order.
pub open spec fn conn_requests(payload: Seq<char>) -> Seq<DatagramView> {
    split_words(payload).map_values(|to: Seq<char>| message_to(to, "CONN"@, Seq::<char>::empty()))
}

/// Those of `targets` whose send succeeded, in order. A target without a
/// recorded outcome counts as not reached.
pub open spec fn reached(targets: Seq<Seq<char>>, sent: Seq<bool>) -> Seq<Seq<char>>
    decreases targets.len(),
{
    if targets.len() == 0 {
        Seq::<Seq<char>>::empty()
    } else {
        let before = reached(targets.drop_last(), sent);
        let last = targets.len() - 1;
        if last < sent.len() && sent[last] {
            before.push(targets.last())
        } else {
            before
        }
    }
}

/// Each of the four tags stands for its own kind.
pub proof fn lemma_kinds_of_tags()
    ensures
        kind_of("INIT"@) == Kind::Init,
        kind_of("INFO"@) == Kind::Info,
        kind_of("CONN"@) == Kind::Conn,
        kind_of("GOSP"@) == Kind::Gosp,
{
    reveal_strlit("INIT");
    reveal_strlit("INFO");
    reveal_strlit("CONN");
    reveal_strlit("GOSP");
    assert("INFO"@[2] != "INIT"@[2]);
    assert("CONN"@[0] != "INIT"@[0]);
    assert("CONN"@[0] != "INFO"@[0]);
    assert("GOSP"@[0] != "INIT"@[0]);
    assert("GOSP"@[0] != "INFO"@[0]);
    assert("GOSP"@[0] != "CONN"@[0]);
}

/// The kind of message that `tag` announces.
pub fn classify(tag: &str) -> (kind: Kind)
    ensures
        kind == kind_of(tag@),
{
    if same_text(tag, "INIT") {
        Kind::Init
    } else if same_text(tag, "INFO") {
        Kind::Info
    } else if same_text(tag, "CONN") {
        Kind::Conn
    } else if same_text(tag, "GOSP") {
        Kind::Gosp
    } else {
        Kind::Unrecognized
    }
}

/// The datagram that carries the message `kind`, `payload` to `to`.
pub fn message(to: String, kind: &str, payload: &str) -> (datagram: Datagram)
    ensures
        datagram@ == message_to(to@, kind@, payload@),
{
    Datagram { to, bytes: encode(kind, payload) }
}

/// Handles `INIT` from `addr`: prepares the `INFO` reply, which lists the
/// membership as it stood when the request came, the joiner not in it, and
/// then makes the joiner a member. The caller sends the reply. A send that
/// fails is the caller's to log: the joiner stays a member.
pub fn handle_init_protocol(peers: &mut Membership, addr: String) -> (reply: Datagram)
    ensures
        reply@ == info_reply(old(peers)@, addr@),
        final(peers)@ == old(peers)@.push(addr@),
{
    let line = peers.joined_addresses();
    let reply = message(addr.clone(), "INFO", line.as_str());
    peers.add(addr);
    reply
}

/// Handles `CONN` from `addr`: the announcing peer becomes a member.
pub fn handle_conn_protocol(peers: &mut Membership, addr: String)
    ensures
        final(peers)@ == old(peers)@.push(addr@),
{
    peers.add(addr);
}

/// First half of handling an `INFO` payload: the `CONN` datagram for each
/// address that `msg` lists. The caller sends them in order and reports the
/// outcomes to [`handle_info_protocol`].
pub fn info_requests(msg: &str) -> (requests: Vec<Datagram>)
    ensures
        datagrams(requests@) == conn_requests(msg@),
{
    let targets = words(msg);
    let mut requests: Vec<Datagram> = Vec::new();
    let mut i: usize = 0;
    while i < targets.len()
        invariant
            i <= targets@.len(),
            texts(targets@) == split_words(msg@),
            requests@.len() == i,
            forall|j: int| 0 <= j < i ==> requests@[j]@ == message_to(
                targets@[j]@,
                "CONN"@,
                Seq::<char>::empty(),
            ),
        decreases targets@.len() - i,
    {
        proof {
            reveal_strlit("");
        }
        assert(""@ =~= Seq::<char>::empty());
        requests.push(message(targets[i].clone(), "CONN", ""));
        i = i + 1;
    }
    assert(datagrams(requests@) =~= conn_requests(msg@));
    requests
}

/// Second half of handling an `INFO` payload: each listed address whose
/// `CONN` was sent becomes a member, in the order of the list; one whose send
/// failed is skipped. `sent[i]` is the outcome for the `i`-th address.
pub fn handle_info_protocol(peers: &mut Membership, msg: &str, sent: &[bool])
    ensures
        final(peers)@ == old(peers)@ + reached(split_words(msg@), sent@),
{
    let targets = words(msg);
    let mut i: usize = 0;
    assert(texts(targets@).take(0) =~= Seq::<Seq<char>>::empty());
    assert(peers@ =~= old(peers)@ + reached(texts(targets@).take(0), sent@));
    while i < targets.len()
        invariant
            i <= targets@.len(),
            texts(targets@) == split_words(msg@),
            peers@ == old(peers)@ + reached(texts(targets@).take(i as int), sent@),
        decreases targets@.len() - i,
    {
        let ghost done = texts(targets@).take(i as int);
        let ghost next = texts(targets@).take(i + 1);
        assert(next.drop_last() =~= done);
        assert(next.last() == targets@[i as int]@);
        if i < sent.len() && sent[i] {
            peers.add(targets[i].clone());
        }
        assert(peers@ =~= old(peers)@ + reached(next, sent@));
        i = i + 1;
    }
    assert(texts(targets@).take(targets@.len() as int) =~= texts(targets@));
}

/// Whether two texts are the same, character for character.
pub fn same_text(a: &str, b: &str) -> (same: bool)
    ensures
        same == (a@ == b@),
{
    broadcast use encode_utf8_decode_utf8;

    let x = a.as_bytes();
    let y = b.as_bytes();
    if x.len() != y.len() {
        return false;
    }
    let mut i: usize = 0;
    while i < x.len()
        invariant
            i <= x@.len(),
            x@.len() == y@.len(),
            x@ == encode_utf8(a@),
            y@ == encode_utf8(b@),
            forall|j: int| 0 <= j < i ==> x@[j] == y@[j],
        decreases x@.len() - i,
    {
        if x[i] != y[i] {
            return false;
        }
        i = i + 1;
    }
    assert(x@ =~= y@);
    assert(decode_utf8(encode_utf8(a@)) == decode_utf8(encode_utf8(b@)));
    true
}

/// The UTF-8 encoding of a scalar other than zero holds no zero byte.
proof fn lemma_scalar_encoding_has_no_nul(c: u32)
    by (bit_vector)
    requires
        c != 0,
        c <= 0x10FFFF,
    ensures
        c <= 0x7F ==> (c & 0x7F) as u8 != 0,
        (0xC0 | ((c >> 6) & 0x1F) as u8) != 0,
        (0xE0 | ((c >> 12) & 0x0F) as u8) != 0,
        (0xF0 | ((c >> 18) & 0x7) as u8) != 0,
        (0x80 | (c & 0x3F) as u8) != 0,
        (0x80 | ((c >> 6) & 0x3F) as u8) != 0,
        (0x80 | ((c >> 12) & 0x3F) as u8) != 0,
{
}

/// Text without a null character encodes to bytes without a zero byte.
pub proof fn lemma_encoding_has_no_nul(text: Seq<char>)
    requires
        forall|i: int| 0 <= i < text.len() ==> text[i] != '\0',
    ensures
        forall|j: int| 0 <= j < encode_utf8(text).len() ==> encode_utf8(text)[j] != 0u8,
    decreases text.len(),
{
    if text.len() > 0 {
        let c = text[0] as u32;
        char_is_scalar(text[0]);
        assert(c != 0) by {
            if c == 0 {
                char_u32_cast(text[0], 0u32);
            }
        }
        lemma_scalar_encoding_has_no_nul(c);
        lemma_encoding_has_no_nul(text.drop_first());
        let head = encode_scalar(c);
        let tail = encode_utf8(text.drop_first());
        assert forall|j: int| 0 <= j < encode_utf8(text).len() implies encode_utf8(text)[j]
            != 0u8 by {
            if j < head.len() {
                assert(encode_utf8(text)[j] == head[j]);
            } else {
                assert(encode_utf8(text)[j] == tail[j - head.len()]);
            }
        }
    }
}

/// `n` zero bytes: what fills a receive buffer behind a shorter datagram.
pub open spec fn padding(n: nat) -> Seq<u8> {
    Seq::new(n, |i: int| 0u8)
}

/// Stripping removes padding, and nothing else, behind bytes that do not end
/// in a zero byte.
proof fn lemma_strip_padding(body: Seq<u8>, n: nat)
    requires
        body.len() == 0 || body.last() != 0u8,
    ensures
        strip_trailing_nuls(body + padding(n)) == body,
    decreases n,
{
    if n == 0 {
        assert(body + padding(n) =~= body);
    } else {
        assert((body + padding(n)).drop_last() =~= body + padding((n - 1) as nat));
        lemma_strip_padding(body, (n - 1) as nat);
    }
}

/// Decoding undoes encoding, whatever the padding: a message with a tag of
/// four ASCII characters and a payload free of null characters, followed by
/// any number of zero bytes, is decoded to that tag and payload.
pub proof fn lemma_decode_padded(kind: Seq<char>, payload: Seq<char>, n: nat)
    requires
        kind.len() == 4,
        is_ascii_chars(kind),
        forall|i: int| 0 <= i < payload.len() ==> payload[i] != '\0',
    ensures
        decode(frame(kind, payload) + padding(n)) == Ok::<(Seq<char>, Seq<char>), DecodeError>(
            (kind, payload),
        ),
{
    broadcast use {encode_utf8_decode_utf8, encode_utf8_valid_utf8};

    let bytes = frame(kind, payload) + padding(n);
    let body = encode_utf8(payload);
    is_ascii_chars_encode_utf8(kind);
    assert(encode_utf8(kind).len() == 4);
    assert(bytes.subrange(0, 4) =~= encode_utf8(kind));
    assert(bytes.subrange(4, bytes.len() as int) =~= body + padding(n));
    lemma_encoding_has_no_nul(payload);
    lemma_strip_padding(body, n);
}

/// Decoding undoes encoding: a message with a tag of four ASCII characters
/// and a payload free of null characters is decoded to that tag and payload.
pub proof fn lemma_decode_encode(kind: Seq<char>, payload: Seq<char>)
    requires
        kind.len() == 4,
        is_ascii_chars(kind),
        forall|i: int| 0 <= i < payload.len() ==> payload[i] != '\0',
    ensures
        decode(frame(kind, payload)) == Ok::<(Seq<char>, Seq<char>), DecodeError>(
            (kind, payload),
        ),
{
    lemma_decode_padded(kind, payload, 0);
    assert(frame(kind, payload) + padding(0) =~= frame(kind, payload));
}

} // verus!
