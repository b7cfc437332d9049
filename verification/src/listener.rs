//! The listener's decision for one received datagram.
//!
//! The caller owns the socket and the loop: it receives into a buffer, hands
//! the buffer and the sender's address to [`listen`] while it holds the
//! membership exclusively, and carries out the reaction that comes back.
use crate::membership::Membership;
use crate::protocol::{
    classify, decode_prefix, handle_conn_protocol, handle_init_protocol, info_reply, kind_of,
    lemma_kinds_of_tags, message_to, parse_buffer, Datagram, DatagramView, DecodeError, Kind,
};
use crate::text::join_words;
use vstd::prelude::*;

verus! {

/// What a received datagram asks of the node.
#[derive(Debug, PartialEq, Eq)]
pub enum Reaction {
    /// `INIT`: the sender has been added to the membership. Send it this
    /// `INFO` reply, which lists the membership without it. If the send
    /// fails, log that and go on: the sender stays a member.
    Welcome(Datagram),
    /// `CONN`: the sender has been added to the membership. Nothing is sent.
    Joined,
    /// `GOSP`: the heartbeat text, to be shown. Nothing changes.
    Gossip(String),
    /// A tag that the listener does not act on, to be reported. Nothing
    /// changes and nothing is sent.
    Unrecognized(String),
    /// The buffer holds no message. Nothing changes and nothing is sent.
    Malformed(DecodeError),
}

/// A reaction as a value.
pub enum ReactionView {
    Welcome(DatagramView),
    Joined,
    Gossip(Seq<char>),
    Unrecognized(Seq<char>),
    Malformed(DecodeError),
}

impl View for Reaction {
    type V = ReactionView;

    open spec fn view(&self) -> ReactionView {
        match self {
            Reaction::Welcome(reply) => ReactionView::Welcome(reply@),
            Reaction::Joined => ReactionView::Joined,
            Reaction::Gossip(text) => ReactionView::Gossip(text@),
            Reaction::Unrecognized(tag) => ReactionView::Unrecognized(tag@),
            Reaction::Malformed(e) => ReactionView::Malformed(*e),
        }
    }
}

/// The membership after, and the reaction to, a datagram of `length` bytes
/// received in `buffer` from `sender` by a node whose membership is `peers`.
pub open spec fn react(
    peers: Seq<Seq<char>>,
    buffer: Seq<u8>,
    length: int,
    sender: Seq<char>,
) -> (Seq<Seq<char>>, ReactionView) {
    match decode_prefix(buffer, length) {
        Err(e) => (peers, ReactionView::Malformed(e)),
        Ok((tag, payload)) => match kind_of(tag) {
            Kind::Init => (peers.push(sender), ReactionView::Welcome(info_reply(peers, sender))),
            Kind::Conn => (peers.push(sender), ReactionView::Joined),
            Kind::Gosp => (peers, ReactionView::Gossip(payload)),
            _ => (peers, ReactionView::Unrecognized(tag)),
        },
    }
}

/// Decodes the first `number_of_bytes` bytes of `buf`, received from `addr`,
/// and dispatches on the kind of message.
pub fn listen(peers: &mut Membership, buf: &[u8], number_of_bytes: usize, addr: &str) -> (reaction:
    Reaction)
    ensures
        (final(peers)@, reaction@) == react(old(peers)@, buf@, number_of_bytes as int, addr@),
{
    match parse_buffer(buf, number_of_bytes) {
        Err(e) => Reaction::Malformed(e),
        Ok((tag, payload)) => match classify(tag.as_str()) {
            Kind::Init => Reaction::Welcome(handle_init_protocol(peers, addr.to_owned())),
            Kind::Conn => {
                handle_conn_protocol(peers, addr.to_owned());
                Reaction::Joined
            },
            Kind::Gosp => Reaction::Gossip(payload),
            _ => Reaction::Unrecognized(tag),
        },
    }
}

/// An `INIT` from `sender` is answered with an `INFO` message to `sender`
/// whose payload lists the membership as it was before, `sender` not in it,
/// and the membership after the dispatch is the old one with `sender`
/// appended. Whether the reply can then be sent changes neither.
pub proof fn lemma_init_dispatch(
    peers: Seq<Seq<char>>,
    buffer: Seq<u8>,
    length: int,
    sender: Seq<char>,
    payload: Seq<char>,
)
    requires
        decode_prefix(buffer, length) == Ok::<(Seq<char>, Seq<char>), DecodeError>(
            ("INIT"@, payload),
        ),
    ensures
        react(peers, buffer, length, sender) == (
            peers.push(sender),
            ReactionView::Welcome(message_to(sender, "INFO"@, join_words(peers))),
        ),
{
    lemma_kinds_of_tags();
}

/// A `CONN` from `sender` appends `sender` to the membership, whatever the
/// membership holds, and asks for no reply.
pub proof fn lemma_conn_dispatch(
    peers: Seq<Seq<char>>,
    buffer: Seq<u8>,
    length: int,
    sender: Seq<char>,
    payload: Seq<char>,
)
    requires
        decode_prefix(buffer, length) == Ok::<(Seq<char>, Seq<char>), DecodeError>(
            ("CONN"@, payload),
        ),
    ensures
        react(peers, buffer, length, sender) == (peers.push(sender), ReactionView::Joined),
{
    lemma_kinds_of_tags();
}

/// A `GOSP` message leaves the membership unchanged, whatever its payload
/// and whoever sent it; its text is handed on and no reply is asked for.
pub proof fn lemma_gosp_dispatch(
    peers: Seq<Seq<char>>,
    buffer: Seq<u8>,
    length: int,
    sender: Seq<char>,
    payload: Seq<char>,
)
    requires
        decode_prefix(buffer, length) == Ok::<(Seq<char>, Seq<char>), DecodeError>(
            ("GOSP"@, payload),
        ),
    ensures
        react(peers, buffer, length, sender) == (peers, ReactionView::Gossip(payload)),
{
    lemma_kinds_of_tags();
}

/// A message whose tag is none of `INIT`, `CONN` and `GOSP` leaves the
/// membership unchanged and asks for no reply: the tag is reported.
pub proof fn lemma_unrecognized_dispatch(
    peers: Seq<Seq<char>>,
    buffer: Seq<u8>,
    length: int,
    sender: Seq<char>,
    tag: Seq<char>,
    payload: Seq<char>,
)
    requires
        decode_prefix(buffer, length) == Ok::<(Seq<char>, Seq<char>), DecodeError>((tag, payload)),
        tag != "INIT"@,
        tag != "CONN"@,
        tag != "GOSP"@,
    ensures
        react(peers, buffer, length, sender) == (peers, ReactionView::Unrecognized(tag)),
{
}

/// A buffer that cannot be decoded leaves the membership unchanged and asks
/// for no reply.
pub proof fn lemma_malformed_dispatch(
    peers: Seq<Seq<char>>,
    buffer: Seq<u8>,
    length: int,
    sender: Seq<char>,
)
    requires
        decode_prefix(buffer, length) is Err,
    ensures
        react(peers, buffer, length, sender) == (
            peers,
            ReactionView::Malformed(decode_prefix(buffer, length)->Err_0),
        ),
{
}

} // verus!
