//! The join sequence that a node runs once, before steady state.
//!
//! A node started without a seed is in steady state at once, its membership
//! empty. A node started with a seed adds the seed, sends it `INIT`, waits
//! for one reply, which must be `INFO`, and announces itself with `CONN` to
//! each address that the reply lists. The caller binds the socket and performs
//! the sends and the receive; the functions here decide what is sent and what
//! the replies mean.
use crate::membership::Membership;
use crate::protocol::{
    classify, conn_requests, decode_prefix, info_reply, kind_of, lemma_decode_padded,
    lemma_kinds_of_tags, message, message_to, padding, parse_buffer, Datagram, DatagramView,
    DecodeError, Kind,
};
use crate::text::{is_word, join_words, lemma_split_join};
use vstd::prelude::*;
use vstd::string::StringExecFns;
use vstd::utf8::is_ascii_chars;

verus! {

/// Why a node could not start.
#[derive(Debug, PartialEq, Eq)]
pub enum InitError {
    /// The gossip period is less than one second.
    InvalidPeriod,
    /// The seed's reply holds no message.
    Malformed(DecodeError),
    /// The seed's reply is a message, but of the kind with this tag, not `INFO`.
    UnexpectedProtocol(String),
}

/// A start-up failure as a value.
pub enum InitErrorView {
    InvalidPeriod,
    Malformed(DecodeError),
    UnexpectedProtocol(Seq<char>),
}

impl View for InitError {
    type V = InitErrorView;

    open spec fn view(&self) -> InitErrorView {
        match self {
            InitError::InvalidPeriod => InitErrorView::InvalidPeriod,
            InitError::Malformed(e) => InitErrorView::Malformed(*e),
            InitError::UnexpectedProtocol(tag) => InitErrorView::UnexpectedProtocol(tag@),
        }
    }
}

/// What the operator is told when a node cannot start for the reason `e`.
pub open spec fn failure_message(e: InitErrorView) -> Seq<char> {
    match e {
        InitErrorView::InvalidPeriod => "Period should be more than 0 seconds."@,
        InitErrorView::Malformed(DecodeError::TooShort) =>
            "Unexpected reply received: too short to hold a message."@,
        InitErrorView::Malformed(DecodeError::InvalidText) =>
            "Unexpected reply received: not valid text."@,
        InitErrorView::UnexpectedProtocol(tag) =>
            "Unexpected protocol received: Expected INFO protocol, got "@ + tag + " instead."@,
    }
}

impl InitError {
    /// The failure in words.
    pub fn message(&self) -> (text: String)
        ensures
            text@ == failure_message(self@),
    {
        match self {
            InitError::InvalidPeriod => "Period should be more than 0 seconds.".to_owned(),
            InitError::Malformed(DecodeError::TooShort) =>
                "Unexpected reply received: too short to hold a message.".to_owned(),
            InitError::Malformed(DecodeError::InvalidText) =>
                "Unexpected reply received: not valid text.".to_owned(),
            InitError::UnexpectedProtocol(tag) => {
                let mut text = "Unexpected protocol received: Expected INFO protocol, got ".to_owned();
                text.append(tag.as_str());
                text.append(" instead.");
                text
            },
        }
    }
}

/// Where a node stands after [`init_node`].
#[derive(Debug, PartialEq, Eq)]
pub enum Phase {
    /// A seed was configured and has been added to the membership: send it
    /// this `INIT` datagram and wait for its reply.
    Joining(Datagram),
    /// No seed was configured: the node runs on its own.
    SteadyState,
}

/// A phase as a value.
pub enum PhaseView {
    Joining(DatagramView),
    SteadyState,
}

impl View for Phase {
    type V = PhaseView;

    open spec fn view(&self) -> PhaseView {
        match self {
            Phase::Joining(init) => PhaseView::Joining(init@),
            Phase::SteadyState => PhaseView::SteadyState,
        }
    }
}

/// The membership and the phase that a node with membership `peers` reaches
/// when it starts with the given period and seed, or the reason it cannot
/// start.
pub open spec fn started(peers: Seq<Seq<char>>, period: u64, connect: Option<Seq<char>>) -> Result<
    (Seq<Seq<char>>, PhaseView),
    InitErrorView,
> {
    if period < 1 {
        Err(InitErrorView::InvalidPeriod)
    } else {
        match connect {
            None => Ok((peers, PhaseView::SteadyState)),
            Some(seed) => Ok(
                (
                    peers.push(seed),
                    PhaseView::Joining(message_to(seed, "INIT"@, Seq::<char>::empty())),
                ),
            ),
        }
    }
}

/// The payload of the seed's reply, received as `length` bytes in `buffer`,
/// or the reason the join fails on it.
pub open spec fn info_payload(buffer: Seq<u8>, length: int) -> Result<Seq<char>, InitErrorView> {
    match decode_prefix(buffer, length) {
        Err(e) => Err(InitErrorView::Malformed(e)),
        Ok((tag, payload)) => if kind_of(tag) == Kind::Info {
            Ok(payload)
        } else {
            Err(InitErrorView::UnexpectedProtocol(tag))
        },
    }
}

/// The seed of a start-up configuration, as its text.
pub open spec fn seed_of(connect: Option<String>) -> Option<Seq<char>> {
    match connect {
        None => None,
        Some(seed) => Some(seed@),
    }
}

/// Starts a node: checks the period and, if a seed is configured, adds it to
/// the membership and prepares the `INIT` message for it. On an error the
/// membership is left as it was.
pub fn init_node(peers: &mut Membership, period: u64, connect: Option<String>) -> (r: Result<
    Phase,
    InitError,
>)
    ensures
        match r {
            Ok(phase) => started(old(peers)@, period, seed_of(connect)) == Ok::<
                (Seq<Seq<char>>, PhaseView),
                InitErrorView,
            >((final(peers)@, phase@)),
            Err(e) => started(old(peers)@, period, seed_of(connect)) == Err::<
                (Seq<Seq<char>>, PhaseView),
                InitErrorView,
            >(e@) && final(peers)@ == old(peers)@,
        },
{
    if period < 1 {
        return Err(InitError::InvalidPeriod);
    }
    match connect {
        None => Ok(Phase::SteadyState),
        Some(seed) => {
            proof {
                reveal_strlit("");
            }
            assert(""@ =~= Seq::<char>::empty());
            let init = message(seed.clone(), "INIT", "");
            peers.add(seed);
            Ok(Phase::Joining(init))
        },
    }
}

/// Reads the seed's reply from the first `number_of_bytes` bytes of `buf`: the
/// payload of an `INFO` message, or the error that ends the join.
pub fn expect_info(buf: &[u8], number_of_bytes: usize) -> (r: Result<String, InitError>)
    ensures
        match r {
            Ok(payload) => info_payload(buf@, number_of_bytes as int) == Ok::<
                Seq<char>,
                InitErrorView,
            >(payload@),
            Err(e) => info_payload(buf@, number_of_bytes as int) == Err::<
                Seq<char>,
                InitErrorView,
            >(e@),
        },
{
    match parse_buffer(buf, number_of_bytes) {
        Err(e) => Err(InitError::Malformed(e)),
        Ok((tag, payload)) => match classify(tag.as_str()) {
            Kind::Info => Ok(payload),
            _ => Err(InitError::UnexpectedProtocol(tag)),
        },
    }
}

/// Whether `addr` can be listed in an `INFO` payload and read back: it is a
/// word and holds no null character.
pub open spec fn is_address(addr: Seq<char>) -> bool {
    is_word(addr) && forall|i: int| 0 <= i < addr.len() ==> addr[i] != '\0'
}

/// A line of joined addresses holds no null character.
proof fn lemma_joined_addresses_have_no_nul(peers: Seq<Seq<char>>)
    requires
        forall|i: int| 0 <= i < peers.len() ==> is_address(#[trigger] peers[i]),
    ensures
        forall|j: int| 0 <= j < join_words(peers).len() ==> join_words(peers)[j] != '\0',
    decreases peers.len(),
{
    if peers.len() == 1 {
        assert(is_address(peers[0]));
    } else if peers.len() > 1 {
        let head = peers.drop_last();
        assert forall|i: int| 0 <= i < head.len() implies is_address(#[trigger] head[i]) by {
            assert(head[i] == peers[i]);
        }
        lemma_joined_addresses_have_no_nul(head);
        assert(is_address(peers[peers.len() - 1]));
        let line = join_words(head);
        let last = peers.last();
        assert forall|j: int| 0 <= j < join_words(peers).len() implies join_words(peers)[j]
            != '\0' by {
            if j < line.len() {
                assert(join_words(peers)[j] == line[j]);
            } else if j == line.len() {
                assert(join_words(peers)[j] == ' ');
            } else {
                assert(join_words(peers)[j] == last[j - line.len() - 1]);
            }
        }
    }
}

/// What a seed answers is what the joiner reads. The `INFO` reply of a node
/// whose membership is `peers`, received in a buffer with any padding, is
/// accepted by the joiner, and the announcements that the joiner derives from
/// it go to the members of `peers`, one each, in order.
pub proof fn lemma_joiner_reads_membership(peers: Seq<Seq<char>>, joiner: Seq<char>, n: nat)
    requires
        forall|i: int| 0 <= i < peers.len() ==> is_address(#[trigger] peers[i]),
    ensures
        info_payload(
            info_reply(peers, joiner).bytes + padding(n),
            (info_reply(peers, joiner).bytes + padding(n)).len() as int,
        ) == Ok::<Seq<char>, InitErrorView>(join_words(peers)),
        conn_requests(join_words(peers)) == peers.map_values(
            |to: Seq<char>| message_to(to, "CONN"@, Seq::<char>::empty()),
        ),
{
    let buffer = info_reply(peers, joiner).bytes + padding(n);
    reveal_strlit("INFO");
    assert(is_ascii_chars("INFO"@));
    lemma_joined_addresses_have_no_nul(peers);
    lemma_decode_padded("INFO"@, join_words(peers), n);
    assert(buffer.subrange(0, buffer.len() as int) =~= buffer);
    lemma_kinds_of_tags();
    assert forall|i: int| 0 <= i < peers.len() implies is_word(#[trigger] peers[i]) by {
        assert(is_address(peers[i]));
    }
    lemma_split_join(peers);
}

} // verus!
