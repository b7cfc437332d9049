//! The broadcaster's decision at one look at the clock.
//!
//! The caller owns the clock and the loop. It keeps the time of the last
//! round, initialised when the broadcaster starts, and hands it to [`gossip`]
//! with the current time each time it looks; it then sends whatever comes
//! back. Times and the period are counted in the same unit, the caller's.
use crate::membership::Membership;
use crate::protocol::{datagrams, message, message_to, Datagram, DatagramView};
use vstd::prelude::*;

verus! {

/// Whether a round is due at `now`, the last one having been at
/// `last_gossiped`: the clock has not run backwards and at least `period` has
/// elapsed.
pub open spec fn due(last_gossiped: u64, now: u64, period: u64) -> bool {
    now >= last_gossiped && now - last_gossiped >= period
}

/// One heartbeat for each entry of `peers`, in order.
pub open spec fn heartbeats(peers: Seq<Seq<char>>) -> Seq<DatagramView> {
    peers.map_values(|to: Seq<char>| message_to(to, "GOSP"@, "Hello!"@))
}

/// The time of the last round and the datagrams to send after a look at the
/// clock at `now`.
pub open spec fn round(peers: Seq<Seq<char>>, last_gossiped: u64, now: u64, period: u64) -> (
    u64,
    Seq<DatagramView>,
) {
    if due(last_gossiped, now, period) {
        (now, heartbeats(peers))
    } else {
        (last_gossiped, Seq::<DatagramView>::empty())
    }
}

/// Whether a round is due at `now`, the last one having been at
/// `last_gossiped`. The membership is not needed for the answer, so a caller
/// that shares it can look at the clock without taking hold of it.
pub fn is_due(last_gossiped: u64, now: u64, period: u64) -> (b: bool)
    ensures
        b == due(last_gossiped, now, period),
{
    now >= last_gossiped && now - last_gossiped >= period
}

/// Decides whether a round of gossip is due at `now`. If it is, the timer is
/// reset to `now` and one heartbeat for every current peer is returned; if it
/// is not, the timer stays and nothing is returned.
pub fn gossip(peers: &Membership, last_gossiped: &mut u64, now: u64, period: u64) -> (out: Vec<
    Datagram,
>)
    ensures
        (*final(last_gossiped), datagrams(out@)) == round(
            peers@,
            *old(last_gossiped),
            now,
            period,
        ),
{
    let mut out: Vec<Datagram> = Vec::new();
    if !is_due(*last_gossiped, now, period) {
        assert(datagrams(out@) =~= Seq::<DatagramView>::empty());
        return out;
    }
    *last_gossiped = now;
    let mut i: usize = 0;
    while i < peers.len()
        invariant
            i <= peers@.len(),
            out@.len() == i,
            forall|j: int| 0 <= j < i ==> out@[j]@ == message_to(peers@[j], "GOSP"@, "Hello!"@),
        decreases peers@.len() - i,
    {
        out.push(message(peers.peer(i).clone(), "GOSP", "Hello!"));
        i = i + 1;
    }
    assert(datagrams(out@) =~= heartbeats(peers@));
    out
}

/// The cadence of the broadcast. Before `period` has elapsed since the last
/// round, a look at the clock sends nothing and leaves the timer alone. Once
/// it has elapsed, exactly one heartbeat goes to each peer of the membership,
/// in order, and the timer is reset to the time of the look.
pub proof fn lemma_broadcast_cadence(
    peers: Seq<Seq<char>>,
    last_gossiped: u64,
    now: u64,
    period: u64,
)
    requires
        last_gossiped <= now,
    ensures
        now - last_gossiped < period ==> round(peers, last_gossiped, now, period) == (
            last_gossiped,
            Seq::<DatagramView>::empty(),
        ),
        now - last_gossiped >= period ==> {
            &&& round(peers, last_gossiped, now, period).0 == now
            &&& round(peers, last_gossiped, now, period).1.len() == peers.len()
            &&& forall|i: int|
                0 <= i < peers.len() ==> #[trigger] round(peers, last_gossiped, now, period).1[i]
                    == message_to(peers[i], "GOSP"@, "Hello!"@)
        },
{
}

} // verus!
