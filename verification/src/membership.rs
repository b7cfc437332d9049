//! The membership set: the addresses of the peers this node knows, in the
//! order in which they were learned. Nothing keeps an address from occurring
//! more than once.
use crate::text::{join, join_words, texts};
use vstd::prelude::*;

verus! {

/// The peers known to a node, oldest first.
#[derive(Debug)]
pub struct Membership {
    peers: Vec<String>,
}

impl View for Membership {
    type V = Seq<Seq<char>>;

    closed spec fn view(&self) -> Seq<Seq<char>> {
        texts(self.peers@)
    }
}

impl Membership {
    /// A membership set with no peers.
    pub fn new() -> (m: Membership)
        ensures
            m@ == Seq::<Seq<char>>::empty(),
    {
        let m = Membership { peers: Vec::new() };
        assert(m@ =~= Seq::<Seq<char>>::empty());
        m
    }

    /// The number of entries, duplicates counted.
    pub fn len(&self) -> (n: usize)
        ensures
            n == self@.len(),
    {
        self.peers.len()
    }

    /// Whether no peer is known.
    pub fn is_empty(&self) -> (empty: bool)
        ensures
            empty == (self@.len() == 0),
    {
        self.peers.len() == 0
    }

    /// The entry at position `i`.
    pub fn peer(&self, i: usize) -> (peer: &String)
        requires
            i < self@.len(),
        ensures
            peer@ == self@[i as int],
    {
        &self.peers[i]
    }

    /// Appends `peer`, whether or not it is already present.
    pub fn add(&mut self, peer: String)
        ensures
            final(self)@ == old(self)@.push(peer@),
    {
        self.peers.push(peer);
        assert(self@ =~= old(self)@.push(peer@));
    }

    /// A copy of the current entries, in order.
    pub fn snapshot(&self) -> (peers: Vec<String>)
        ensures
            texts(peers@) == self@,
    {
        let mut peers: Vec<String> = Vec::new();
        let mut i: usize = 0;
        while i < self.peers.len()
            invariant
                i <= self.peers@.len(),
                peers@.len() == i,
                forall|j: int| 0 <= j < i ==> peers@[j]@ == self.peers@[j]@,
            decreases self.peers@.len() - i,
        {
            peers.push(self.peers[i].clone());
            i = i + 1;
        }
        assert(texts(peers@) =~= self@);
        peers
    }

    /// The current entries written as one line, a space between neighbours:
    /// the payload that tells a joining peer whom to contact.
    pub fn joined_addresses(&self) -> (line: String)
        ensures
            line@ == join_words(self@),
    {
        join(&self.peers)
    }
}

} // verus!
