//! The decisions of the multiplayer server and client: who gets which
//! player id, and which peers a message is relayed to.
use vstd::prelude::*;

verus! {

/// A connected peer, as the networking layer numbers its addresses.
pub type PeerId = u64;

/// Port the server listens on when none is given.
pub const DEFAULT_PORT: u16 = 7878;

/// What kind of message arrived, as far as the server's decisions go.
#[derive(Debug, Clone, Copy, PartialEq, Eq, Structural)]
pub enum MessageKind {
    /// A player asks to join.
    Join,
    /// A position, block update or chat line, for the other players.
    Relay,
    /// A player leaves.
    Leave,
}

/// What the server does in answer.
#[derive(Debug, Clone, PartialEq, Eq)]
pub enum ServerAction {
    /// Send the sender its new player id.
    Welcome { to: PeerId, id: u32 },
    /// Forward the message, unchanged, to these peers.
    Forward { to: Vec<PeerId> },
    /// Do nothing.
    Ignore,
}

/// The server's players, each with the peer it plays from, and the next id to hand out.
pub struct ServerState {
    pub players: Vec<(u32, PeerId)>,
    pub next_id: u32,
}

/// The peers of all players but those at `from`, in the order the players joined.
pub open spec fn peers_except(players: Seq<(u32, PeerId)>, from: PeerId) -> Seq<PeerId>
    decreases players.len(),
{
    if players.len() == 0 {
        Seq::empty()
    } else {
        let rest = peers_except(players.drop_last(), from);
        if players.last().1 != from {
            rest.push(players.last().1)
        } else {
            rest
        }
    }
}

impl ServerState {
    /// A server with no players, handing out ids from 1.
    pub fn new() -> (s: Self)
        ensures
            s.players@.len() == 0,
            s.next_id == 1,
    {
        ServerState { players: Vec::new(), next_id: 1 }
    }

    /// Decide what to do with a message of `kind` from peer `from`: a join
    /// gets the next id, is recorded and welcomed; anything to relay goes to
    /// every other player's peer; a leave is ignored.
    pub fn handle(&mut self, kind: MessageKind, from: PeerId) -> (action: ServerAction)
        requires
            kind == MessageKind::Join ==> old(self).next_id < u32::MAX,
        ensures
            match kind {
                MessageKind::Join => {
                    &&& action == (ServerAction::Welcome { to: from, id: old(self).next_id })
                    &&& final(self).next_id == old(self).next_id + 1
                    &&& final(self).players@ == old(self).players@.push((old(self).next_id, from))
                },
                MessageKind::Relay => {
                    &&& action matches ServerAction::Forward { to } && to@ == peers_except(old(self).players@, from)
                    &&& final(self).next_id == old(self).next_id
                    &&& final(self).players@ == old(self).players@
                },
                MessageKind::Leave => {
                    &&& action == ServerAction::Ignore
                    &&& final(self).next_id == old(self).next_id
                    &&& final(self).players@ == old(self).players@
                },
            },
    {
        match kind {
            MessageKind::Join => {
                let id = self.next_id;
                self.next_id += 1;
                self.players.push((id, from));
                ServerAction::Welcome { to: from, id }
            },
            MessageKind::Relay => {
                let mut to: Vec<PeerId> = Vec::new();
                let mut i: usize = 0;
                while i < self.players.len()
                    invariant
                        i <= self.players@.len(),
                        to@ == peers_except(self.players@.subrange(0, i as int), from),
                    decreases self.players@.len() - i,
                {
                    let peer = self.players[i].1;
                    proof {
                        assert(self.players@.subrange(0, i + 1).drop_last() =~= self.players@.subrange(0, i as int));
                    }
                    if peer != from {
                        to.push(peer);
                    }
                    i += 1;
                }
                assert(self.players@.subrange(0, self.players@.len() as int) =~= self.players@);
                ServerAction::Forward { to }
            },
            MessageKind::Leave => ServerAction::Ignore,
        }
    }
}

/// A joined server never relays a player's message back to the player's
/// own peer, and relays it to every other player's peer.
pub proof fn lemma_relay_reaches_others(players: Seq<(u32, PeerId)>, from: PeerId)
    ensures
        forall|i: int| 0 <= i < peers_except(players, from).len() ==> #[trigger] peers_except(players, from)[i] != from,
        forall|i: int| 0 <= i < players.len() && (#[trigger] players[i]).1 != from ==> peers_except(players, from).contains(players[i].1),
    decreases players.len(),
{
    if players.len() > 0 {
        lemma_relay_reaches_others(players.drop_last(), from);
        let rest = peers_except(players.drop_last(), from);
        assert forall|i: int| 0 <= i < players.len() && (#[trigger] players[i]).1 != from implies peers_except(players, from).contains(players[i].1) by {
            if i < players.len() - 1 {
                assert(players.drop_last()[i] == players[i]);
                assert(rest.contains(players[i].1));
                if players.last().1 != from {
                    let k = choose|k: int| 0 <= k < rest.len() && rest[k] == players[i].1;
                    assert(rest.push(players.last().1)[k] == players[i].1);
                }
            } else {
                assert(rest.push(players.last().1)[rest.len() as int] == players[i].1);
            }
        }
    }
}

/// Record the position of a remote player in the client's list: a player
/// already listed gets its entry replaced, a new one is added at the end;
/// the client's own echoes are ignored.
pub fn record_remote_player<T: Copy>(players: &mut Vec<(u32, T)>, own_id: u32, id: u32, value: T)
    ensures
        id == own_id ==> final(players)@ == old(players)@,
        id != own_id ==> match first_with_id(old(players)@, id) {
            Some(k) => final(players)@ == old(players)@.update(k, (id, value)),
            None => final(players)@ == old(players)@.push((id, value)),
        },
{
    if id == own_id {
        return;
    }
    let mut i: usize = 0;
    while i < players.len()
        invariant
            i <= players@.len(),
            players@ == old(players)@,
            id != own_id,
            forall|j: int| 0 <= j < i ==> (#[trigger] players@[j]).0 != id,
        decreases players@.len() - i,
    {
        if players[i].0 == id {
            proof {
                lemma_first_with_id(old(players)@, id, i as int);
            }
            players.set(i, (id, value));
            return;
        }
        i += 1;
    }
    proof {
        lemma_no_id(old(players)@, id);
    }
    players.push((id, value));
}

/// Index of the first entry with this id.
pub open spec fn first_with_id<T>(players: Seq<(u32, T)>, id: u32) -> Option<int> {
    if exists|k: int| 0 <= k < players.len() && (#[trigger] players[k]).0 == id {
        Some(choose|k: int| 0 <= k < players.len() && (#[trigger] players[k]).0 == id && forall|j: int| 0 <= j < k ==> (#[trigger] players[j]).0 != id)
    } else {
        None
    }
}

proof fn lemma_first_with_id<T>(players: Seq<(u32, T)>, id: u32, i: int)
    requires
        0 <= i < players.len(),
        players[i].0 == id,
        forall|j: int| 0 <= j < i ==> (#[trigger] players[j]).0 != id,
    ensures
        first_with_id(players, id) == Some(i),
{
    assert(exists|k: int| 0 <= k < players.len() && (#[trigger] players[k]).0 == id && forall|j: int| 0 <= j < k ==> (#[trigger] players[j]).0 != id);
    let k = choose|k: int| 0 <= k < players.len() && (#[trigger] players[k]).0 == id && forall|j: int| 0 <= j < k ==> (#[trigger] players[j]).0 != id;
    if k < i {
        assert(players[k].0 != id);
    } else if k > i {
        assert(players[i].0 != id);
    }
}

proof fn lemma_no_id<T>(players: Seq<(u32, T)>, id: u32)
    requires
        forall|j: int| 0 <= j < players.len() ==> (#[trigger] players[j]).0 != id,
    ensures
        first_with_id(players, id) is None,
{
}

} // verus!
