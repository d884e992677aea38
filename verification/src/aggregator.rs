//! The state aggregator: the canonical mutable world model. Applies each
//! incoming message in decoder-delivered order, replacing the player list or
//! the world bounds it holds.

use vstd::pervasive::VecAdditionalExecFns;
use vstd::prelude::*;

use crate::model::{Message, Player, WorldBounds};

verus! {

/// No two players occupy the same entity slot.
pub open spec fn entities_unique(s: Seq<Player>) -> bool {
    forall|i: int, j: int| 0 <= i < j < s.len() ==> s[i].entity != s[j].entity
}

/// Replaces the first player occupying `p`'s entity slot with `p`, or
/// appends `p` when no player occupies it.
pub open spec fn upsert(s: Seq<Player>, p: Player) -> Seq<Player>
    decreases s.len(),
{
    if s.len() == 0 {
        seq![p]
    } else if s[0].entity == p.entity {
        seq![p] + s.drop_first()
    } else {
        seq![s[0]] + upsert(s.drop_first(), p)
    }
}

proof fn lemma_upsert_at(s: Seq<Player>, p: Player, i: int)
    requires
        0 <= i < s.len(),
        s[i].entity == p.entity,
        forall|j: int| 0 <= j < i ==> s[j].entity != p.entity,
    ensures
        upsert(s, p) == s.update(i, p),
    decreases i,
{
    if i == 0 {
        assert(seq![p] + s.drop_first() =~= s.update(0, p));
    } else {
        assert forall|j: int| 0 <= j < i - 1 implies s.drop_first()[j].entity != p.entity by {
            assert(s.drop_first()[j] == s[j + 1]);
        }
        lemma_upsert_at(s.drop_first(), p, i - 1);
        assert(seq![s[0]] + s.drop_first().update(i - 1, p) =~= s.update(i, p));
    }
}

proof fn lemma_upsert_absent(s: Seq<Player>, p: Player)
    requires
        forall|j: int| 0 <= j < s.len() ==> s[j].entity != p.entity,
    ensures
        upsert(s, p) == s.push(p),
    decreases s.len(),
{
    if s.len() == 0 {
        assert(seq![p] =~= s.push(p));
    } else {
        assert forall|j: int| 0 <= j < s.drop_first().len() implies s.drop_first()[j].entity
            != p.entity by {
            assert(s.drop_first()[j] == s[j + 1]);
        }
        lemma_upsert_absent(s.drop_first(), p);
        assert(seq![s[0]] + s.drop_first().push(p) =~= s.push(p));
    }
}

/// The canonical mutable world model: the decoder's latest view of every
/// player, and the world bounds once seen.
pub struct Aggregator {
    pub players: Vec<Player>,
    pub world: Option<WorldBounds>,
}

impl Aggregator {
    /// Well-formedness: entity slots are unique in the player list.
    pub open spec fn wf(self) -> bool {
        entities_unique(self.players@)
    }

    pub fn new() -> (a: Aggregator)
        ensures
            a.wf(),
            a.players@ == Seq::<Player>::empty(),
            a.world is None,
    {
        Aggregator { players: Vec::new(), world: None }
    }

    /// The latest view of every player, in entity-slot first-seen order.
    pub fn current_players(&self) -> (r: &Vec<Player>)
        ensures
            r == &self.players,
    {
        &self.players
    }

    /// The world bounds, or `None` before any world-geometry message.
    pub fn current_world(&self) -> (r: Option<WorldBounds>)
        ensures
            r == self.world,
    {
        self.world
    }

    /// Applies one decoded message: a player-state update replaces that
    /// entity's player (or appends a new one), a world-geometry update
    /// replaces the bounds, and every other message leaves the model
    /// unchanged. Malformed input is the decoder's concern; there is no
    /// error condition here.
    pub fn apply(&mut self, msg: &Message)
        requires
            old(self).wf(),
        ensures
            final(self).wf(),
            msg is PlayerUpdate ==> final(self).players@ == upsert(
                old(self).players@,
                msg->PlayerUpdate_0,
            ) && final(self).world == old(self).world,
            msg is WorldUpdate ==> final(self).players == old(self).players && final(self).world
                == Some(msg->WorldUpdate_0),
            !(msg is PlayerUpdate) && !(msg is WorldUpdate) ==> *final(self) == *old(self),
    {
        match msg {
            Message::PlayerUpdate(p) => {
                let mut i: usize = 0;
                while i < self.players.len()
                    invariant
                        i <= self.players@.len(),
                        *self == *old(self),
                        old(self).wf(),
                        msg is PlayerUpdate && msg->PlayerUpdate_0 == *p,
                        forall|j: int| 0 <= j < i ==> self.players@[j].entity != p.entity,
                    decreases self.players@.len() - i,
                {
                    if self.players[i].entity == p.entity {
                        proof {
                            lemma_upsert_at(self.players@, *p, i as int);
                        }
                        self.players.set(i, *p);
                        proof {
                            assert forall|a: int, b: int|
                                0 <= a < b < self.players@.len() implies self.players@[a].entity
                                != self.players@[b].entity by {
                                assert(old(self).players@[a].entity != old(
                                    self,
                                ).players@[b].entity);
                            }
                        }
                        return ;
                    }
                    i += 1;
                }
                proof {
                    lemma_upsert_absent(self.players@, *p);
                }
                self.players.push(*p);
            },
            Message::WorldUpdate(w) => {
                self.world = Some(*w);
            },
            _ => {},
        }
    }
}

} // verus!
