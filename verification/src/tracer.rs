//! The tracer: one closed dispatch per decoded message, driving the
//! aggregator, the delta computer, the roster and the damage correlator in a
//! fixed order, and collecting the output tables.

use vstd::prelude::*;

use crate::aggregator::{upsert, Aggregator};
use crate::correlator::{
    drained, event_qualifies, find_by_uid, history_of, identified_players, resolved_attacker,
    stamped_identified, trace_states, Correlator, DamageTrace,
};
use crate::delta::{dedup_by_key, delta};
use crate::errors::DemoError;
use crate::model::{
    profile_of, snapshot_matches, ticks_non_decreasing, DamageEvent, GameEventData, Message,
    Player, Profile, Snapshot, WithTick, WorldBounds,
};
use crate::roster::{
    entry_text_set_aside, opt_bytes_view, opt_string_view, parsed_userinfo, userinfo_table, Roster,
};

verus! {

/// The player list after one message has been applied to the world model.
pub open spec fn players_after(before: Seq<Player>, msg: Message) -> Seq<Player> {
    match msg {
        Message::PlayerUpdate(p) => upsert(before, p),
        _ => before,
    }
}

/// The delta batch one message produces: the players present in the list
/// before or after the message, deduplicated by identity key with the newer
/// form taking precedence.
pub open spec fn message_deltas(before: Seq<Player>, msg: Message) -> Seq<Player> {
    dedup_by_key(players_after(before, msg) + before)
}

/// How one successfully processed message carries the tracer from `pre` to
/// `post`, at tick `tick`, emitting `emitted`: the world model is updated,
/// a world-geometry change is recorded, a damage event is recorded and
/// forwarded to the correlator, a string-table entry feeds the roster, and
/// a tick-stamped snapshot of every identified delta player is appended to
/// the snapshot table and the correlator's history.
pub open spec fn message_step(
    pre: Tracer,
    post: Tracer,
    msg: Message,
    tick: u32,
    emitted: Option<DamageTrace>,
) -> bool {
    let before = pre.integrator.players@;
    let ds = message_deltas(before, msg);
    let h1 = pre.correlator.history@ + stamped_identified(ds, tick);
    &&& post.last_tick == tick
    &&& post.integrator.players@ == players_after(before, msg)
    &&& post.integrator.world == (match msg {
        Message::WorldUpdate(w) => Some(w),
        _ => pre.integrator.world,
    })
    &&& post.events@ == (match msg {
        Message::GameEvent(GameEventData::PlayerHurt(e)) => pre.events@.push(
            WithTick { inner: e, tick },
        ),
        _ => pre.events@,
    })
    &&& post.bounds@ == (match msg {
        Message::WorldUpdate(w) => if pre.integrator.world == Some(w) {
            pre.bounds@
        } else {
            pre.bounds@.push(WithTick { inner: w, tick })
        },
        _ => pre.bounds@,
    })
    &&& (match msg {
        Message::StringEntry(entry) => {
            &&& (entry.table@ != userinfo_table() ==> post.roster == pre.roster)
            &&& (entry.table@ == userinfo_table() && entry_text_set_aside(entry) ==> post.roster
                == pre.roster)
            &&& (entry.table@ == userinfo_table() && !entry_text_set_aside(entry) ==> {
                let parsed = parsed_userinfo(
                    entry.index,
                    opt_string_view(entry.text),
                    opt_bytes_view(entry.extra),
                );
                &&& (parsed matches Some(None) ==> post.roster == pre.roster)
                &&& (parsed matches Some(Some(f)) ==> {
                    &&& (pre.roster.id_seen(f.user_id) ==> post.roster == pre.roster)
                    &&& (!pre.roster.id_seen(f.user_id) ==> post.roster.roster@
                        == pre.roster.roster@.push(profile_of(f)))
                })
            })
        },
        _ => post.roster == pre.roster,
    })
    &&& post.states@.len() == pre.states@.len() + identified_players(ds).len()
    &&& post.states@.take(pre.states@.len() as int) == pre.states@
    &&& snapshots_match(post.states@.skip(pre.states@.len() as int), identified_players(ds), tick)
    &&& post.correlator.source == pre.correlator.source
    &&& (match msg {
        Message::GameEvent(GameEventData::PlayerHurt(e)) => {
            let cs = pre.correlator.source;
            let cp = pre.correlator.pending;
            let lp = pre.correlator.last_pair;
            let ps = players_after(before, msg);
            let ro = pre.roster.roster@;
            &&& (resolved_attacker(cs, cp, ps, ro, e) is None ==> emitted is None
                && post.correlator.history@ == h1 && post.correlator.pending == cp
                && post.correlator.last_pair == lp)
            &&& (resolved_attacker(cs, cp, ps, ro, e) matches Some(att) ==> find_by_uid(
                ps,
                e.victim,
            ) is None ==> (emitted is None && post.correlator.history@ == h1
                && post.correlator.pending == cp && post.correlator.last_pair == lp))
            &&& (resolved_attacker(cs, cp, ps, ro, e) matches Some(att) ==> find_by_uid(
                ps,
                e.victim,
            ) matches Some(vic) ==> {
                &&& post.correlator.pending == Some(att)
                &&& if event_qualifies(lp, att, e, history_of(h1, e.victim).len()) {
                    &&& post.correlator.last_pair == Some((e.attacker, e.victim))
                    &&& post.correlator.history@ == drained(h1, att, e.victim)
                    &&& emitted matches Some(tr) && tr.attacker == att && tr.victim == vic
                        && tr.states@ == trace_states(h1, att, e.victim)
                } else {
                    &&& emitted is None
                    &&& post.correlator.history@ == h1
                    &&& post.correlator.last_pair == lp
                }
            })
        },
        _ => {
            &&& emitted is None
            &&& post.correlator.history@ == h1
            &&& post.correlator.pending == pre.correlator.pending
            &&& post.correlator.last_pair == pre.correlator.last_pair
        },
    })
}

/// A snapshot-table segment records exactly one delta batch: entry by
/// entry, the segment carries the batch's tick and reflects the batch's
/// players, in batch order.
pub open spec fn snapshots_match(
    snaps: Seq<WithTick<Snapshot>>,
    ds: Seq<Player>,
    tick: u32,
) -> bool {
    &&& snaps.len() == ds.len()
    &&& forall|k: int|
        #![trigger snaps[k]]
        0 <= k < ds.len() ==> snaps[k].tick == tick && snapshot_matches(snaps[k].inner, ds[k])
}

proof fn lemma_snapshots_match_push(
    snaps: Seq<WithTick<Snapshot>>,
    ds: Seq<Player>,
    tick: u32,
    w: WithTick<Snapshot>,
    p: Player,
)
    requires
        snapshots_match(snaps, ds, tick),
        w.tick == tick,
        snapshot_matches(w.inner, p),
    ensures
        snapshots_match(snaps.push(w), ds.push(p), tick),
{
    assert forall|k: int|
        #![trigger snaps.push(w)[k]]
        0 <= k < ds.push(p).len() implies snaps.push(w)[k].tick == tick && snapshot_matches(
        snaps.push(w)[k].inner,
        ds.push(p)[k],
    ) by {
        if k < ds.len() {
            assert(snaps.push(w)[k] == snaps[k]);
            assert(ds.push(p)[k] == ds[k]);
        } else {
            assert(snaps.push(w)[k] == w);
            assert(ds.push(p)[k] == p);
        }
    }
}

/// The engine: consumes decoded messages one at a time and accumulates the
/// four output tables, emitting a damage trace whenever an event qualifies.
pub struct Tracer {
    pub integrator: Aggregator,
    pub events: Vec<WithTick<DamageEvent>>,
    pub states: Vec<WithTick<Snapshot>>,
    pub roster: Roster,
    pub bounds: Vec<WithTick<WorldBounds>>,
    pub correlator: Correlator,
    pub last_tick: u32,
}

proof fn lemma_push_sorted<T>(s: Seq<WithTick<T>>, w: WithTick<T>, bound: u32)
    requires
        ticks_non_decreasing(s),
        forall|i: int| 0 <= i < s.len() ==> s[i].tick <= bound,
        w.tick >= bound,
    ensures
        ticks_non_decreasing(s.push(w)),
        forall|i: int| 0 <= i < s.push(w).len() ==> s.push(w)[i].tick <= w.tick,
{
    assert forall|i: int, j: int|
        0 <= i <= j < s.push(w).len() implies s.push(w)[i].tick <= s.push(w)[j].tick by {
        if j < s.len() {
            assert(s.push(w)[i] == s[i]);
            assert(s.push(w)[j] == s[j]);
        } else if i < s.len() {
            assert(s.push(w)[i] == s[i]);
        }
    }
    assert forall|i: int| 0 <= i < s.push(w).len() implies s.push(w)[i].tick <= w.tick by {
        if i < s.len() {
            assert(s.push(w)[i] == s[i]);
        }
    }
}

fn copy_players(v: &Vec<Player>) -> (r: Vec<Player>)
    ensures
        r@ == v@,
{
    let mut r: Vec<Player> = Vec::new();
    let mut i: usize = 0;
    while i < v.len()
        invariant
            i <= v@.len(),
            r@ == v@.take(i as int),
        decreases v@.len() - i,
    {
        proof {
            assert(v@.take(i as int + 1).drop_last() =~= v@.take(i as int));
        }
        r.push(v[i]);
        i += 1;
    }
    proof {
        assert(v@.take(v@.len() as int) =~= v@);
    }
    r
}

impl Tracer {
    /// Well-formedness: the world model and roster are well-formed, every
    /// output table has non-decreasing ticks bounded by the last processed
    /// tick, and the bounds table ends with the current world bounds.
    pub open spec fn wf(self) -> bool {
        &&& self.integrator.wf()
        &&& self.roster.wf()
        &&& ticks_non_decreasing(self.events@)
        &&& ticks_non_decreasing(self.states@)
        &&& ticks_non_decreasing(self.bounds@)
        &&& (forall|i: int| 0 <= i < self.events@.len() ==> self.events@[i].tick <= self.last_tick)
        &&& (forall|i: int| 0 <= i < self.states@.len() ==> self.states@[i].tick <= self.last_tick)
        &&& (forall|i: int| 0 <= i < self.bounds@.len() ==> self.bounds@[i].tick <= self.last_tick)
        &&& match self.integrator.world {
            None => self.bounds@.len() == 0,
            Some(w) => self.bounds@.len() > 0 && self.bounds@.last().inner == w,
        }
    }

    /// A tracer correlating every resolvable attacker/victim pair.
    pub fn new() -> (t: Tracer)
        ensures
            t.wf(),
            t.is_fresh(None),
    {
        Tracer::with_source(None)
    }

    /// Freshness: nothing processed yet, under the given source filter.
    pub open spec fn is_fresh(self, source: Option<String>) -> bool {
        &&& self.integrator.players@ == Seq::<Player>::empty()
        &&& self.integrator.world is None
        &&& self.events@ == Seq::<WithTick<DamageEvent>>::empty()
        &&& self.states@ == Seq::<WithTick<Snapshot>>::empty()
        &&& self.bounds@ == Seq::<WithTick<WorldBounds>>::empty()
        &&& self.roster.roster@ == Seq::<Profile>::empty()
        &&& self.correlator.source == source
        &&& self.correlator.history@ == Seq::<WithTick<Player>>::empty()
        &&& self.correlator.pending is None
        &&& self.correlator.last_pair is None
        &&& self.last_tick == 0
    }

    /// A tracer restricted to damage events whose attacker is (or becomes,
    /// via pending-attacker carry-over) the given persistent id.
    pub fn with_source(source: Option<String>) -> (t: Tracer)
        ensures
            t.wf(),
            t.is_fresh(source),
    {
        Tracer {
            integrator: Aggregator::new(),
            events: Vec::new(),
            states: Vec::new(),
            roster: Roster::new(),
            bounds: Vec::new(),
            correlator: Correlator::new(source),
            last_tick: 0,
        }
    }

    /// Processes one decoded message. Must be called once per message, in
    /// decoder-delivered order, with non-decreasing ticks. Returns the
    /// damage trace the message emitted, if any; the only error is a
    /// player-info string-table payload that cannot be decoded, which
    /// leaves the state untouched.
    pub fn handle_message(&mut self, msg: Message, tick: u32) -> (r: Result<
        Option<DamageTrace>,
        DemoError,
    >)
        requires
            old(self).wf(),
            tick >= old(self).last_tick,
        ensures
            final(self).wf(),
            !(msg is StringEntry) ==> r is Ok,
            msg matches Message::StringEntry(entry) ==> ((r is Err) == (entry.table@
                == userinfo_table() && !entry_text_set_aside(entry) && parsed_userinfo(
                entry.index,
                opt_string_view(entry.text),
                opt_bytes_view(entry.extra),
            ) is None)),
            r matches Err(_) ==> *final(self) == *old(self),
            r matches Ok(emitted) ==> message_step(*old(self), *final(self), msg, tick, emitted),
    {
        let ghost pre = *old(self);
        let prev = copy_players(&self.integrator.players);
        self.integrator.apply(&msg);
        if let Message::WorldUpdate(w) = &msg {
            let changed: bool = if self.bounds.len() == 0 {
                true
            } else {
                let lb = self.bounds[self.bounds.len() - 1];
                !(lb.inner == *w)
            };
            if changed {
                proof {
                    lemma_push_sorted(self.bounds@, WithTick { inner: *w, tick }, pre.last_tick);
                }
                self.bounds.push(WithTick { inner: *w, tick });
            }
        }
        let ev_opt: Option<DamageEvent> = match &msg {
            Message::GameEvent(GameEventData::PlayerHurt(e)) => Some(*e),
            _ => None,
        };
        if let Some(e) = ev_opt {
            proof {
                lemma_push_sorted(self.events@, WithTick { inner: e, tick }, pre.last_tick);
            }
            self.events.push(WithTick { inner: e, tick });
        }
        if let Message::StringEntry(entry) = msg {
            match self.roster.handle_string_entry(entry) {
                Err(e) => {
                    proof {
                        assert(*self == pre);
                    }
                    return Err(e);
                },
                Ok(()) => {},
            }
        }
        let ds = delta(&prev, &self.integrator.players);
        self.correlator.record_snapshots(&ds, tick);
        let ghost mid = *self;
        let mut i: usize = 0;
        proof {
            assert(ds@.take(0) =~= Seq::<Player>::empty());
            assert(mid.states@.take(mid.states@.len() as int) =~= mid.states@);
            assert(mid.states@.skip(mid.states@.len() as int) =~= Seq::<
                WithTick<Snapshot>,
            >::empty());
        }
        while i < ds.len()
            invariant
                i <= ds@.len(),
                self.integrator == mid.integrator,
                self.events == mid.events,
                self.bounds == mid.bounds,
                self.roster == mid.roster,
                self.correlator == mid.correlator,
                self.last_tick == mid.last_tick,
                self.states@.len() == mid.states@.len() + identified_players(
                    ds@.take(i as int),
                ).len(),
                self.states@.take(mid.states@.len() as int) == mid.states@,
                snapshots_match(
                    self.states@.skip(mid.states@.len() as int),
                    identified_players(ds@.take(i as int)),
                    tick,
                ),
                ticks_non_decreasing(self.states@),
                forall|k: int| 0 <= k < self.states@.len() ==> self.states@[k].tick <= tick,
            decreases ds@.len() - i,
        {
            let ghost done = identified_players(ds@.take(i as int));
            let ghost prev_i = i as int;
            let p = ds[i];
            i += 1;
            proof {
                assert(ds@.take(i as int).drop_last() =~= ds@.take(prev_i));
                assert(ds@.take(i as int).last() == ds@[prev_i]);
            }
            if p.user_id.is_some() {
                let s = Snapshot::from_player(&p);
                let w = WithTick { inner: s, tick };
                let ghost old_states = self.states@;
                proof {
                    assert(identified_players(ds@.take(i as int)) == done.push(ds@[prev_i]));
                    lemma_push_sorted(self.states@, w, tick);
                }
                self.states.push(w);
                proof {
                    assert(self.states@.take(mid.states@.len() as int) =~= old_states.take(
                        mid.states@.len() as int,
                    ));
                    assert(self.states@.skip(mid.states@.len() as int) =~= old_states.skip(
                        mid.states@.len() as int,
                    ).push(w));
                    lemma_snapshots_match_push(
                        old_states.skip(mid.states@.len() as int),
                        done,
                        tick,
                        w,
                        ds@[prev_i],
                    );
                }
            } else {
                proof {
                    assert(identified_players(ds@.take(i as int)) == identified_players(
                        ds@.take(prev_i),
                    ));
                }
            }
        }
        proof {
            assert(ds@.take(ds@.len() as int) =~= ds@);
            assert(self.integrator.players@ == players_after(pre.integrator.players@, msg));
            assert(ds@ == message_deltas(pre.integrator.players@, msg));
            assert(mid.states@ == pre.states@);
        }
        let trace = match ev_opt {
            Some(e) => self.correlator.handle_damage(e, &self.integrator.players, &self.roster),
            None => None,
        };
        self.last_tick = tick;
        proof {
            assert forall|k: int| 0 <= k < self.events@.len() implies self.events@[k].tick
                <= tick by {
                if !(msg matches Message::GameEvent(GameEventData::PlayerHurt(_))) {
                    assert(self.events@ == pre.events@);
                    assert(pre.events@[k].tick <= pre.last_tick);
                }
            }
            assert forall|k: int| 0 <= k < self.bounds@.len() implies self.bounds@[k].tick
                <= tick by {
                if !(msg matches Message::WorldUpdate(_)) {
                    assert(self.bounds@ == pre.bounds@);
                    assert(pre.bounds@[k].tick <= pre.last_tick);
                } else if self.bounds@ == pre.bounds@ {
                    assert(pre.bounds@[k].tick <= pre.last_tick);
                }
            }
        }
        Ok(trace)
    }
}

} // verus!
