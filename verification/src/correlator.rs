//! The damage correlator: consumes combat events plus per-tick player
//! deltas, resolves attacker and victim identity, keeps a per-player history
//! of recent snapshots, and emits a correlated trace when an event qualifies
//! as a new damage instance.

use vstd::prelude::*;

use crate::delta::same_key;
use crate::model::{DamageEvent, Player, Profile, WithTick};
use crate::roster::Roster;

verus! {

/// Only this many most recent snapshots per side enter a trace.
pub const RECENT_CAP: usize = 128;

/// A correlated damage trace: the resolved attacker and victim, and the
/// interleaved sequence of their recent snapshots, most recent first.
pub struct DamageTrace {
    pub attacker: Player,
    pub victim: Player,
    pub states: Vec<WithTick<Player>>,
}

/// The retained snapshots of the player with user id `uid`, in emission
/// order: that player's history ring.
pub open spec fn history_of(h: Seq<WithTick<Player>>, uid: u16) -> Seq<WithTick<Player>>
    decreases h.len(),
{
    if h.len() == 0 {
        Seq::empty()
    } else {
        let init = history_of(h.drop_last(), uid);
        if h.last().inner.user_id == Some(uid) {
            init.push(h.last())
        } else {
            init
        }
    }
}

/// The retained snapshots with the ring of user id `uid` drained away.
pub open spec fn without_id(h: Seq<WithTick<Player>>, uid: u16) -> Seq<WithTick<Player>>
    decreases h.len(),
{
    if h.len() == 0 {
        Seq::empty()
    } else {
        let init = without_id(h.drop_last(), uid);
        if h.last().inner.user_id == Some(uid) {
            init
        } else {
            init.push(h.last())
        }
    }
}

/// The snapshots taken of a delta batch at one tick: every delta player
/// with a resolved identity, tick-stamped, in batch order.
pub open spec fn stamped_identified(ds: Seq<Player>, tick: u32) -> Seq<WithTick<Player>>
    decreases ds.len(),
{
    if ds.len() == 0 {
        Seq::empty()
    } else {
        let init = stamped_identified(ds.drop_last(), tick);
        if ds.last().user_id is Some {
            init.push(WithTick { inner: ds.last(), tick })
        } else {
            init
        }
    }
}

/// The delta players of one batch that carry a resolved identity, in batch
/// order: the ones a snapshot is recorded for.
pub open spec fn identified_players(ds: Seq<Player>) -> Seq<Player>
    decreases ds.len(),
{
    if ds.len() == 0 {
        Seq::empty()
    } else {
        let init = identified_players(ds.drop_last());
        if ds.last().user_id is Some {
            init.push(ds.last())
        } else {
            init
        }
    }
}

/// The first player of `s` whose identity is user id `uid`.
pub open spec fn find_by_uid(s: Seq<Player>, uid: u16) -> Option<Player>
    decreases s.len(),
{
    if s.len() == 0 {
        None
    } else if s[0].user_id == Some(uid) {
        Some(s[0])
    } else {
        find_by_uid(s.drop_first(), uid)
    }
}

/// The user id of the first roster identity whose persistent id is `sid`.
pub open spec fn uid_for_persistent(s: Seq<Profile>, sid: Seq<char>) -> Option<u16>
    decreases s.len(),
{
    if s.len() == 0 {
        None
    } else if s[0].steam_id@ == sid {
        Some(s[0].user_id)
    } else {
        uid_for_persistent(s.drop_first(), sid)
    }
}

/// How an attacker is resolved for one damage event: under a configured
/// source-identity filter it is the pending attacker if one exists, else the
/// player currently matching the configured persistent id; without a filter
/// it is the player currently matching the event's attacker user id.
pub open spec fn resolved_attacker(
    source: Option<String>,
    pending: Option<Player>,
    players: Seq<Player>,
    roster: Seq<Profile>,
    ev: DamageEvent,
) -> Option<Player> {
    match source {
        Some(sid) => match pending {
            Some(p) => Some(p),
            None => match uid_for_persistent(roster, sid@) {
                Some(uid) => find_by_uid(players, uid),
                None => None,
            },
        },
        None => find_by_uid(players, ev.attacker),
    }
}

/// The duplicate-suppression tie-break: an event counts as a new damage
/// instance only if the previously-traced victim differs from the resolved
/// victim, the attacker's own identity (when present) matches the event's
/// attacker user id, and the victim's history ring is non-empty.
pub open spec fn event_qualifies(
    last_pair: Option<(u16, u16)>,
    attacker: Player,
    ev: DamageEvent,
    victim_hist_len: nat,
) -> bool {
    &&& match last_pair {
        Some(pair) => pair.1 != ev.victim,
        None => true,
    }
    &&& match attacker.user_id {
        Some(uid) => uid == ev.attacker,
        None => true,
    }
    &&& victim_hist_len > 0
}

/// Duplicate suppression: once a trace has been emitted for a victim (so
/// the previously-traced pair names that victim's user id), an immediately
/// following damage event on the same victim cannot qualify, whatever its
/// attacker and however much history has accumulated.
pub proof fn lemma_duplicate_suppression(
    pair: (u16, u16),
    attacker: Player,
    ev: DamageEvent,
    victim_hist_len: nat,
)
    requires
        ev.victim == pair.1,
    ensures
        !event_qualifies(Some(pair), attacker, ev, victim_hist_len),
{
}

/// A history ring reversed to most-recent-first and truncated to the most
/// recent `RECENT_CAP` entries.
pub open spec fn most_recent(h: Seq<WithTick<Player>>) -> Seq<WithTick<Player>> {
    if h.len() <= RECENT_CAP {
        h.reverse()
    } else {
        h.reverse().take(RECENT_CAP as int)
    }
}

/// Element-by-element interleaving, first element of `v` first, continuing
/// with whichever side has remaining entries once the other is exhausted.
pub open spec fn interleave<T>(v: Seq<T>, a: Seq<T>) -> Seq<T>
    decreases v.len() + a.len(),
{
    if v.len() == 0 {
        a
    } else {
        seq![v[0]] + interleave(a, v.drop_first())
    }
}

/// The interleave law: the interleaving of `v` and `a` has length
/// `v.len() + a.len()`; while both sides last it alternates
/// `v[0], a[0], v[1], a[1], ...`, and past the shorter side it continues
/// with the longer side's remainder in order.
pub proof fn lemma_interleave_law<T>(v: Seq<T>, a: Seq<T>)
    ensures
        interleave(v, a).len() == v.len() + a.len(),
        forall|i: int|
            0 <= i < v.len() && i < a.len() ==> interleave(v, a)[2 * i] == v[i] && interleave(
                v,
                a,
            )[2 * i + 1] == a[i],
        v.len() <= a.len() ==> forall|k: int|
            2 * v.len() <= k < v.len() + a.len() ==> interleave(v, a)[k] == a[k - v.len()],
        a.len() < v.len() ==> forall|k: int|
            2 * a.len() <= k < v.len() + a.len() ==> interleave(v, a)[k] == v[k - a.len()],
    decreases v.len() + a.len(),
{
    if v.len() > 0 {
        lemma_interleave_law(a, v.drop_first());
        let rest = interleave(a, v.drop_first());
        assert forall|i: int|
            0 <= i < v.len() && i < a.len() implies interleave(v, a)[2 * i] == v[i] && interleave(
            v,
            a,
        )[2 * i + 1] == a[i] by {
            if i == 0 {
                assert(interleave(v, a)[0] == v[0]);
                assert(interleave(v, a)[1] == rest[0]);
                assert(rest[0] == a[0]);
            } else {
                assert(interleave(v, a)[2 * i] == rest[2 * i - 1]);
                assert(interleave(v, a)[2 * i + 1] == rest[2 * i]);
                assert(rest[2 * (i - 1) + 1] == v.drop_first()[i - 1]);
                assert(rest[2 * i] == a[i]);
            }
        }
        if v.len() <= a.len() {
            assert forall|k: int|
                2 * v.len() <= k < v.len() + a.len() implies interleave(v, a)[k] == a[k
                - v.len()] by {
                assert(interleave(v, a)[k] == rest[k - 1]);
                if v.drop_first().len() < a.len() {
                    assert(rest[k - 1] == a[(k - 1) - v.drop_first().len()]);
                } else {
                    assert(rest[k - 1] == a[(k - 1) - v.drop_first().len()]);
                }
            }
        }
        if a.len() < v.len() {
            assert forall|k: int|
                2 * a.len() <= k < v.len() + a.len() implies interleave(v, a)[k] == v[k
                - a.len()] by {
                if k == 0 {
                    assert(interleave(v, a)[0] == v[0]);
                } else if k == 2 * a.len() {
                    assert(interleave(v, a)[k] == rest[k - 1]);
                    assert(rest[2 * (a.len() - 1) + 1] == v.drop_first()[a.len() - 1]);
                } else {
                    assert(interleave(v, a)[k] == rest[k - 1]);
                    assert(rest[k - 1] == v.drop_first()[(k - 1) - a.len()]);
                }
            }
        }
    }
}

/// The history ring the attacker's drain yields once the victim's ring has
/// been drained: empty when the attacker has no identity (or shares the
/// victim's id, whose ring is already gone).
pub open spec fn attacker_ring(h: Seq<WithTick<Player>>, att: Player, victim_uid: u16) -> Seq<
    WithTick<Player>,
> {
    match att.user_id {
        Some(auid) => history_of(without_id(h, victim_uid), auid),
        None => Seq::empty(),
    }
}

/// The retained snapshots after a qualifying event drained the victim's
/// ring and the attacker's ring.
pub open spec fn drained(h: Seq<WithTick<Player>>, att: Player, victim_uid: u16) -> Seq<
    WithTick<Player>,
> {
    match att.user_id {
        Some(auid) => without_id(without_id(h, victim_uid), auid),
        None => without_id(h, victim_uid),
    }
}

/// The state sequence of a qualifying trace: the victim's and the
/// attacker's rings, each reversed to most-recent-first and truncated to
/// `RECENT_CAP` entries, interleaved victim-first.
pub open spec fn trace_states(h: Seq<WithTick<Player>>, att: Player, victim_uid: u16) -> Seq<
    WithTick<Player>,
> {
    interleave(most_recent(history_of(h, victim_uid)), most_recent(attacker_ring(h, att, victim_uid)))
}

/// The emitted state sequence of a qualifying trace holds the victim's and
/// the attacker's retained snapshots, each side truncated to its
/// `RECENT_CAP` most recent entries, so its length is the sum of the two
/// truncated ring lengths and never exceeds `2 * RECENT_CAP`.
pub proof fn lemma_trace_states_bound(h: Seq<WithTick<Player>>, att: Player, victim_uid: u16)
    ensures
        trace_states(h, att, victim_uid).len() == most_recent(history_of(h, victim_uid)).len()
            + most_recent(attacker_ring(h, att, victim_uid)).len(),
        most_recent(history_of(h, victim_uid)).len() <= RECENT_CAP,
        most_recent(attacker_ring(h, att, victim_uid)).len() <= RECENT_CAP,
        trace_states(h, att, victim_uid).len() <= 2 * RECENT_CAP,
{
    lemma_interleave_law(
        most_recent(history_of(h, victim_uid)),
        most_recent(attacker_ring(h, att, victim_uid)),
    );
}

proof fn lemma_history_of_nonempty(h: Seq<WithTick<Player>>, uid: u16)
    ensures
        (history_of(h, uid).len() > 0) == (exists|i: int|
            0 <= i < h.len() && h[i].inner.user_id == Some(uid)),
    decreases h.len(),
{
    if h.len() > 0 {
        lemma_history_of_nonempty(h.drop_last(), uid);
        if exists|i: int| 0 <= i < h.drop_last().len() && h.drop_last()[i].inner.user_id == Some(
            uid,
        ) {
            let i = choose|i: int|
                0 <= i < h.drop_last().len() && h.drop_last()[i].inner.user_id == Some(uid);
            assert(h[i] == h.drop_last()[i]);
        }
        if h.last().inner.user_id == Some(uid) {
            assert(h[h.len() - 1].inner.user_id == Some(uid));
        }
        if exists|i: int| 0 <= i < h.len() && h[i].inner.user_id == Some(uid) {
            let i = choose|i: int| 0 <= i < h.len() && h[i].inner.user_id == Some(uid);
            if i < h.len() - 1 {
                assert(h.drop_last()[i] == h[i]);
            }
        }
    }
}

/// The first player in `players` carrying user id `uid`.
pub fn find_player(players: &Vec<Player>, uid: u16) -> (r: Option<Player>)
    ensures
        r == find_by_uid(players@, uid),
{
    let mut i: usize = 0;
    proof {
        assert(players@.skip(0) =~= players@);
    }
    while i < players.len()
        invariant
            i <= players@.len(),
            find_by_uid(players@, uid) == find_by_uid(players@.skip(i as int), uid),
        decreases players@.len() - i,
    {
        proof {
            assert(players@.skip(i as int)[0] == players@[i as int]);
            assert(players@.skip(i as int).drop_first() =~= players@.skip(i as int + 1));
        }
        if same_key(players[i].user_id, Some(uid)) {
            return Some(players[i]);
        }
        i += 1;
    }
    proof {
        assert(players@.skip(players@.len() as int) =~= Seq::<Player>::empty());
    }
    None
}

/// The user id on the roster for the persistent id `sid`, if any.
pub fn find_uid_for_persistent(roster: &Roster, sid: &String) -> (r: Option<u16>)
    ensures
        r == uid_for_persistent(roster.roster@, sid@),
{
    let mut i: usize = 0;
    proof {
        assert(roster.roster@.skip(0) =~= roster.roster@);
    }
    while i < roster.roster.len()
        invariant
            i <= roster.roster@.len(),
            uid_for_persistent(roster.roster@, sid@) == uid_for_persistent(
                roster.roster@.skip(i as int),
                sid@,
            ),
        decreases roster.roster@.len() - i,
    {
        proof {
            assert(roster.roster@.skip(i as int)[0] == roster.roster@[i as int]);
            assert(roster.roster@.skip(i as int).drop_first() =~= roster.roster@.skip(
                i as int + 1,
            ));
        }
        let p = &roster.roster[i];
        if p.steam_id == *sid {
            return Some(p.user_id);
        }
        i += 1;
    }
    proof {
        assert(roster.roster@.skip(roster.roster@.len() as int) =~= Seq::<Profile>::empty());
    }
    None
}

/// Whether the history ring of `uid` is non-empty.
fn history_has(h: &Vec<WithTick<Player>>, uid: u16) -> (r: bool)
    ensures
        r == (history_of(h@, uid).len() > 0),
{
    let mut i: usize = 0;
    while i < h.len()
        invariant
            i <= h@.len(),
            forall|j: int| 0 <= j < i ==> h@[j].inner.user_id != Some(uid),
        decreases h@.len() - i,
    {
        if same_key(h[i].inner.user_id, Some(uid)) {
            proof {
                lemma_history_of_nonempty(h@, uid);
                assert(h@[i as int].inner.user_id == Some(uid));
            }
            return true;
        }
        i += 1;
    }
    proof {
        lemma_history_of_nonempty(h@, uid);
    }
    false
}

/// The correlator's process-local state, living for the duration of one
/// run.
pub struct Correlator {
    /// When present, restricts correlation to events where this persistent
    /// id is (or becomes, via pending-attacker carry-over) the attacker.
    pub source: Option<String>,
    /// All retained snapshots in emission order; the history ring of one
    /// player is the subsequence carrying that player's user id.
    pub history: Vec<WithTick<Player>>,
    /// The attacker resolved by the most recent damage event.
    pub pending: Option<Player>,
    /// The attacker and victim user ids of the previously emitted trace.
    pub last_pair: Option<(u16, u16)>,
}

impl Correlator {
    pub fn new(source: Option<String>) -> (c: Correlator)
        ensures
            c.source == source,
            c.history@ == Seq::<WithTick<Player>>::empty(),
            c.pending is None,
            c.last_pair is None,
    {
        Correlator { source, history: Vec::new(), pending: None, last_pair: None }
    }

    /// Appends a tick-stamped snapshot for every delta player with a
    /// resolved identity, unconditionally and independently of damage
    /// events: the raw material correlation draws from.
    pub fn record_snapshots(&mut self, deltas: &Vec<Player>, tick: u32)
        ensures
            final(self).history@ == old(self).history@ + stamped_identified(deltas@, tick),
            final(self).source == old(self).source,
            final(self).pending == old(self).pending,
            final(self).last_pair == old(self).last_pair,
    {
        let mut i: usize = 0;
        while i < deltas.len()
            invariant
                i <= deltas@.len(),
                self.history@ == old(self).history@ + stamped_identified(
                    deltas@.take(i as int),
                    tick,
                ),
                self.source == old(self).source,
                self.pending == old(self).pending,
                self.last_pair == old(self).last_pair,
            decreases deltas@.len() - i,
        {
            proof {
                assert(deltas@.take(i as int + 1).drop_last() =~= deltas@.take(i as int));
                assert(deltas@.take(i as int + 1).last() == deltas@[i as int]);
            }
            let p = deltas[i];
            if p.user_id.is_some() {
                let w = WithTick { inner: p, tick };
                proof {
                    assert(old(self).history@ + stamped_identified(deltas@.take(i as int), tick).push(w)
                        =~= (old(self).history@ + stamped_identified(deltas@.take(i as int), tick)).push(w));
                }
                self.history.push(w);
            }
            i += 1;
        }
        proof {
            assert(deltas@.take(deltas@.len() as int) =~= deltas@);
        }
    }

    /// Removes and returns the history ring of `uid`, in emission order.
    fn drain_history(&mut self, uid: u16) -> (out: Vec<WithTick<Player>>)
        ensures
            out@ == history_of(old(self).history@, uid),
            final(self).history@ == without_id(old(self).history@, uid),
            final(self).source == old(self).source,
            final(self).pending == old(self).pending,
            final(self).last_pair == old(self).last_pair,
    {
        let mut matched: Vec<WithTick<Player>> = Vec::new();
        let mut rest: Vec<WithTick<Player>> = Vec::new();
        let mut i: usize = 0;
        while i < self.history.len()
            invariant
                i <= self.history@.len(),
                *self == *old(self),
                matched@ == history_of(self.history@.take(i as int), uid),
                rest@ == without_id(self.history@.take(i as int), uid),
            decreases self.history@.len() - i,
        {
            proof {
                assert(self.history@.take(i as int + 1).drop_last() =~= self.history@.take(
                    i as int,
                ));
                assert(self.history@.take(i as int + 1).last() == self.history@[i as int]);
            }
            let w = self.history[i];
            if same_key(w.inner.user_id, Some(uid)) {
                matched.push(w);
            } else {
                rest.push(w);
            }
            i += 1;
        }
        proof {
            assert(self.history@.take(self.history@.len() as int) =~= self.history@);
        }
        self.history = rest;
        matched
    }

    /// Reverses a drained ring to most-recent-first and truncates it to the
    /// most recent `RECENT_CAP` entries.
    fn most_recent_of(h: &Vec<WithTick<Player>>) -> (r: Vec<WithTick<Player>>)
        ensures
            r@ == most_recent(h@),
    {
        let mut r: Vec<WithTick<Player>> = Vec::new();
        let mut i: usize = h.len();
        while i > 0 && r.len() < RECENT_CAP
            invariant
                i <= h@.len(),
                r@.len() == h@.len() - i,
                r@.len() <= RECENT_CAP,
                forall|j: int| 0 <= j < r@.len() ==> r@[j] == h@[h@.len() - 1 - j],
            decreases i,
        {
            i -= 1;
            r.push(h[i]);
        }
        proof {
            if h@.len() <= RECENT_CAP {
                assert(r@ =~= h@.reverse());
            } else {
                assert(r@ =~= h@.reverse().take(RECENT_CAP as int));
            }
        }
        r
    }

    /// Interleaves two most-recent-first rings, victim side first.
    fn interleave_players(v: Vec<WithTick<Player>>, a: Vec<WithTick<Player>>) -> (r: Vec<
        WithTick<Player>,
    >)
        ensures
            r@ == interleave(v@, a@),
    {
        let mut r: Vec<WithTick<Player>> = Vec::new();
        let mut iv: usize = 0;
        let mut ia: usize = 0;
        let mut v_turn: bool = true;
        proof {
            assert(v@.skip(0) =~= v@);
            assert(a@.skip(0) =~= a@);
            assert(r@ + interleave(v@, a@) =~= interleave(v@, a@));
        }
        while iv < v.len() || ia < a.len()
            invariant
                iv <= v@.len(),
                ia <= a@.len(),
                v_turn ==> interleave(v@, a@) == r@ + interleave(
                    v@.skip(iv as int),
                    a@.skip(ia as int),
                ),
                !v_turn ==> interleave(v@, a@) == r@ + interleave(
                    a@.skip(ia as int),
                    v@.skip(iv as int),
                ),
            decreases v@.len() - iv + a@.len() - ia,
        {
            if v_turn {
                if iv < v.len() {
                    proof {
                        let sv = v@.skip(iv as int);
                        let sa = a@.skip(ia as int);
                        assert(sv[0] == v@[iv as int]);
                        assert(sv.drop_first() =~= v@.skip(iv as int + 1));
                        assert(r@ + (seq![sv[0]] + interleave(sa, sv.drop_first())) =~= r@.push(
                            v@[iv as int],
                        ) + interleave(sa, v@.skip(iv as int + 1)));
                    }
                    r.push(v[iv]);
                    iv += 1;
                    v_turn = false;
                } else {
                    proof {
                        let sa = a@.skip(ia as int);
                        assert(v@.skip(iv as int) =~= Seq::<WithTick<Player>>::empty());
                        assert(sa[0] == a@[ia as int]);
                        assert(sa.drop_first() =~= a@.skip(ia as int + 1));
                        assert(r@ + sa =~= r@.push(a@[ia as int]) + a@.skip(ia as int + 1));
                        assert(interleave(
                            v@.skip(iv as int),
                            a@.skip(ia as int + 1),
                        ) == a@.skip(ia as int + 1));
                    }
                    r.push(a[ia]);
                    ia += 1;
                }
            } else {
                if ia < a.len() {
                    proof {
                        let sa = a@.skip(ia as int);
                        let sv = v@.skip(iv as int);
                        assert(sa[0] == a@[ia as int]);
                        assert(sa.drop_first() =~= a@.skip(ia as int + 1));
                        assert(r@ + (seq![sa[0]] + interleave(sv, sa.drop_first())) =~= r@.push(
                            a@[ia as int],
                        ) + interleave(sv, a@.skip(ia as int + 1)));
                    }
                    r.push(a[ia]);
                    ia += 1;
                    v_turn = true;
                } else {
                    proof {
                        let sv = v@.skip(iv as int);
                        assert(a@.skip(ia as int) =~= Seq::<WithTick<Player>>::empty());
                        assert(sv[0] == v@[iv as int]);
                        assert(sv.drop_first() =~= v@.skip(iv as int + 1));
                        assert(r@ + sv =~= r@.push(v@[iv as int]) + v@.skip(iv as int + 1));
                        assert(interleave(
                            a@.skip(ia as int),
                            v@.skip(iv as int + 1),
                        ) == v@.skip(iv as int + 1));
                    }
                    r.push(v[iv]);
                    iv += 1;
                }
            }
        }
        proof {
            assert(v@.skip(iv as int) =~= Seq::<WithTick<Player>>::empty());
            assert(a@.skip(ia as int) =~= Seq::<WithTick<Player>>::empty());
            assert(r@ + Seq::<WithTick<Player>>::empty() =~= r@);
        }
        r
    }

    /// Resolves the attacker of one damage event against the current player
    /// list and roster.
    fn resolve_attacker(&self, players: &Vec<Player>, roster: &Roster, ev: DamageEvent) -> (r:
        Option<Player>)
        ensures
            r == resolved_attacker(self.source, self.pending, players@, roster.roster@, ev),
    {
        match &self.source {
            Some(sid) => match self.pending {
                Some(p) => Some(p),
                None => match find_uid_for_persistent(roster, sid) {
                    Some(uid) => find_player(players, uid),
                    None => None,
                },
            },
            None => find_player(players, ev.attacker),
        }
    }

    /// Processes one damage event. Resolution failure of attacker or victim
    /// aborts the event with no state change — expected, not an error. On a
    /// qualifying event the victim's and attacker's rings are drained,
    /// reversed, truncated and interleaved into the emitted trace, and the
    /// traced pair is recorded; whether or not the event qualified, the
    /// resolved attacker becomes the new pending attacker.
    pub fn handle_damage(&mut self, ev: DamageEvent, players: &Vec<Player>, roster: &Roster) -> (r:
        Option<DamageTrace>)
        ensures
            final(self).source == old(self).source,
            resolved_attacker(old(self).source, old(self).pending, players@, roster.roster@, ev)
                is None ==> r is None && *final(self) == *old(self),
            resolved_attacker(old(self).source, old(self).pending, players@, roster.roster@, ev)
                matches Some(att) ==> find_by_uid(players@, ev.victim) is None ==> (r is None
                && *final(self) == *old(self)),
            resolved_attacker(old(self).source, old(self).pending, players@, roster.roster@, ev)
                matches Some(att) ==> find_by_uid(players@, ev.victim) matches Some(vic) ==> {
                &&& final(self).pending == Some(att)
                &&& if event_qualifies(
                    old(self).last_pair,
                    att,
                    ev,
                    history_of(old(self).history@, ev.victim).len(),
                ) {
                    &&& final(self).last_pair == Some((ev.attacker, ev.victim))
                    &&& final(self).history@ == drained(old(self).history@, att, ev.victim)
                    &&& r matches Some(tr) && tr.attacker == att && tr.victim == vic
                        && tr.states@ == trace_states(old(self).history@, att, ev.victim)
                } else {
                    &&& r is None
                    &&& final(self).history@ == old(self).history@
                    &&& final(self).last_pair == old(self).last_pair
                }
            },
    {
        let att = match self.resolve_attacker(players, roster, ev) {
            Some(a) => a,
            None => {
                return None;
            },
        };
        let vic = match find_player(players, ev.victim) {
            Some(v) => v,
            None => {
                return None;
            },
        };
        let fresh_victim = match self.last_pair {
            Some(pair) => pair.1 != ev.victim,
            None => true,
        };
        let att_matches = match att.user_id {
            Some(uid) => uid == ev.attacker,
            None => true,
        };
        let has_hist = history_has(&self.history, ev.victim);
        let result = if fresh_victim && att_matches && has_hist {
            let vh = self.drain_history(ev.victim);
            let ah = match att.user_id {
                Some(auid) => self.drain_history(auid),
                None => Vec::new(),
            };
            let states = Self::interleave_players(
                Self::most_recent_of(&vh),
                Self::most_recent_of(&ah),
            );
            self.last_pair = Some((ev.attacker, ev.victim));
            Some(DamageTrace { attacker: att, victim: vic, states })
        } else {
            None
        };
        self.pending = Some(att);
        result
    }
}

} // verus!
