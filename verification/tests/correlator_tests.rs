use demoreel::correlator::Correlator;
use demoreel::model::{Class, DamageEvent, LifeState, Player, Team, Vec3Bits};
use demoreel::roster::Roster;

fn player(entity: u32, user_id: Option<u16>, health: u16) -> Player {
    Player {
        entity,
        user_id,
        position: Vec3Bits { x: 0, y: 0, z: 0 },
        health,
        max_health: 100,
        class: Class::Soldier,
        team: Team::Blue,
        view_angle: 0,
        pitch_angle: 0,
        state: LifeState::Alive,
        charge: 0,
        in_pvs: true,
        simtime: 0,
    }
}

fn hurt(attacker: u16, victim: u16, amount: u16) -> DamageEvent {
    DamageEvent {
        attacker,
        victim,
        amount,
        health: 0,
        custom: 0,
        show_disguised_crit: false,
        crit: false,
        mini_crit: false,
        all_see_crit: false,
        weapon_id: 0,
        bonus_effect: 0,
    }
}

#[test]
fn qualifying_event_interleaves_both_histories() {
    // snapshots for ids 1 and 2 at ticks 1..5 each, then PlayerHurt(1 -> 2)
    let mut c = Correlator::new(None);
    let a = player(1, Some(1), 100);
    let v = player(2, Some(2), 100);
    for tick in 1..=5u32 {
        c.record_snapshots(&vec![a, v], tick);
    }
    let players = vec![a, v];
    let roster = Roster::new();
    let trace = c
        .handle_damage(hurt(1, 2, 10), &players, &roster)
        .expect("the event must qualify");
    assert_eq!(trace.attacker.user_id, Some(1));
    assert_eq!(trace.victim.user_id, Some(2));
    // count(id 2) + count(id 1) entries, victim first, most recent first
    assert_eq!(trace.states.len(), 10);
    let expected_ids = [2u16, 1, 2, 1, 2, 1, 2, 1, 2, 1];
    let expected_ticks = [5u32, 5, 4, 4, 3, 3, 2, 2, 1, 1];
    for (i, w) in trace.states.iter().enumerate() {
        assert_eq!(w.inner.user_id, Some(expected_ids[i]));
        assert_eq!(w.tick, expected_ticks[i]);
    }
    // both rings were drained
    assert_eq!(c.history.len(), 0);
}

#[test]
fn unresolved_attacker_changes_nothing() {
    // a PlayerHurt event whose attacker user id matches no known player
    let mut c = Correlator::new(None);
    let v = player(2, Some(2), 100);
    c.record_snapshots(&vec![v], 1);
    let players = vec![v];
    let roster = Roster::new();
    let trace = c.handle_damage(hurt(99, 2, 10), &players, &roster);
    assert!(trace.is_none());
    assert!(c.pending.is_none());
    assert!(c.last_pair.is_none());
    assert_eq!(c.history.len(), 1);
}

#[test]
fn unresolved_victim_changes_nothing() {
    let mut c = Correlator::new(None);
    let a = player(1, Some(1), 100);
    c.record_snapshots(&vec![a], 1);
    let players = vec![a];
    let roster = Roster::new();
    let trace = c.handle_damage(hurt(1, 42, 10), &players, &roster);
    assert!(trace.is_none());
    assert!(c.pending.is_none());
    assert_eq!(c.history.len(), 1);
}

#[test]
fn second_event_on_same_victim_is_suppressed() {
    // two PlayerHurt events on the same victim in immediate succession:
    // only the first produces a trace
    let mut c = Correlator::new(None);
    let a = player(1, Some(1), 100);
    let v = player(2, Some(2), 100);
    for tick in 1..=3u32 {
        c.record_snapshots(&vec![a, v], tick);
    }
    let players = vec![a, v];
    let roster = Roster::new();
    assert!(c.handle_damage(hurt(1, 2, 10), &players, &roster).is_some());
    // more snapshots arrive, so the victim's ring is non-empty again
    c.record_snapshots(&vec![a, v], 4);
    assert!(c.handle_damage(hurt(1, 2, 5), &players, &roster).is_none());
    // a different victim is traced again
    c.record_snapshots(&vec![a, v], 5);
    assert!(c.handle_damage(hurt(2, 1, 5), &players, &roster).is_some());
}

#[test]
fn empty_victim_ring_does_not_qualify() {
    let mut c = Correlator::new(None);
    let a = player(1, Some(1), 100);
    let v = player(2, Some(2), 100);
    // only the attacker has history
    c.record_snapshots(&vec![a], 1);
    let players = vec![a, v];
    let roster = Roster::new();
    assert!(c.handle_damage(hurt(1, 2, 10), &players, &roster).is_none());
    // the resolved attacker still becomes pending
    assert_eq!(c.pending.map(|p| p.user_id), Some(Some(1)));
}

#[test]
fn trace_sides_are_capped_at_recent_entries() {
    let mut c = Correlator::new(None);
    let a = player(1, Some(1), 100);
    let v = player(2, Some(2), 100);
    for tick in 1..=200u32 {
        c.record_snapshots(&vec![a, v], tick);
    }
    let players = vec![a, v];
    let roster = Roster::new();
    let trace = c
        .handle_damage(hurt(1, 2, 10), &players, &roster)
        .expect("the event must qualify");
    // each side truncated to its 128 most recent entries
    assert_eq!(trace.states.len(), 256);
    assert_eq!(trace.states[0].tick, 200);
    assert_eq!(trace.states[255].tick, 73);
}

#[test]
fn source_filter_resolves_attacker_by_persistent_id() {
    let mut c = Correlator::new(Some("STEAM_X".to_string()));
    let a = player(1, Some(1), 100);
    let v = player(2, Some(2), 100);
    for tick in 1..=2u32 {
        c.record_snapshots(&vec![a, v], tick);
    }
    let players = vec![a, v];
    let mut roster = Roster::new();
    roster.insert(demoreel::model::Profile {
        name: "src".to_string(),
        user_id: 1,
        steam_id: "STEAM_X".to_string(),
        friends_id: 0,
        is_fake_player: false,
        is_hl_tv: false,
        is_replay: false,
        custom_file: [0; 4],
        files_downloaded: 0,
        more_extra: false,
    });
    // the event's attacker id agrees with the configured identity's user id
    let trace = c.handle_damage(hurt(1, 2, 10), &players, &roster);
    assert!(trace.is_some());
    // the resolved attacker is pending now
    assert_eq!(c.pending.map(|p| p.user_id), Some(Some(1)));
}

#[test]
fn source_filter_without_roster_match_aborts() {
    let mut c = Correlator::new(Some("STEAM_X".to_string()));
    let a = player(1, Some(1), 100);
    let v = player(2, Some(2), 100);
    c.record_snapshots(&vec![a, v], 1);
    let players = vec![a, v];
    let roster = Roster::new();
    assert!(c.handle_damage(hurt(1, 2, 10), &players, &roster).is_none());
    assert!(c.pending.is_none());
}
