use demoreel::model::{
    Class, DamageEvent, GameEventData, LifeState, Message, Player, TableEntry, Team, Vec3Bits,
    WorldBounds,
};
use demoreel::tracer::Tracer;

fn player(entity: u32, user_id: Option<u16>, health: u16) -> Player {
    Player {
        entity,
        user_id,
        position: Vec3Bits { x: 0, y: 0, z: 0 },
        health,
        max_health: 100,
        class: Class::Medic,
        team: Team::Red,
        view_angle: 0x3f800000,
        pitch_angle: 0,
        state: LifeState::Alive,
        charge: 40,
        in_pvs: true,
        simtime: 9,
    }
}

fn hurt(attacker: u16, victim: u16, amount: u16) -> DamageEvent {
    DamageEvent {
        attacker,
        victim,
        amount,
        health: 0,
        custom: 0,
        show_disguised_crit: false,
        crit: false,
        mini_crit: false,
        all_see_crit: false,
        weapon_id: 0,
        bonus_effect: 0,
    }
}

fn bounds(x: u32) -> WorldBounds {
    WorldBounds {
        min: Vec3Bits { x, y: 0, z: 0 },
        max: Vec3Bits { x: x + 1, y: 1, z: 1 },
    }
}

#[test]
fn snapshots_are_recorded_for_identified_players() {
    let mut t = Tracer::new();
    t.handle_message(Message::PlayerUpdate(player(1, Some(7), 100)), 1)
        .unwrap();
    assert_eq!(t.states.len(), 1);
    assert_eq!(t.states[0].tick, 1);
    assert_eq!(t.states[0].inner.user_id, Some(7));
    assert_eq!(t.states[0].inner.class, "medic");
    assert_eq!(t.states[0].inner.team, "red");
    assert_eq!(t.states[0].inner.state, "alive");
    // an unidentified player produces no snapshot of its own, but the
    // identified one is snapshotted again as part of the delta
    t.handle_message(Message::PlayerUpdate(player(2, None, 50)), 2)
        .unwrap();
    assert_eq!(t.states.len(), 2);
    assert_eq!(t.states[1].tick, 2);
    assert_eq!(t.states[1].inner.user_id, Some(7));
}

#[test]
fn bounds_are_recorded_only_on_change() {
    let mut t = Tracer::new();
    assert_eq!(t.bounds.len(), 0);
    t.handle_message(Message::WorldUpdate(bounds(0)), 1).unwrap();
    assert_eq!(t.bounds.len(), 1);
    t.handle_message(Message::WorldUpdate(bounds(0)), 2).unwrap();
    assert_eq!(t.bounds.len(), 1);
    t.handle_message(Message::WorldUpdate(bounds(5)), 3).unwrap();
    assert_eq!(t.bounds.len(), 2);
    assert_eq!(t.bounds[0].tick, 1);
    assert_eq!(t.bounds[1].tick, 3);
    assert_eq!(t.bounds[1].inner, bounds(5));
}

#[test]
fn damage_events_are_collected_with_their_tick() {
    let mut t = Tracer::new();
    let e = hurt(1, 2, 25);
    t.handle_message(Message::GameEvent(GameEventData::PlayerHurt(e)), 12)
        .unwrap();
    t.handle_message(Message::GameEvent(GameEventData::Other), 13).unwrap();
    assert_eq!(t.events.len(), 1);
    assert_eq!(t.events[0].tick, 12);
    assert_eq!(t.events[0].inner, e);
}

#[test]
fn output_ticks_are_non_decreasing() {
    let mut t = Tracer::new();
    t.handle_message(Message::PlayerUpdate(player(1, Some(1), 100)), 1).unwrap();
    t.handle_message(Message::WorldUpdate(bounds(0)), 2).unwrap();
    t.handle_message(Message::PlayerUpdate(player(2, Some(2), 90)), 2).unwrap();
    t.handle_message(
        Message::GameEvent(GameEventData::PlayerHurt(hurt(1, 2, 5))),
        3,
    )
    .unwrap();
    t.handle_message(Message::PlayerUpdate(player(1, Some(1), 80)), 5).unwrap();
    t.handle_message(Message::WorldUpdate(bounds(9)), 7).unwrap();
    for w in t.states.windows(2) {
        assert!(w[0].tick <= w[1].tick);
    }
    for w in t.events.windows(2) {
        assert!(w[0].tick <= w[1].tick);
    }
    for w in t.bounds.windows(2) {
        assert!(w[0].tick <= w[1].tick);
    }
}

#[test]
fn full_scenario_emits_one_trace() {
    // snapshots for ids 1 and 2 at ticks 1..5, then PlayerHurt(1 -> 2, 10)
    let mut t = Tracer::new();
    for tick in 1..=5u32 {
        t.handle_message(Message::PlayerUpdate(player(1, Some(1), 100)), tick).unwrap();
        t.handle_message(Message::PlayerUpdate(player(2, Some(2), 100)), tick).unwrap();
    }
    let before_victim = t
        .correlator
        .history
        .iter()
        .filter(|w| w.inner.user_id == Some(2))
        .count();
    let before_attacker = t
        .correlator
        .history
        .iter()
        .filter(|w| w.inner.user_id == Some(1))
        .count();
    let emitted = t
        .handle_message(
            Message::GameEvent(GameEventData::PlayerHurt(hurt(1, 2, 10))),
            5,
        )
        .unwrap()
        .expect("one trace for (1, 2)");
    assert_eq!(emitted.attacker.user_id, Some(1));
    assert_eq!(emitted.victim.user_id, Some(2));
    // the game-event message itself contributes one more delta snapshot per
    // identified player before correlation
    assert_eq!(emitted.states.len(), (before_victim + 1) + (before_attacker + 1));
    assert!(emitted.states.len() <= 256);
    // interleaved, victim first
    assert_eq!(emitted.states[0].inner.user_id, Some(2));
    assert_eq!(emitted.states[1].inner.user_id, Some(1));
    // a second hurt on the same victim right away: suppressed
    let again = t
        .handle_message(
            Message::GameEvent(GameEventData::PlayerHurt(hurt(1, 2, 10))),
            5,
        )
        .unwrap();
    assert!(again.is_none());
}

#[test]
fn source_filter_restricts_correlation() {
    let mut t = demoreel::tracer::Tracer::with_source(Some("STEAM_1:0:42".to_string()));
    t.roster.insert(demoreel::model::Profile {
        name: "src".to_string(),
        user_id: 1,
        steam_id: "STEAM_1:0:42".to_string(),
        friends_id: 0,
        is_fake_player: false,
        is_hl_tv: false,
        is_replay: false,
        custom_file: [0; 4],
        files_downloaded: 0,
        more_extra: false,
    });
    for tick in 1..=3u32 {
        t.handle_message(Message::PlayerUpdate(player(1, Some(1), 100)), tick).unwrap();
        t.handle_message(Message::PlayerUpdate(player(2, Some(2), 100)), tick).unwrap();
    }
    // an event from the configured identity's user id is traced
    let emitted = t
        .handle_message(
            Message::GameEvent(GameEventData::PlayerHurt(hurt(1, 2, 3))),
            3,
        )
        .unwrap();
    assert!(emitted.is_some());
}

#[test]
fn string_entry_errors_leave_the_tracer_unchanged() {
    let mut t = Tracer::new();
    t.handle_message(Message::PlayerUpdate(player(1, Some(1), 100)), 1).unwrap();
    let states_before = t.states.len();
    let entry = TableEntry {
        table: "userinfo".to_string(),
        index: 0,
        text: None,
        extra: Some(vec![9]),
    };
    assert!(t.handle_message(Message::StringEntry(entry), 2).is_err());
    assert_eq!(t.states.len(), states_before);
    assert_eq!(t.roster.roster.len(), 0);
    assert_eq!(t.last_tick, 1);
}

#[test]
fn non_userinfo_entries_pass_through() {
    let mut t = Tracer::new();
    let entry = TableEntry {
        table: "instancebaseline".to_string(),
        index: 0,
        text: None,
        extra: Some(vec![9]),
    };
    assert!(t.handle_message(Message::StringEntry(entry), 1).is_ok());
    assert_eq!(t.roster.roster.len(), 0);
}
