use demoreel::model::{
    Class, LifeState, Player, PlayerInfoFields, Profile, Snapshot, Team, Vec3Bits,
};

#[test]
fn snapshot_flattens_every_field() {
    let p = Player {
        entity: 4,
        user_id: Some(11),
        position: Vec3Bits { x: 1, y: 2, z: 3 },
        health: 85,
        max_health: 125,
        class: Class::Demoman,
        team: Team::Blue,
        view_angle: 0x42c80000,
        pitch_angle: 0x3f000000,
        state: LifeState::Dying,
        charge: 55,
        in_pvs: false,
        simtime: 7,
    };
    let s = Snapshot::from_player(&p);
    assert_eq!(s.position, Vec3Bits { x: 1, y: 2, z: 3 });
    assert_eq!(s.health, 85);
    assert_eq!(s.max_health, 125);
    assert_eq!(s.class, "demoman");
    assert_eq!(s.team, "blu");
    assert_eq!(s.view_angle, 0x42c80000);
    assert_eq!(s.pitch_angle, 0x3f000000);
    assert_eq!(s.state, "dying");
    assert_eq!(s.user_id, Some(11));
    assert_eq!(s.charge, 55);
    assert!(!s.in_pvs);
    assert_eq!(s.simtime, 7);
}

#[test]
fn every_class_team_and_state_name() {
    let classes = [
        (Class::Other, "other"),
        (Class::Scout, "scout"),
        (Class::Sniper, "sniper"),
        (Class::Soldier, "soldier"),
        (Class::Demoman, "demoman"),
        (Class::Medic, "medic"),
        (Class::Heavy, "heavy"),
        (Class::Pyro, "pyro"),
        (Class::Spy, "spy"),
        (Class::Engineer, "engineer"),
    ];
    for (c, n) in classes {
        assert_eq!(c.name(), n);
    }
    let teams = [
        (Team::Other, "other"),
        (Team::Spectator, "spectator"),
        (Team::Red, "red"),
        (Team::Blue, "blu"),
    ];
    for (t, n) in teams {
        assert_eq!(t.name(), n);
    }
    let states = [
        (LifeState::Alive, "alive"),
        (LifeState::Dying, "dying"),
        (LifeState::Death, "death"),
        (LifeState::Respawnable, "queue"),
    ];
    for (s, n) in states {
        assert_eq!(s.name(), n);
    }
}

#[test]
fn profile_flags_come_from_non_zero_bytes() {
    let info = PlayerInfoFields {
        name: "p".to_string(),
        user_id: 3,
        steam_id: "S".to_string(),
        friends_id: 9,
        is_fake_player: 2,
        is_hl_tv: 0,
        is_replay: 1,
        more_extra: 0,
        custom_file: [1, 2, 3, 4],
        files_downloaded: 6,
    };
    let p = Profile::from_info(info);
    assert_eq!(p.name, "p");
    assert_eq!(p.user_id, 3);
    assert_eq!(p.steam_id, "S");
    assert_eq!(p.friends_id, 9);
    assert!(p.is_fake_player);
    assert!(!p.is_hl_tv);
    assert!(p.is_replay);
    assert!(!p.more_extra);
    assert_eq!(p.custom_file, [1, 2, 3, 4]);
    assert_eq!(p.files_downloaded, 6);
}
