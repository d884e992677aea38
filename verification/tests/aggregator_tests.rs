use demoreel::aggregator::Aggregator;
use demoreel::model::{Class, LifeState, Message, Player, Team, Vec3Bits, WorldBounds};

fn player(entity: u32, health: u16) -> Player {
    Player {
        entity,
        user_id: Some(entity as u16),
        position: Vec3Bits { x: 0, y: 0, z: 0 },
        health,
        max_health: 100,
        class: Class::Spy,
        team: Team::Spectator,
        view_angle: 0,
        pitch_angle: 0,
        state: LifeState::Death,
        charge: 0,
        in_pvs: true,
        simtime: 0,
    }
}

#[test]
fn player_updates_replace_by_entity_slot() {
    let mut a = Aggregator::new();
    a.apply(&Message::PlayerUpdate(player(1, 100)));
    a.apply(&Message::PlayerUpdate(player(2, 90)));
    assert_eq!(a.current_players().len(), 2);
    a.apply(&Message::PlayerUpdate(player(1, 40)));
    let players = a.current_players();
    assert_eq!(players.len(), 2);
    assert_eq!(players[0].entity, 1);
    assert_eq!(players[0].health, 40);
    assert_eq!(players[1].entity, 2);
    assert_eq!(players[1].health, 90);
}

#[test]
fn world_geometry_replaces_the_bounds() {
    let mut a = Aggregator::new();
    assert!(a.current_world().is_none());
    let w1 = WorldBounds {
        min: Vec3Bits { x: 1, y: 2, z: 3 },
        max: Vec3Bits { x: 4, y: 5, z: 6 },
    };
    a.apply(&Message::WorldUpdate(w1));
    assert_eq!(a.current_world(), Some(w1));
    let w2 = WorldBounds {
        min: Vec3Bits { x: 7, y: 8, z: 9 },
        max: Vec3Bits { x: 10, y: 11, z: 12 },
    };
    a.apply(&Message::WorldUpdate(w2));
    assert_eq!(a.current_world(), Some(w2));
    // player list untouched by geometry
    assert_eq!(a.current_players().len(), 0);
}
