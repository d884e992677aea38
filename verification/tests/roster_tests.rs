use demoreel::model::{Profile, TableEntry};
use demoreel::roster::Roster;

fn profile(user_id: u16, name: &str, steam_id: &str) -> Profile {
    Profile {
        name: name.to_string(),
        user_id,
        steam_id: steam_id.to_string(),
        friends_id: 0,
        is_fake_player: false,
        is_hl_tv: false,
        is_replay: false,
        custom_file: [0; 4],
        files_downloaded: 0,
        more_extra: false,
    }
}

#[test]
fn roster_dedups_by_user_id_in_first_seen_order() {
    let mut r = Roster::new();
    r.insert(profile(7, "alpha", "A"));
    r.insert(profile(8, "beta", "B"));
    r.insert(profile(7, "alpha-again", "C"));
    r.insert(profile(9, "gamma", "D"));
    assert_eq!(r.roster.len(), 3);
    assert_eq!(r.roster[0].user_id, 7);
    assert_eq!(r.roster[0].name, "alpha");
    assert_eq!(r.roster[1].user_id, 8);
    assert_eq!(r.roster[2].user_id, 9);
}

#[test]
fn non_userinfo_tables_are_ignored() {
    let mut r = Roster::new();
    let entry = TableEntry {
        table: "downloadables".to_string(),
        index: 0,
        text: None,
        extra: Some(vec![1, 2, 3]),
    };
    assert!(r.handle_string_entry(entry).is_ok());
    assert_eq!(r.roster.len(), 0);
}

#[test]
fn userinfo_entry_without_payload_is_ignored() {
    let mut r = Roster::new();
    let entry = TableEntry {
        table: "userinfo".to_string(),
        index: 3,
        text: None,
        extra: None,
    };
    assert!(r.handle_string_entry(entry).is_ok());
    assert_eq!(r.roster.len(), 0);
}

#[test]
fn undecodable_userinfo_payload_is_reported() {
    let mut r = Roster::new();
    // far too short for a player-info record: the decode itself fails
    let entry = TableEntry {
        table: "userinfo".to_string(),
        index: 3,
        text: None,
        extra: Some(vec![1, 2, 3]),
    };
    let res = r.handle_string_entry(entry);
    match res {
        Err(e) => assert_eq!(e.describe(), "malformed player-info string-table payload"),
        Ok(()) => panic!("a three-byte player-info payload must not decode"),
    }
    assert_eq!(r.roster.len(), 0);
}

/// A raw player-info record as it stands in the wire format: 32 name
/// bytes, user id, 32 steam-id bytes, and the remaining fixed-width fields.
fn player_info_payload() -> Vec<u8> {
    let mut extra: Vec<u8> = Vec::new();
    let mut name = [0u8; 32];
    name[..5].copy_from_slice(b"alpha");
    extra.extend_from_slice(&name);
    extra.extend_from_slice(&21u32.to_le_bytes());
    let mut steam = [0u8; 32];
    steam[..9].copy_from_slice(b"STEAM_0:1");
    extra.extend_from_slice(&steam);
    extra.extend_from_slice(&0u32.to_le_bytes()); // extra
    extra.extend_from_slice(&5u32.to_le_bytes()); // friends id
    extra.extend_from_slice(&[0u8; 32]); // friends name
    extra.push(1); // is_fake_player
    extra.push(0); // is_hl_tv
    extra.push(0); // is_replay
    extra.push(0); // more_extra
    for _ in 0..4 {
        extra.extend_from_slice(&0u32.to_le_bytes()); // custom_file
    }
    extra.extend_from_slice(&2u32.to_le_bytes()); // files_downloaded
    extra
}

#[test]
fn well_formed_userinfo_payload_joins_the_roster() {
    let extra = player_info_payload();
    let mut r = Roster::new();
    let entry = TableEntry {
        table: "userinfo".to_string(),
        index: 3,
        text: Some("20".to_string()),
        extra: Some(extra.clone()),
    };
    assert!(r.handle_string_entry(entry).is_ok());
    assert_eq!(r.roster.len(), 1);
    assert_eq!(r.roster[0].user_id, 21);
    assert_eq!(r.roster[0].name, "alpha");
    assert_eq!(r.roster[0].steam_id, "STEAM_0:1");
    assert_eq!(r.roster[0].friends_id, 5);
    assert!(r.roster[0].is_fake_player);
    assert!(!r.roster[0].is_hl_tv);
    assert_eq!(r.roster[0].files_downloaded, 2);

    // the same user id again: silently ignored
    let again = TableEntry {
        table: "userinfo".to_string(),
        index: 3,
        text: Some("20".to_string()),
        extra: Some(extra),
    };
    assert!(r.handle_string_entry(again).is_ok());
    assert_eq!(r.roster.len(), 1);
}

#[test]
fn the_one_overflowing_entry_text_is_set_aside() {
    // the decoder takes the successor of the text read as a 32-bit number,
    // so the one numeral without a successor is skipped unread, whatever
    // its payload holds
    let mut r = Roster::new();
    for text in ["4294967295", "+4294967295", "+04294967295"] {
        let entry = TableEntry {
            table: "userinfo".to_string(),
            index: 3,
            text: Some(text.to_string()),
            extra: Some(player_info_payload()),
        };
        assert!(r.handle_string_entry(entry).is_ok());
        assert_eq!(r.roster.len(), 0);
    }
    // a neighbouring numeral is still decoded
    let entry = TableEntry {
        table: "userinfo".to_string(),
        index: 3,
        text: Some("4294967294".to_string()),
        extra: Some(player_info_payload()),
    };
    assert!(r.handle_string_entry(entry).is_ok());
    assert_eq!(r.roster.len(), 1);
}
