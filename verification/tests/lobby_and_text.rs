use galaxy_cats::lobby::{LobbyConfig, PlayerChoice, MIN_PLAYERS};
use galaxy_cats::text::{decimal_text, room_url, scoreboard_text};

#[test]
fn numbers_are_written_in_decimal() {
    assert_eq!(decimal_text(0), "0");
    assert_eq!(decimal_text(7), "7");
    assert_eq!(decimal_text(10), "10");
    assert_eq!(decimal_text(1_234_567_890), "1234567890");
    assert_eq!(decimal_text(u64::MAX), "18446744073709551615");
    for n in 0..2_000u64 {
        assert_eq!(decimal_text(n), n.to_string());
    }
}

#[test]
fn the_scoreboard_lists_the_scores_by_handle() {
    assert_eq!(scoreboard_text(&Vec::new()), "");
    assert_eq!(scoreboard_text(&vec![5]), "5");
    assert_eq!(scoreboard_text(&vec![3, 0, 12]), "3 - 0 - 12");
    assert_eq!(scoreboard_text(&vec![0, 0, 0, 0, 0, u32::MAX]), "0 - 0 - 0 - 0 - 0 - 4294967295");
}

#[test]
fn a_room_address_names_server_room_and_players() {
    assert_eq!(
        room_url("ws://localhost:3536", "bevy_ggrs", 4),
        "ws://localhost:3536/bevy_ggrs?next=4"
    );
    assert_eq!(room_url("", "", 0), "/?next=0");
}

#[test]
fn a_lobby_is_joinable_once_it_is_told_everything() {
    let mut lobby = LobbyConfig::new();
    assert_eq!(lobby.players, 0);
    assert!(!lobby.is_joinable());
    assert_eq!(lobby.address(), None);
    lobby.server = "wss://example.org".to_string();
    lobby.room = "room".to_string();
    assert!(!lobby.is_joinable());
    lobby.select(PlayerChoice::Three);
    assert_eq!(lobby.players, 3);
    assert!(lobby.is_joinable());
    assert_eq!(lobby.address(), Some("wss://example.org/room?next=3".to_string()));
    lobby.room = String::new();
    assert!(!lobby.is_joinable());
    lobby.room = "room".to_string();
    lobby.server = String::new();
    assert!(!lobby.is_joinable());
    lobby.server = "s".to_string();
    lobby.players = 1;
    assert!(!lobby.is_joinable());
    lobby.players = 7;
    assert!(!lobby.is_joinable());
    assert_eq!(lobby.address(), None);
    lobby.players = 6;
    assert!(lobby.is_joinable());
}

#[test]
fn each_button_stands_for_its_number() {
    assert_eq!(MIN_PLAYERS, 2);
    assert_eq!(PlayerChoice::Two.count(), 2);
    assert_eq!(PlayerChoice::Three.count(), 3);
    assert_eq!(PlayerChoice::Four.count(), 4);
    assert_eq!(PlayerChoice::Five.count(), 5);
    assert_eq!(PlayerChoice::Six.count(), 6);
}

#[test]
fn the_lobby_counts_the_missing_players() {
    let mut lobby = LobbyConfig::new();
    lobby.select(PlayerChoice::Four);
    assert_eq!(lobby.players_missing(0), 3);
    assert_eq!(lobby.players_missing(2), 1);
    assert_eq!(lobby.players_missing(3), 0);
    assert_eq!(lobby.players_missing(4), 0);
    assert_eq!(lobby.players_missing(usize::MAX), 0);
}
