use dig::chunks_manager::{ChunksManager, DigAction};
use dig::grid::{GridIndex, WorldPos};
use dig::lobby::{
    handle_player_spawn, menu, on_generate_chunks, on_lobby_join, on_other_joined, GenerateChunks,
    LOBBY_CAPACITY,
};

#[test]
fn the_create_key_opens_a_lobby_for_eight() {
    assert_eq!(menu(true), Some(8));
    assert_eq!(menu(false), None);
    assert_eq!(LOBBY_CAPACITY, 8);
}

#[test]
fn the_owner_starts_a_fresh_world_on_joining() {
    let event = on_lobby_join(1, true).unwrap();
    assert!(event.dig_history.is_empty());
    assert!(on_lobby_join(3, true).unwrap().dig_history.is_empty());
    assert!(on_lobby_join(1, false).is_none());
    assert!(on_lobby_join(0, true).is_none());
    assert!(on_lobby_join(0, false).is_none());
}

#[test]
fn the_owner_sends_the_whole_history_to_each_joiner() {
    let mut manager = ChunksManager::new();
    // Before the world exists nothing is sent.
    assert!(on_other_joined(&manager, &vec![5], true).is_empty());
    manager.create_chunks(GridIndex::new(1, 1, 1), 8000);
    manager.dig_sphere(WorldPos { x: 0, y: -1000, z: 0 }, 500);
    manager.build_sphere(WorldPos { x: 10, y: -1000, z: 0 }, 250);
    let messages = on_other_joined(&manager, &vec![41, 42], true);
    assert_eq!(messages.len(), 2);
    assert_eq!(messages[0].to, 41);
    assert_eq!(messages[1].to, 42);
    for message in &messages {
        assert_eq!(
            message.event.dig_history,
            vec![
                DigAction { pos: WorldPos { x: 0, y: -1000, z: 0 }, radius: 500, state: false },
                DigAction { pos: WorldPos { x: 10, y: -1000, z: 0 }, radius: 250, state: true },
            ]
        );
    }
    assert!(on_other_joined(&manager, &vec![41, 42], false).is_empty());
    assert!(on_other_joined(&manager, &Vec::new(), true).is_empty());
}

#[test]
fn a_joiner_catches_up_by_replaying_the_history() {
    let mut host = ChunksManager::new();
    host.create_chunks(GridIndex::new(2, 1, 1), 8000);
    host.dig_sphere(WorldPos { x: 125, y: 0, z: 0 }, 500);
    host.dig_sphere(WorldPos { x: -2000, y: -3000, z: 500 }, 1500);
    host.build_sphere(WorldPos { x: -2000, y: -3000, z: 500 }, 700);
    let messages = on_other_joined(&host, &vec![9], true);

    let mut joiner = ChunksManager::new();
    joiner.create_chunks(GridIndex::new(2, 1, 1), 8000);
    joiner.take_changed();
    on_generate_chunks(&mut joiner, &messages[0].event);
    assert_eq!(joiner.take_changed(), vec![0, 1]);
    for id in 0..2 {
        assert_eq!(joiner.get_chunk(id).raw(), host.get_chunk(id).raw());
    }
    assert_eq!(joiner.dig_history(), host.dig_history());
    // The empty history of a fresh world changes nothing.
    let fresh = GenerateChunks { dig_history: Vec::new() };
    on_generate_chunks(&mut joiner, &fresh);
    assert!(joiner.take_changed().is_empty());
    assert_eq!(joiner.get_chunk(0).raw(), host.get_chunk(0).raw());
}

#[test]
fn the_avatar_is_spawned_once() {
    let mut spawned = false;
    assert!(!handle_player_spawn(0, &mut spawned));
    assert!(!spawned);
    assert!(handle_player_spawn(1, &mut spawned));
    assert!(spawned);
    assert!(!handle_player_spawn(1, &mut spawned));
    assert!(!handle_player_spawn(5, &mut spawned));
    assert!(!handle_player_spawn(0, &mut spawned));
    assert!(spawned);
}
