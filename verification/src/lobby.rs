//! Sharing a world: what the owner of a lobby sends to those who join it,
//! and when a player's avatar appears.

use vstd::prelude::*;
use crate::chunks_manager::{after_actions, touched_by, ChunksManager, DigAction};

verus! {

/// How many players a lobby takes.
pub const LOBBY_CAPACITY: u32 = 8;

/// The message that brings a world up to date: every edit made so far,
/// oldest first.
#[derive(Debug)]
pub struct GenerateChunks {
    pub dig_history: Vec<DigAction>,
}

/// A catch-up message and the player it is for.
#[derive(Debug)]
pub struct CatchUp {
    pub to: u64,
    pub event: GenerateChunks,
}

/// The size of the lobby to create, if the key that creates one was
/// pressed.
pub fn menu(create_key: bool) -> (r: Option<u32>)
    ensures
        r == (if create_key {
            Some(LOBBY_CAPACITY)
        } else {
            None::<u32>
        }),
{
    if create_key {
        Some(LOBBY_CAPACITY)
    } else {
        None
    }
}

/// What a player sends on joining a lobby: the owner of the lobby starts a
/// fresh world, with no edits; anyone else sends nothing.
pub fn on_lobby_join(joined: usize, is_owner: bool) -> (r: Option<GenerateChunks>)
    ensures
        r is Some == (joined > 0 && is_owner),
        r matches Some(event) ==> event.dig_history@.len() == 0,
{
    if joined > 0 && is_owner {
        Some(GenerateChunks { dig_history: Vec::new() })
    } else {
        None
    }
}

/// What the owner of a lobby sends when others join a world that exists:
/// to each of them, every edit made so far. Nothing is sent by anyone else,
/// or before the world exists.
pub fn on_other_joined(manager: &ChunksManager, joined: &Vec<u64>, is_owner: bool) -> (r: Vec<
    CatchUp,
>)
    ensures
        r@.len() == (if manager.has_info() && is_owner {
            joined@.len()
        } else {
            0
        }),
        forall|i: int|
            0 <= i < r@.len() ==> (#[trigger] r@[i]).to == joined@[i] && r@[i].event.dig_history@
                == manager.history(),
{
    let mut messages: Vec<CatchUp> = Vec::new();
    if !manager.has_chunks_info() || !is_owner {
        return messages;
    }
    let mut i: usize = 0;
    while i < joined.len()
        invariant
            i <= joined@.len(),
            messages@.len() == i,
            forall|j: int|
                0 <= j < i ==> (#[trigger] messages@[j]).to == joined@[j]
                    && messages@[j].event.dig_history@ == manager.history(),
        decreases joined@.len() - i,
    {
        messages.push(
            CatchUp { to: joined[i], event: GenerateChunks { dig_history: manager.dig_history() } },
        );
        i += 1;
    }
    messages
}

/// Brings a world up to date with a catch-up message: applies its edits,
/// oldest first.
pub fn on_generate_chunks(manager: &mut ChunksManager, event: &GenerateChunks)
    requires
        old(manager).wf(),
    ensures
        final(manager).wf(),
        final(manager).has_info() == old(manager).has_info(),
        final(manager).amount() == old(manager).amount(),
        final(manager)@ == after_actions(old(manager)@, old(manager).amount(), event.dig_history@),
        final(manager).history() == old(manager).history() + event.dig_history@,
        forall|k: int|
            0 <= k < old(manager)@.len() ==> (#[trigger] final(manager).changed()[k]) == (old(
                manager,
            ).changed()[k] || touched_by(
                old(manager)@,
                old(manager).amount(),
                event.dig_history@,
                k,
            )),
{
    manager.replay(&event.dig_history)
}

/// Whether the player's avatar appears now: once, when the terrain has its
/// first mesh.
pub fn handle_player_spawn(finished_generating: usize, player_spawned: &mut bool) -> (r: bool)
    ensures
        r == (finished_generating > 0 && !*old(player_spawned)),
        *final(player_spawned) == (*old(player_spawned) || finished_generating > 0),
{
    if finished_generating > 0 && !*player_spawned {
        *player_spawned = true;
        true
    } else {
        false
    }
}

} // verus!
