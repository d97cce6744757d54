//! Save-file versions and bringing older saves up to date.

use vstd::prelude::*;
use crate::text::{text_of, append_decimal, append_text, decimal};
use crate::model::{GameState, Attributes};

verus! {

/// The save-file version this build writes.
pub const SAVE_FILE_VERSION: u32 = 2;

/// Why a save was refused.
pub open spec fn unsupported_version_message(version: u32) -> Seq<char> {
    "Save file version "@ + decimal(version as nat) + " is not supported by this build"@
}

/// A save of the given version, brought up to date: a version of 0 or above the current one
/// is refused; a version-1 save starts the systems it lacked at their defaults (time points
/// 3, day 1, level 1 if unset, attributes 1 if all unset); a current save is kept as is.
pub fn upgrade_save(save_file_version: u32, game: GameState) -> (r: Result<GameState, String>)
    ensures
        (save_file_version == 0 || save_file_version > SAVE_FILE_VERSION) <==> r is Err,
        r matches Err(msg) ==> msg@ == unsupported_version_message(save_file_version),
        save_file_version == SAVE_FILE_VERSION ==> r == Ok::<GameState, String>(game),
        save_file_version == 1 ==> (r matches Ok(g) && {
            &&& g.world.time_points == 3
            &&& g.world.day == 1
            &&& g.character.level == (if game.character.level == 0 { 1 } else { game.character.level })
            &&& g.character.attributes == (if game.character.attributes == (Attributes { might: 0, insight: 0, endurance: 0 }) {
                Attributes { might: 1, insight: 1, endurance: 1 }
            } else {
                game.character.attributes
            })
            &&& g.world.id == game.world.id
            &&& g.world.name == game.world.name
            &&& g.world.mode == game.world.mode
            &&& g.world.next_id == game.world.next_id
            &&& g.world.regions == game.world.regions
            &&& g.world.locations == game.world.locations
            &&& g.world.history == game.world.history
            &&& g.world.event_cooldowns == game.world.event_cooldowns
            &&& g.character.id == game.character.id
            &&& g.character.name == game.character.name
            &&& g.character.title == game.character.title
            &&& g.character.hp == game.character.hp
            &&& g.character.max_hp == game.character.max_hp
            &&& g.character.location_id == game.character.location_id
            &&& g.character.inventory == game.character.inventory
            &&& g.character.alive == game.character.alive
            &&& g.character.turn == game.character.turn
            &&& g.character.notes == game.character.notes
            &&& g.character.conditions == game.character.conditions
            &&& g.threat == game.threat
            &&& g.corpses == game.corpses
            &&& g.factions == game.factions
            &&& g.npcs == game.npcs
            &&& g.quests == game.quests
            &&& g.last_announced_location_id == game.last_announced_location_id
        }),
{
    if save_file_version > SAVE_FILE_VERSION || save_file_version == 0 {
        let mut msg = text_of("Save file version ");
        append_decimal(&mut msg, save_file_version as u64);
        append_text(&mut msg, " is not supported by this build");
        return Err(msg);
    }
    let mut game = game;
    if save_file_version < 2 {
        game.world.time_points = 3;
        game.world.day = 1;
        if game.character.level == 0 {
            game.character.level = 1;
        }
        if game.character.attributes.might == 0 && game.character.attributes.insight == 0
            && game.character.attributes.endurance == 0 {
            game.character.attributes.might = 1;
            game.character.attributes.insight = 1;
            game.character.attributes.endurance = 1;
        }
    }
    Ok(game)
}

} // verus!
