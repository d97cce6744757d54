//! The menus around a life: starting, loading, quitting, and the record read out
//! at a character's death.

use vstd::prelude::*;
use crate::model::{
    GameState, WorldMode, Faction, HistoryEntry, Item, create_new_state, create_inherited_state,
    display_name_of, first_match, location_with_id, lemma_first_match, is_new_game, is_inherited_game,
};
use crate::text::{
    views, text_of, cat2, cat3, push_text, append_text, append_decimal, append_signed, decimal,
    signed_decimal, join, join_texts, contains_seq, contains_text,
};

verus! {

/// The entries of the start menu: a new game, loading where there are saves, and quitting.
pub open spec fn start_menu_view(has_saves: bool) -> Seq<Seq<char>> {
    if has_saves {
        seq!["New Game"@, "Load Game"@, "Quit"@]
    } else {
        seq!["New Game"@, "Quit"@]
    }
}

/// The entries of the start menu.
pub fn start_menu_options(has_saves: bool) -> (options: Vec<String>)
    ensures
        views(options@) == start_menu_view(has_saves),
{
    let mut options: Vec<String> = Vec::new();
    push_text(&mut options, text_of("New Game"));
    if has_saves {
        push_text(&mut options, text_of("Load Game"));
    }
    push_text(&mut options, text_of("Quit"));
    assert(views(options@) =~= start_menu_view(has_saves));
    options
}

/// What the player picked on the start menu.
#[derive(Debug, Clone, Copy, PartialEq, Eq, Structural)]
pub enum StartChoice {
    NewGame,
    LoadGame,
    Quit,
}

/// The entry at `choice` in the start menu, if there is one.
pub fn start_choice(has_saves: bool, choice: usize) -> (r: Option<StartChoice>)
    ensures
        choice == 0 ==> r == Some(StartChoice::NewGame),
        choice == 1 ==> r == Some(if has_saves { StartChoice::LoadGame } else { StartChoice::Quit }),
        choice == 2 ==> r == if has_saves { Some(StartChoice::Quit) } else { None::<StartChoice> },
        choice > 2 ==> r is None,
{
    if choice == 0 {
        Some(StartChoice::NewGame)
    } else if choice == 1 {
        if has_saves {
            Some(StartChoice::LoadGame)
        } else {
            Some(StartChoice::Quit)
        }
    } else if choice == 2 && has_saves {
        Some(StartChoice::Quit)
    } else {
        None
    }
}

/// Which of `count` variants of a screen to show for a clock reading.
pub fn pick_variant(tick: u64, count: usize) -> (i: usize)
    requires
        count > 0,
    ensures
        i as int == (tick as int) % (count as int),
        i < count,
{
    (tick % (count as u64)) as usize
}

/// The world name given when the player gives none.
pub open spec fn default_world_name() -> Seq<char> {
    "The Ashen Crown"@
}

/// The title given when the player gives none.
pub open spec fn default_title() -> Seq<char> {
    "Ash Walker"@
}

/// An answer, or a default where the answer is empty.
pub open spec fn or_default(answer: Seq<char>, default: Seq<char>) -> Seq<char> {
    if answer.len() == 0 {
        default
    } else {
        answer
    }
}

fn answer_or(answer: String, default: &str) -> (r: String)
    ensures
        r@ == or_default(answer@, default@),
{
    if answer.as_str().unicode_len() == 0 {
        text_of(default)
    } else {
        answer
    }
}

/// A new game from the player's answers: the world's name (asked only for a new world),
/// the character's name and title, each replaced by its default when left empty.
pub fn create_from_prompts(mode: WorldMode, world_answer: String, name_answer: String, title_answer: String) -> (state: GameState)
    ensures
        is_new_game(
            state,
            if mode == WorldMode::New { or_default(world_answer@, default_world_name()) } else { default_world_name() },
            mode,
            or_default(name_answer@, "Wanderer"@),
            or_default(title_answer@, default_title()),
        ),
{
    let world_name = match mode {
        WorldMode::New => answer_or(world_answer, "The Ashen Crown"),
        WorldMode::Inherited => text_of("The Ashen Crown"),
    };
    let character_name = answer_or(name_answer, "Wanderer");
    let title = answer_or(title_answer, "Ash Walker");
    create_new_state(world_name.as_str(), mode, character_name, title)
}

/// A new life in the world of `state` from the player's answers, with "Heir" and the
/// default title where they are left empty.
pub fn create_inherited_from_world(state: &GameState, name_answer: String, title_answer: String) -> (r: GameState)
    requires
        state.world.next_id + 2 <= u64::MAX,
    ensures
        is_inherited_game(r, *state, or_default(name_answer@, "Heir"@), or_default(title_answer@, default_title())),
{
    let character_name = answer_or(name_answer, "Heir");
    let title = answer_or(title_answer, "Ash Walker");
    create_inherited_state(state, character_name, title)
}

/// Whether the player's answer on the leave screen means leaving: only the first entry does.
pub fn quit_choice(choice: Option<usize>) -> (leave: bool)
    ensures
        leave == (choice == Some(0usize)),
{
    match choice {
        Some(0) => true,
        _ => false,
    }
}

/// The entries of the menu shown after a death.
pub open spec fn death_menu_view() -> Seq<Seq<char>> {
    seq!["Create a new world"@, "Inherit this world with a new character"@, "Quit"@]
}

/// The entries of the menu shown after a death.
pub fn death_menu_options() -> (options: Vec<String>)
    ensures
        views(options@) == death_menu_view(),
{
    let mut options: Vec<String> = Vec::new();
    push_text(&mut options, text_of("Create a new world"));
    push_text(&mut options, text_of("Inherit this world with a new character"));
    push_text(&mut options, text_of("Quit"));
    assert(views(options@) =~= death_menu_view());
    options
}

/// What the player picked after a death.
#[derive(Debug, Clone, Copy, PartialEq, Eq, Structural)]
pub enum DeathChoice {
    NewWorld,
    InheritWorld,
    Quit,
    /// No entry was taken: the game ends without a new life.
    Nothing,
}

/// The entry at `choice` in the menu shown after a death.
pub fn death_choice(choice: Option<usize>) -> (r: DeathChoice)
    ensures
        r == match choice {
            Some(0) => DeathChoice::NewWorld,
            Some(1) => DeathChoice::InheritWorld,
            Some(2) => DeathChoice::Quit,
            _ => DeathChoice::Nothing,
        },
{
    match choice {
        Some(0) => DeathChoice::NewWorld,
        Some(1) => DeathChoice::InheritWorld,
        Some(2) => DeathChoice::Quit,
        _ => DeathChoice::Nothing,
    }
}

/// The notice shown when a save loads with problems.
pub open spec fn load_warning_view(count: nat) -> Seq<char> {
    "Save loaded with "@ + decimal(count)
        + " warning(s). The game will continue, but the save should be reviewed."@
}

/// The notice shown when a save loads with `count` problems.
pub fn load_warning_text(count: usize) -> (r: String)
    ensures
        r@ == load_warning_view(count as nat),
{
    let mut r = text_of("Save loaded with ");
    append_decimal(&mut r, count as u64);
    append_text(&mut r, " warning(s). The game will continue, but the save should be reviewed.");
    r
}

/// Whether a history entry tells of a deed of the one called `who`: it names them and
/// something they completed.
pub open spec fn is_deed(text: Seq<char>, who: Seq<char>) -> bool {
    contains_seq(text, who) && contains_seq(text, "completed "@)
}

/// The history entries that tell of deeds of `who`, in order.
pub open spec fn deeds_of(history: Seq<HistoryEntry>, who: Seq<char>) -> Seq<Seq<char>>
    decreases history.len(),
{
    if history.len() == 0 {
        Seq::empty()
    } else {
        deeds_of(history.drop_last(), who) + if is_deed(history.last().text@, who) {
            seq![history.last().text@]
        } else {
            Seq::<Seq<char>>::empty()
        }
    }
}

/// At most the first five of a list.
pub open spec fn first_five(s: Seq<Seq<char>>) -> Seq<Seq<char>> {
    if s.len() > 5 {
        s.take(5)
    } else {
        s
    }
}

/// Where the character died: the name of their location, if the world knows it.
pub open spec fn death_place(state: GameState) -> Seq<char> {
    let k = first_match(state.world.locations.deep_view(), location_with_id(state.character.location_id));
    if k < state.world.locations@.len() {
        state.world.locations@[k].name@
    } else {
        "an unknown place"@
    }
}

/// A faction's line in the record: its name and its standing with the sign shown.
pub open spec fn standing_line(f: Faction) -> Seq<char> {
    "  - "@ + f.name@ + " "@ + signed_decimal(f.reputation as int)
}

/// The names of the items on the last body.
pub open spec fn dropped_names(state: GameState) -> Seq<Seq<char>> {
    if state.corpses@.len() > 0 {
        Seq::new(
            state.corpses@.last().inventory@.len(),
            |i: int| state.corpses@.last().inventory@[i].name@,
        )
    } else {
        Seq::empty()
    }
}

/// The record read out when the character dies, one journal text after another: the
/// picture and its line, where and when they died, up to five deeds, the factions'
/// standing, what their body carried, and a last word on memory.
pub open spec fn death_record(state: GameState, art: Seq<char>, epitaph: Seq<char>) -> Seq<Seq<char>> {
    let who = display_name_of(state.character.name@, state.character.title@);
    let deeds = first_five(deeds_of(state.world.history@, who));
    let dropped = dropped_names(state);
    seq![
        "\n"@ + art,
        epitaph,
        "\n"@ + who + " died at "@ + death_place(state) + " on turn "@ + decimal(
            state.character.turn as nat,
        ) + "."@,
        "\nDeeds remembered:"@,
    ] + (if deeds.len() == 0 {
        seq!["  None recorded."@]
    } else {
        Seq::new(deeds.len(), |i: int| "  - "@ + deeds[i])
    }) + seq!["\nFaction standing at death:"@] + (if state.factions@.len() == 0 {
        seq!["  None recorded."@]
    } else {
        Seq::new(state.factions@.len(), |i: int| standing_line(state.factions@[i]))
    }) + seq!["\nWhat remains on the body:"@] + (if dropped.len() == 0 {
        seq!["  Nothing worth carrying."@]
    } else {
        seq!["  "@ + join(dropped, ", "@)]
    }) + seq!["\nThe next life will know none of this as memory. It can only be discovered."@]
}

/// The deeds of `who` in `history`.
fn collect_deeds(history: &Vec<HistoryEntry>, who: &str) -> (r: Vec<String>)
    ensures
        views(r@) == deeds_of(history@, who@),
{
    let mut r: Vec<String> = Vec::new();
    let mut i: usize = 0;
    while i < history.len()
        invariant
            i <= history@.len(),
            views(r@) == deeds_of(history@.take(i as int), who@),
        decreases history@.len() - i,
    {
        let text = history[i].text.as_str();
        proof {
            let t = history@.take(i + 1);
            assert(t.drop_last() =~= history@.take(i as int));
            assert(t.last() == history@[i as int]);
        }
        if contains_text(text, who) && contains_text(text, "completed ") {
            push_text(&mut r, text_of(text));
        }
        assert(views(r@) =~= deeds_of(history@.take(i + 1), who@));
        i = i + 1;
    }
    assert(history@.take(history@.len() as int) =~= history@);
    r
}

/// The names of `items`.
fn item_names(items: &Vec<Item>) -> (r: Vec<String>)
    ensures
        views(r@) == Seq::new(items@.len(), |i: int| items@[i].name@),
{
    let mut r: Vec<String> = Vec::new();
    let mut i: usize = 0;
    while i < items.len()
        invariant
            i <= items@.len(),
            views(r@) == Seq::new(i as nat, |k: int| items@[k].name@),
        decreases items@.len() - i,
    {
        push_text(&mut r, items[i].name.clone());
        assert(views(r@) =~= Seq::new((i + 1) as nat, |k: int| items@[k].name@));
        i = i + 1;
    }
    r
}

/// The record read out when the character of `state` dies, as journal texts, after
/// the picture `art` and its line `epitaph`.
pub fn death_legacy_lines(state: &GameState, art: &str, epitaph: &str) -> (lines: Vec<String>)
    ensures
        views(lines@) == death_record(*state, art@, epitaph@),
{
    let who = state.character.display_name();
    let mut lines: Vec<String> = Vec::new();
    push_text(&mut lines, cat2("\n", art));
    push_text(&mut lines, text_of(epitaph));
    let mut died = cat3("\n", who.as_str(), " died at ");
    proof { lemma_first_match(state.world.locations.deep_view(), location_with_id(state.character.location_id)); }
    match state.world.location_by_id(state.character.location_id) {
        Some(location) => append_text(&mut died, location.name.as_str()),
        None => append_text(&mut died, "an unknown place"),
    }
    append_text(&mut died, " on turn ");
    append_decimal(&mut died, state.character.turn as u64);
    append_text(&mut died, ".");
    push_text(&mut lines, died);
    push_text(&mut lines, text_of("\nDeeds remembered:"));
    let ghost head = views(lines@);
    assert(head =~= seq![
        "\n"@ + art@,
        epitaph@,
        "\n"@ + who@ + " died at "@ + death_place(*state) + " on turn "@ + decimal(
            state.character.turn as nat,
        ) + "."@,
        "\nDeeds remembered:"@,
    ]);

    let all_deeds = collect_deeds(&state.world.history, who.as_str());
    let ghost deeds = first_five(views(all_deeds@));
    if all_deeds.len() == 0 {
        push_text(&mut lines, text_of("  None recorded."));
    } else {
        let count: usize = if all_deeds.len() > 5 { 5 } else { all_deeds.len() };
        let mut i: usize = 0;
        while i < count
            invariant
                i <= count,
                count == deeds.len(),
                count <= all_deeds@.len(),
                deeds == first_five(views(all_deeds@)),
                views(lines@) == head + Seq::new(i as nat, |k: int| "  - "@ + deeds[k]),
            decreases count - i,
        {
            push_text(&mut lines, cat2("  - ", all_deeds[i].as_str()));
            assert(deeds[i as int] == all_deeds@[i as int]@);
            assert(views(lines@) =~= head + Seq::new((i + 1) as nat, |k: int| "  - "@ + deeds[k]));
            i = i + 1;
        }
    }
    push_text(&mut lines, text_of("\nFaction standing at death:"));
    let ghost mid = views(lines@);
    if state.factions.len() == 0 {
        push_text(&mut lines, text_of("  None recorded."));
    } else {
        let mut j: usize = 0;
        while j < state.factions.len()
            invariant
                j <= state.factions@.len(),
                views(lines@) == mid + Seq::new(j as nat, |k: int| standing_line(state.factions@[k])),
            decreases state.factions@.len() - j,
        {
            let faction = &state.factions[j];
            let mut text = cat3("  - ", faction.name.as_str(), " ");
            append_signed(&mut text, faction.reputation);
            push_text(&mut lines, text);
            assert(views(lines@) =~= mid + Seq::new((j + 1) as nat, |k: int| standing_line(state.factions@[k])));
            j = j + 1;
        }
    }
    push_text(&mut lines, text_of("\nWhat remains on the body:"));
    let dropped: Vec<String> = if state.corpses.len() > 0 {
        item_names(&state.corpses[state.corpses.len() - 1].inventory)
    } else {
        Vec::new()
    };
    assert(views(dropped@) =~= dropped_names(*state));
    if dropped.len() == 0 {
        push_text(&mut lines, text_of("  Nothing worth carrying."));
    } else {
        let joined = join_texts(dropped.as_slice(), ", ");
        push_text(&mut lines, cat2("  ", joined.as_str()));
    }
    push_text(&mut lines, text_of("\nThe next life will know none of this as memory. It can only be discovered."));
    assert(views(lines@) =~= death_record(*state, art@, epitaph@));
    lines
}

} // verus!
