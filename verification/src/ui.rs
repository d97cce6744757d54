//! What the terminal shows: the dashboard, the location scene and the journal,
//! and the rules by which lists, prompts and panels behave. Drawing and reading
//! keys belong to the program around the library.

use vstd::prelude::*;
use crate::text::{views, cat2, text_of, push_char, copy_texts, extend_texts, push_text};
use crate::text::{decimal, append_decimal, append_text, join, join_texts};
use crate::text::{trimmed, trim_text, parsed_usize, parse_usize};

verus! {

/// The journal keeps at most this many lines.
pub const MAX_LOG_LINES: usize = 48;

/// The status panel's contents.
#[derive(Debug, Clone)]
pub struct Dashboard {
    pub world_name: String,
    pub hp_line: String,
    pub time_display: String,
    pub condition_line: Option<String>,
    pub location_name: Option<String>,
    pub location_description: Option<String>,
    pub danger_line: Option<String>,
    pub threat_line: Option<String>,
    pub action_hint: Option<String>,
}

impl Default for Dashboard {
    fn default() -> (d: Self)
        ensures
            d.world_name@ == Seq::<char>::empty(),
            d.hp_line@ == Seq::<char>::empty(),
            d.time_display@ == Seq::<char>::empty(),
            d.condition_line is None,
            d.location_name is None,
            d.location_description is None,
            d.danger_line is None,
            d.threat_line is None,
            d.action_hint is None,
    {
        Dashboard {
            world_name: String::new(),
            hp_line: String::new(),
            time_display: String::new(),
            condition_line: None,
            location_name: None,
            location_description: None,
            danger_line: None,
            threat_line: None,
            action_hint: None,
        }
    }
}

/// Everything the screen shows, apart from the terminal itself.
#[derive(Debug)]
pub struct UiState {
    pub dashboard: Dashboard,
    pub location_scene: Vec<String>,
    pub log: Vec<String>,
    /// Whether the full-screen interface is up; before that, text goes to standard output.
    pub initialized: bool,
}

impl UiState {
    /// A blank screen, not yet taken over.
    pub fn new() -> (ui: Self)
        ensures
            ui.location_scene@.len() == 0,
            ui.log@.len() == 0,
            !ui.initialized,
            ui.dashboard.world_name@ == Seq::<char>::empty(),
            ui.dashboard.hp_line@ == Seq::<char>::empty(),
            ui.dashboard.time_display@ == Seq::<char>::empty(),
            ui.dashboard.condition_line is None,
            ui.dashboard.location_name is None,
            ui.dashboard.location_description is None,
            ui.dashboard.danger_line is None,
            ui.dashboard.threat_line is None,
            ui.dashboard.action_hint is None,
    {
        UiState {
            dashboard: Dashboard::default(),
            location_scene: Vec::new(),
            log: Vec::new(),
            initialized: false,
        }
    }
}

/// `text` cut at every `sep`, as `str::split` does with one character.
pub open spec fn split_on(s: Seq<char>, sep: char) -> Seq<Seq<char>>
    decreases s.len(),
{
    if s.len() == 0 {
        seq![Seq::<char>::empty()]
    } else {
        let rest = split_on(s.drop_last(), sep);
        if s.last() == sep {
            rest.push(Seq::<char>::empty())
        } else {
            rest.update(rest.len() - 1, rest.last().push(s.last()))
        }
    }
}

/// `split_on` always yields at least one piece.
pub proof fn lemma_split_on_nonempty(s: Seq<char>, sep: char)
    ensures
        split_on(s, sep).len() >= 1,
    decreases s.len(),
{
    if s.len() > 0 {
        lemma_split_on_nonempty(s.drop_last(), sep);
    }
}

/// The newest `max` entries of `log`, or all of them when there are no more.
pub open spec fn keep_last(log: Seq<Seq<char>>, max: nat) -> Seq<Seq<char>> {
    if log.len() > max {
        log.subrange(log.len() - max, log.len() as int)
    } else {
        log
    }
}

/// Splits `text` at each line break.
pub fn split_lines(text: &str) -> (parts: Vec<String>)
    ensures
        views(parts@) == split_on(text@, '\n'),
{
    let n = text.unicode_len();
    let mut parts: Vec<String> = Vec::new();
    let mut current = String::new();
    let mut i: usize = 0;
    while i < n
        invariant
            n == text@.len(),
            i <= n,
            views(parts@).push(current@) == split_on(text@.take(i as int), '\n'),
        decreases n - i,
    {
        let c = text.get_char(i);
        let ghost before = text@.take(i as int);
        proof {
            let after = text@.take(i + 1);
            assert(after.drop_last() =~= before);
            assert(after.last() == c);
            lemma_split_on_nonempty(before, '\n');
        }
        if c == '\n' {
            let done = current;
            push_text(&mut parts, done);
            current = String::new();
            assert(views(parts@).push(current@) =~= split_on(text@.take(i + 1), '\n'));
        } else {
            push_char(&mut current, c);
            assert(views(parts@).push(current@) =~= split_on(text@.take(i + 1), '\n'));
        }
        i = i + 1;
    }
    assert(text@.take(n as int) =~= text@);
    let last = current;
    push_text(&mut parts, last);
    parts
}

/// The last `max_lines` lines, or all of them when there are no more.
pub fn tail_lines(lines: &[String], max_lines: usize) -> (r: Vec<String>)
    ensures
        views(r@) == keep_last(views(lines@), max_lines as nat),
{
    let n = lines.len();
    if n <= max_lines {
        let r = copy_texts(lines);
        return r;
    }
    let mut r: Vec<String> = Vec::new();
    let start = n - max_lines;
    let mut i: usize = start;
    while i < n
        invariant
            n == lines@.len(),
            start == n - max_lines,
            start <= i <= n,
            views(r@) == views(lines@).subrange(start as int, i as int),
        decreases n - i,
    {
        push_text(&mut r, lines[i].clone());
        assert(views(lines@).subrange(start as int, i + 1) =~= views(lines@).subrange(
            start as int,
            i as int,
        ).push(lines@[i as int]@));
        i = i + 1;
    }
    r
}

/// Drops the oldest journal lines beyond the limit.
pub fn trim_log(log: &mut Vec<String>)
    ensures
        views(final(log)@) == keep_last(views(old(log)@), MAX_LOG_LINES as nat),
        final(log)@.len() <= MAX_LOG_LINES,
{
    if log.len() > MAX_LOG_LINES {
        let kept = tail_lines(log.as_slice(), MAX_LOG_LINES);
        assert(views(kept@).len() == kept@.len());
        *log = kept;
    }
}

/// Replaces the status panel; from then on the screen counts as taken over.
pub fn set_dashboard(ui: &mut UiState, dashboard: Dashboard)
    ensures
        final(ui).dashboard == dashboard,
        final(ui).initialized,
        final(ui).location_scene == old(ui).location_scene,
        final(ui).log == old(ui).log,
{
    ui.dashboard = dashboard;
    ui.initialized = true;
}

/// Replaces the picture shown for the current location.
pub fn set_location_scene(ui: &mut UiState, lines: Vec<String>)
    ensures
        final(ui).location_scene == lines,
        final(ui).dashboard == old(ui).dashboard,
        final(ui).log == old(ui).log,
        final(ui).initialized == old(ui).initialized,
{
    ui.location_scene = lines;
}

/// Adds `text` to the journal, one entry per line, keeping the newest lines.
/// Returns whether the text must also be written to standard output, which is
/// the case while the full-screen interface is not up.
pub fn line(ui: &mut UiState, text: &str) -> (echo: bool)
    ensures
        views(final(ui).log@) == keep_last(
            views(old(ui).log@) + split_on(text@, '\n'),
            MAX_LOG_LINES as nat,
        ),
        final(ui).log@.len() <= MAX_LOG_LINES,
        echo == !old(ui).initialized,
        final(ui).initialized == old(ui).initialized,
        final(ui).dashboard == old(ui).dashboard,
        final(ui).location_scene == old(ui).location_scene,
{
    let parts = split_lines(text);
    extend_texts(&mut ui.log, parts.as_slice());
    trim_log(&mut ui.log);
    !ui.initialized
}

/// Empties the journal.
pub fn clear_log(ui: &mut UiState)
    ensures
        final(ui).log@.len() == 0,
        final(ui).initialized == old(ui).initialized,
        final(ui).dashboard == old(ui).dashboard,
        final(ui).location_scene == old(ui).location_scene,
{
    ui.log = Vec::new();
}

/// The journal line written for a diagnostic message.
pub open spec fn diagnostic_text(text: Seq<char>) -> Seq<char> {
    "[diagnostic] "@ + text
}

/// Adds a diagnostic message to the journal, marked as such.
pub fn diagnostic(ui: &mut UiState, text: &str) -> (echo: bool)
    ensures
        views(final(ui).log@) == keep_last(
            views(old(ui).log@) + split_on(diagnostic_text(text@), '\n'),
            MAX_LOG_LINES as nat,
        ),
        echo == !old(ui).initialized,
        final(ui).initialized == old(ui).initialized,
        final(ui).dashboard == old(ui).dashboard,
        final(ui).location_scene == old(ui).location_scene,
{
    let message = cat2("[diagnostic] ", text);
    line(ui, message.as_str())
}

/// The lines of an optional text.
pub open spec fn opt_line(o: Option<String>) -> Seq<Seq<char>> {
    match o {
        Some(s) => seq![s@],
        None => Seq::empty(),
    }
}

/// A text when it is not empty.
pub open spec fn nonempty_line(s: Seq<char>) -> Seq<Seq<char>> {
    if s.len() > 0 {
        seq![s]
    } else {
        Seq::empty()
    }
}

/// The lines of the status panel.
pub open spec fn status_view(d: Dashboard) -> Seq<Seq<char>> {
    (if d.world_name@.len() > 0 {
        seq!["World: "@ + d.world_name@]
    } else {
        Seq::<Seq<char>>::empty()
    }) + nonempty_line(d.hp_line@) + nonempty_line(d.time_display@) + opt_line(d.condition_line)
        + opt_line(d.danger_line)
}

/// The lines of the location panel.
pub open spec fn location_view(d: Dashboard, scene: Seq<Seq<char>>) -> Seq<Seq<char>> {
    opt_line(d.location_name) + scene + opt_line(d.location_description) + opt_line(
        d.threat_line,
    )
}

/// Pushes a copy of the text in `o`, if any.
fn push_opt(lines: &mut Vec<String>, o: &Option<String>)
    ensures
        views(final(lines)@) == views(old(lines)@) + opt_line(*o),
{
    match o {
        Some(s) => {
            push_text(lines, s.clone());
            assert(views(final(lines)@) =~= views(old(lines)@) + opt_line(*o));
        },
        None => {
            assert(views(lines@) =~= views(lines@) + opt_line(*o));
        },
    }
}

/// What the status panel shows: the world, health, time, condition and danger.
pub fn status_lines(dashboard: &Dashboard) -> (lines: Vec<String>)
    ensures
        views(lines@) == status_view(*dashboard),
{
    let mut lines: Vec<String> = Vec::new();
    if dashboard.world_name.unicode_len() > 0 {
        push_text(&mut lines, cat2("World: ", dashboard.world_name.as_str()));
    }
    assert(views(lines@) =~= (if dashboard.world_name@.len() > 0 {
        seq!["World: "@ + dashboard.world_name@]
    } else {
        Seq::<Seq<char>>::empty()
    }));
    let ghost a = views(lines@);
    if dashboard.hp_line.unicode_len() > 0 {
        push_text(&mut lines, dashboard.hp_line.clone());
    }
    assert(views(lines@) =~= a + nonempty_line(dashboard.hp_line@));
    let ghost b = views(lines@);
    if dashboard.time_display.unicode_len() > 0 {
        push_text(&mut lines, dashboard.time_display.clone());
    }
    assert(views(lines@) =~= b + nonempty_line(dashboard.time_display@));
    push_opt(&mut lines, &dashboard.condition_line);
    push_opt(&mut lines, &dashboard.danger_line);
    lines
}

/// What the location panel shows: the place's name, its scene, its description and
/// the threat.
pub fn location_lines(dashboard: &Dashboard, scene: &[String]) -> (lines: Vec<String>)
    ensures
        views(lines@) == location_view(*dashboard, views(scene@)),
{
    let mut lines: Vec<String> = Vec::new();
    push_opt(&mut lines, &dashboard.location_name);
    extend_texts(&mut lines, scene);
    push_opt(&mut lines, &dashboard.location_description);
    push_opt(&mut lines, &dashboard.threat_line);
    assert(views(lines@) =~= location_view(*dashboard, views(scene@)));
    lines
}

/// The Unicode control characters (general category Cc), what `char::is_control` tests.
pub open spec fn spec_control(c: char) -> bool {
    c <= '\u{1f}' || ('\u{7f}' <= c && c <= '\u{9f}')
}

/// Whether a typed character is a control character that a prompt ignores; a tab is
/// kept.
pub fn is_ctrl_char(ch: char) -> (r: bool)
    ensures
        r == (spec_control(ch) && ch != '\t'),
{
    (ch <= '\u{1f}' || ('\u{7f}' <= ch && ch <= '\u{9f}')) && ch != '\t'
}

/// A key as the interface sees it. Ctrl-C arrives as `Esc`.
#[derive(Debug, Clone, Copy, PartialEq, Eq, Structural)]
pub enum Key {
    Char(char),
    Up,
    Down,
    Home,
    End,
    Enter,
    Esc,
    Backspace,
    Delete,
    Tab,
    Other,
}

/// ASCII control characters, what `char::is_ascii_control` tests.
pub open spec fn spec_ascii_control(c: char) -> bool {
    c <= '\u{1f}' || c == '\u{7f}'
}

/// Whether a key ends a "press any key" wait: any key but an ASCII control character.
pub fn ends_wait(key: Key) -> (r: bool)
    ensures
        r == !(key matches Key::Char(c) && spec_ascii_control(c)),
{
    match key {
        Key::Char(c) => !(c <= '\u{1f}' || c == '\u{7f}'),
        _ => true,
    }
}

/// How the program waits for the player to go on.
#[derive(Debug, Clone, PartialEq, Eq)]
pub enum WaitRequest {
    /// Print the message and read a line from standard input.
    ReadLine(String),
    /// Show the message in the footer and wait for a key that `ends_wait` accepts.
    ReadKey(String),
}

/// The message of a pause.
pub open spec fn pause_message() -> Seq<char> {
    "Press any key to continue..."@
}

/// The wait that a pause asks for: a key when the screen is up, a line otherwise.
pub fn pause(ui: &UiState) -> (w: WaitRequest)
    ensures
        ui.initialized ==> (w matches WaitRequest::ReadKey(m) && m@ == pause_message()),
        !ui.initialized ==> (w matches WaitRequest::ReadLine(m) && m@ == pause_message()),
{
    let message = text_of("Press any key to continue...");
    if ui.initialized {
        WaitRequest::ReadKey(message)
    } else {
        WaitRequest::ReadLine(message)
    }
}

/// Writes `message` to the journal and asks for a pause: the echo flag of `line`
/// and the wait of `pause`.
pub fn narrate(ui: &mut UiState, message: &str) -> (r: (bool, WaitRequest))
    ensures
        views(final(ui).log@) == keep_last(
            views(old(ui).log@) + split_on(message@, '\n'),
            MAX_LOG_LINES as nat,
        ),
        r.0 == !old(ui).initialized,
        old(ui).initialized ==> (r.1 matches WaitRequest::ReadKey(m) && m@ == pause_message()),
        !old(ui).initialized ==> (r.1 matches WaitRequest::ReadLine(m) && m@ == pause_message()),
        final(ui).initialized == old(ui).initialized,
        final(ui).dashboard == old(ui).dashboard,
        final(ui).location_scene == old(ui).location_scene,
{
    let echo = line(ui, message);
    let wait = pause(ui);
    (echo, wait)
}

/// `a.saturating_mul(k)` for a `u16`.
pub open spec fn sat_mul_u16(a: int, k: int) -> int {
    if a * k > 65535 {
        65535
    } else {
        a * k
    }
}

fn saturating_mul_u16(a: u16, k: u16) -> (r: u16)
    ensures
        r == sat_mul_u16(a as int, k as int),
{
    assert((a as int) * (k as int) <= 65535 * 65535) by (nonlinear_arith)
        requires
            a <= 65535,
            k <= 65535,
    ;
    let p: u32 = (a as u32) * (k as u32);
    if p > 65535 {
        65535
    } else {
        p as u16
    }
}

/// Whether a terminal of this size gets the stacked, compact layout.
pub open spec fn spec_compact(width: int, height: int) -> bool {
    width <= 112 || height <= 36 || width <= sat_mul_u16(height, 2)
}

/// Whether a terminal of this size gets the stacked, compact layout: narrow, short,
/// or not at least twice as wide as it is high.
pub fn is_compact_area(width: u16, height: u16) -> (r: bool)
    ensures
        r == spec_compact(width as int, height as int),
{
    width <= 112 || height <= 36 || width <= saturating_mul_u16(height, 2)
}

/// The height of the bottom panel for `content_lines` lines of text.
pub open spec fn spec_panel_height(height: int, compact: bool, content_lines: int) -> int {
    let base = if compact { 7int } else { 6int };
    let cap = if compact { sat_mul_u16(height, 40) / 100 } else { sat_mul_u16(height, 34) / 100 };
    let top = if cap > base { cap } else { base };
    let desired = content_lines % 65536 + 4;
    if desired < base { base } else if desired > top { top } else { desired }
}

/// The height of the bottom panel: room for the lines and its border, at least six or
/// seven rows and at most a third (or, compact, two fifths) of the screen.
pub fn bottom_panel_height(height: u16, compact: bool, content_lines: usize) -> (r: u16)
    requires
        content_lines % 65536 + 4 <= 65535,
    ensures
        r == spec_panel_height(height as int, compact, content_lines as int),
{
    let base: u16 = if compact { 7 } else { 6 };
    let cap: u16 = if compact {
        saturating_mul_u16(height, 40) / 100
    } else {
        saturating_mul_u16(height, 34) / 100
    };
    let top: u16 = if cap > base { cap } else { base };
    let low: u16 = (content_lines % 65536) as u16;
    let desired: u16 = low + 4;
    if desired < base {
        base
    } else if desired > top {
        top
    } else {
        desired
    }
}

/// The height of the footer: three rows when it holds nothing but the controls.
pub fn footer_height(height: u16, compact: bool, bottom_lines: usize) -> (r: u16)
    requires
        bottom_lines % 65536 + 4 <= 65535,
    ensures
        bottom_lines == 0 ==> r == 3,
        bottom_lines != 0 ==> r == spec_panel_height(height as int, compact, bottom_lines as int),
{
    if bottom_lines == 0 {
        3
    } else {
        bottom_panel_height(height, compact, bottom_lines)
    }
}

/// The controls hint shown when the dashboard names none.
pub open spec fn default_hint() -> Seq<char> {
    "Use arrows, Enter, and Esc."@
}

/// The controls line: the dashboard's hint, or the default one.
pub fn control_hint(dashboard: &Dashboard) -> (r: String)
    ensures
        dashboard.action_hint matches Some(h) ==> r@ == h@,
        dashboard.action_hint is None ==> r@ == default_hint(),
{
    match &dashboard.action_hint {
        Some(h) => h.clone(),
        None => text_of("Use arrows, Enter, and Esc."),
    }
}

/// What the journal panel shows in a panel of `area_height` rows: the newest lines
/// that fit inside its border, or a note that there are none.
pub fn journal_lines(log: &[String], area_height: u16) -> (r: Vec<String>)
    ensures
        log@.len() == 0 ==> views(r@) == seq!["No journal yet."@],
        log@.len() > 0 ==> views(r@) == keep_last(
            views(log@),
            if area_height > 2 { (area_height - 2) as nat } else { 1nat },
        ),
{
    if log.len() == 0 {
        let mut r: Vec<String> = Vec::new();
        push_text(&mut r, text_of("No journal yet."));
        assert(views(r@) =~= seq!["No journal yet."@]);
        return r;
    }
    let visible: usize = if area_height > 2 { (area_height - 2) as usize } else { 1 };
    tail_lines(log, visible)
}

/// What a key does to a list of `option_count` options, optionally followed by a
/// "back" row.
#[derive(Debug, Clone, Copy, PartialEq, Eq, Structural)]
pub enum ChoiceStep {
    /// Highlight this row and keep asking.
    Move(usize),
    /// The list is done: an option's index, or `None` for "back".
    Done(Option<usize>),
    /// The key does nothing here.
    Ignore,
}

/// The numeric value of an ASCII digit.
pub open spec fn digit_value(c: char) -> int {
    c as int - '0' as int
}

/// The row that is highlighted last: the back row if there is one, else the last option.
pub open spec fn last_row(option_count: nat, has_back: bool) -> nat {
    if has_back {
        option_count
    } else if option_count > 0 {
        (option_count - 1) as nat
    } else {
        0
    }
}

/// A highlighted row that names an option, or the back row where there is one.
pub open spec fn valid_row(selected: nat, option_count: nat, has_back: bool) -> bool {
    selected < option_count || (has_back && selected == option_count)
}

/// What `key` does while row `selected` is highlighted.
pub open spec fn spec_choice_step(selected: nat, option_count: nat, has_back: bool, key: Key) -> ChoiceStep {
    match key {
        Key::Up | Key::Char('k') => if selected == 0 {
            ChoiceStep::Move(last_row(option_count, has_back) as usize)
        } else {
            ChoiceStep::Move((selected - 1) as usize)
        },
        Key::Down | Key::Char('j') => if selected + 1 > option_count || (selected + 1 == option_count
            && !has_back) {
            ChoiceStep::Move(0)
        } else {
            ChoiceStep::Move((selected + 1) as usize)
        },
        Key::Home => ChoiceStep::Move(0),
        Key::End => ChoiceStep::Move(last_row(option_count, has_back) as usize),
        Key::Enter => if selected == option_count && has_back {
            ChoiceStep::Done(None)
        } else {
            ChoiceStep::Done(Some(selected as usize))
        },
        Key::Esc => if has_back {
            ChoiceStep::Done(None)
        } else {
            ChoiceStep::Ignore
        },
        Key::Char(c) => if '0' <= c <= '9' {
            if c == '0' && has_back {
                ChoiceStep::Done(None)
            } else if 1 <= digit_value(c) <= option_count {
                ChoiceStep::Done(Some((digit_value(c) - 1) as usize))
            } else {
                ChoiceStep::Ignore
            }
        } else {
            ChoiceStep::Ignore
        },
        _ => ChoiceStep::Ignore,
    }
}

/// What a key does in a list of options: arrows and `j`/`k` move the highlight and wrap
/// around, Home and End jump, Enter takes the highlighted row, Esc and `0` go back where
/// going back is offered, and a digit from 1 to the number of options takes that option.
/// A highlight that names a row stays on one.
pub fn choice_step(selected: usize, option_count: usize, has_back: bool, key: Key) -> (r: ChoiceStep)
    requires
        selected <= option_count,
        option_count < usize::MAX,
    ensures
        r == spec_choice_step(selected as nat, option_count as nat, has_back, key),
        option_count > 0 && valid_row(selected as nat, option_count as nat, has_back) ==> match r {
            ChoiceStep::Move(s) => valid_row(s as nat, option_count as nat, has_back),
            ChoiceStep::Done(Some(i)) => i < option_count,
            _ => true,
        },
{
    let last: usize = if has_back {
        option_count
    } else if option_count > 0 {
        option_count - 1
    } else {
        0
    };
    match key {
        Key::Up | Key::Char('k') => {
            if selected == 0 {
                ChoiceStep::Move(last)
            } else {
                ChoiceStep::Move(selected - 1)
            }
        },
        Key::Down | Key::Char('j') => {
            let next = selected + 1;
            if next > option_count || (next == option_count && !has_back) {
                ChoiceStep::Move(0)
            } else {
                ChoiceStep::Move(next)
            }
        },
        Key::Home => ChoiceStep::Move(0),
        Key::End => ChoiceStep::Move(last),
        Key::Enter => {
            if selected == option_count && has_back {
                ChoiceStep::Done(None)
            } else {
                ChoiceStep::Done(Some(selected))
            }
        },
        Key::Esc => {
            if has_back {
                ChoiceStep::Done(None)
            } else {
                ChoiceStep::Ignore
            }
        },
        Key::Char(c) => {
            if '0' <= c && c <= '9' {
                if c == '0' && has_back {
                    ChoiceStep::Done(None)
                } else {
                    let d: usize = digit_of(c);
                    if 1 <= d && d <= option_count {
                        ChoiceStep::Done(Some(d - 1))
                    } else {
                        ChoiceStep::Ignore
                    }
                }
            } else {
                ChoiceStep::Ignore
            }
        },
        _ => ChoiceStep::Ignore,
    }
}

/// The value of an ASCII digit.
fn digit_of(c: char) -> (d: usize)
    requires
        '0' <= c <= '9',
    ensures
        d == digit_value(c),
{
    if c == '0' { 0 }
    else if c == '1' { 1 }
    else if c == '2' { 2 }
    else if c == '3' { 3 }
    else if c == '4' { 4 }
    else if c == '5' { 5 }
    else if c == '6' { 6 }
    else if c == '7' { 7 }
    else if c == '8' { 8 }
    else { 9 }
}

/// How many option rows fit in the list panel of a terminal of this size.
pub open spec fn spec_visible_rows(width: int, height: int, has_back: bool) -> int {
    let popup = if spec_compact(width, height) { 42int } else { 34int };
    let inner = height * popup / 100;
    let avail = if inner >= 6 { inner - 6 } else { 0 };
    let avail2 = if has_back { if avail >= 1 { avail - 1 } else { 0 } } else { avail };
    if avail2 >= 1 { avail2 } else { 1 }
}

/// The first row shown: the highlight kept in the middle where the list allows.
pub open spec fn spec_window_start(selected: int, total: int, visible: int) -> int {
    let s = if selected >= visible / 2 { selected - visible / 2 } else { 0 };
    let max_start = if total >= visible { total - visible } else { 0 };
    if s > max_start { max_start } else { s }
}

/// The end of the rows shown, after the first.
pub open spec fn spec_window_end(start: int, total: int, visible: int) -> int {
    if start + visible < total { start + visible } else { total }
}

/// The rows of a list that fit on the screen, as a range `(start, end)` over the options
/// and the back row.
pub fn choice_window(width: u16, height: u16, selected: usize, option_count: usize, has_back: bool) -> (r: (usize, usize))
    requires
        option_count < usize::MAX,
    ensures
        ({
            let total = option_count + if has_back { 1int } else { 0int };
            let visible = spec_visible_rows(width as int, height as int, has_back);
            &&& r.0 == spec_window_start(selected as int, total, visible)
            &&& r.1 == spec_window_end(r.0 as int, total, visible)
            &&& r.0 <= r.1 <= total
        }),
{
    let compact = is_compact_area(width, height);
    let popup: u32 = if compact { 42 } else { 34 };
    assert((height as int) * (popup as int) <= 65535 * 42) by (nonlinear_arith)
        requires
            height <= 65535,
            popup <= 42,
    ;
    let inner: u32 = (height as u32) * popup / 100;
    let avail: u32 = if inner >= 6 { inner - 6 } else { 0 };
    let avail2: u32 = if has_back { if avail >= 1 { avail - 1 } else { 0 } } else { avail };
    let visible: usize = if avail2 >= 1 { avail2 as usize } else { 1 };
    let total: usize = if has_back { option_count + 1 } else { option_count };
    let half = visible / 2;
    let s: usize = if selected >= half { selected - half } else { 0 };
    let max_start: usize = if total >= visible { total - visible } else { 0 };
    let start: usize = if s > max_start { max_start } else { s };
    let end: usize = if total - start > visible { start + visible } else { total };
    (start, end)
}

/// A list that scrolls always shows its highlighted row: for any terminal size, any
/// number of options and any highlighted row among the options and the back row, the
/// window of shown rows holds that row.
pub proof fn law_choice_window_shows_selected(width: u16, height: u16, selected: nat, option_count: nat, has_back: bool)
    requires
        valid_row(selected, option_count, has_back),
    ensures
        ({
            let total = option_count + if has_back { 1int } else { 0int };
            let visible = spec_visible_rows(width as int, height as int, has_back);
            let start = spec_window_start(selected as int, total, visible);
            let end = spec_window_end(start, total, visible);
            start <= selected < end
        }),
{
}

/// The text of an optional label.
pub open spec fn label_view(label: Option<&str>) -> Option<Seq<char>> {
    match label {
        Some(l) => Some(l@),
        None => None,
    }
}

/// The mark in front of a row: an arrow on the highlighted one.
pub open spec fn row_marker(highlighted: bool) -> char {
    if highlighted { '\u{25b6}' } else { ' ' }
}

/// The line of one row of a list in the panel, if the row exists.
pub open spec fn panel_row(options: Seq<Seq<char>>, label: Option<Seq<char>>, selected: int, row: int) -> Seq<Seq<char>> {
    if row < options.len() {
        seq![seq![row_marker(row == selected), ' '] + decimal((row + 1) as nat) + ". "@ + options[row]]
    } else {
        match label {
            Some(l) => seq![seq![row_marker(row == selected), ' '] + "0. "@ + l],
            None => Seq::empty(),
        }
    }
}

/// The lines of the rows `start..end` of a list in the panel.
pub open spec fn panel_rows(options: Seq<Seq<char>>, label: Option<Seq<char>>, selected: int, start: int, end: int) -> Seq<Seq<char>>
    decreases end - start,
{
    if end <= start {
        Seq::empty()
    } else {
        panel_rows(options, label, selected, start, end - 1) + panel_row(options, label, selected, end - 1)
    }
}

/// Everything the list panel shows for rows `start..end` of `total`.
pub open spec fn panel_view(title: Seq<char>, options: Seq<Seq<char>>, label: Option<Seq<char>>, selected: int, start: int, end: int, total: int) -> Seq<Seq<char>> {
    seq![title, Seq::empty(), "Use \u{2191} \u{2193} or j/k, Enter to confirm, Esc to go back."@, Seq::empty()]
        + (if start > 0 { seq!["\u{22ef} more above \u{22ef}"@] } else { Seq::empty() })
        + panel_rows(options, label, selected, start, end)
        + (if end < total { seq!["\u{22ef} more below \u{22ef}"@] } else { Seq::empty() })
}

/// The lines of a list of options shown in the panel: the title, how to use it, the
/// rows `start..end` with the highlighted one marked, and notes on rows above and below.
pub fn choice_panel_lines(
    title: &str,
    options: &[String],
    zero_label: Option<&str>,
    selected: usize,
    start: usize,
    end: usize,
) -> (lines: Vec<String>)
    requires
        start <= end <= options@.len() + if zero_label is Some { 1int } else { 0int },
        options@.len() < usize::MAX,
    ensures
        views(lines@) == panel_view(
            title@,
            views(options@),
            label_view(zero_label),
            selected as int,
            start as int,
            end as int,
            options@.len() + if zero_label is Some { 1int } else { 0int },
        ),
{
    let n = options.len();
    let total: usize = match zero_label { Some(_) => n + 1, None => n };
    let mut lines: Vec<String> = Vec::new();
    push_text(&mut lines, text_of(title));
    push_text(&mut lines, String::new());
    push_text(&mut lines, text_of("Use \u{2191} \u{2193} or j/k, Enter to confirm, Esc to go back."));
    push_text(&mut lines, String::new());
    if start > 0 {
        push_text(&mut lines, text_of("\u{22ef} more above \u{22ef}"));
    }
    let ghost head = views(lines@);
    let mut row: usize = start;
    while row < end
        invariant
            start <= row <= end,
            end <= total,
            n == options@.len(),
            n < usize::MAX,
            total == n + if zero_label is Some { 1int } else { 0int },
            views(lines@) == head + panel_rows(views(options@), label_view(zero_label), selected as int, start as int, row as int),
        decreases end - row,
    {
        let ghost before = views(lines@);
        let mark: char = if row == selected { '\u{25b6}' } else { ' ' };
        if row < n {
            let mut text = String::new();
            push_char(&mut text, mark);
            push_char(&mut text, ' ');
            append_decimal(&mut text, (row + 1) as u64);
            append_text(&mut text, ". ");
            append_text(&mut text, options[row].as_str());
            assert(text@ =~= seq![row_marker(row == selected), ' '] + decimal((row + 1) as nat) + ". "@ + views(options@)[row as int]);
            push_text(&mut lines, text);
        } else {
            match zero_label {
                Some(label) => {
                    let mut text = String::new();
                    push_char(&mut text, mark);
                    push_char(&mut text, ' ');
                    append_text(&mut text, "0. ");
                    append_text(&mut text, label);
                    assert(text@ =~= seq![row_marker(row == selected), ' '] + "0. "@ + label@);
                    push_text(&mut lines, text);
                },
                None => {},
            }
        }
        assert(views(lines@) =~= before + panel_row(views(options@), label_view(zero_label), selected as int, row as int));
        row = row + 1;
    }
    if end < total {
        push_text(&mut lines, text_of("\u{22ef} more below \u{22ef}"));
    }
    assert(views(lines@) =~= panel_view(
        title@,
        views(options@),
        label_view(zero_label),
        selected as int,
        start as int,
        end as int,
        total as int,
    ));
    lines
}

/// The line of one option in a plain numbered list.
pub open spec fn listing_row(options: Seq<Seq<char>>, i: int) -> Seq<char> {
    "  "@ + decimal((i + 1) as nat) + ". "@ + options[i]
}

/// A numbered list as plain text: the title, one numbered line per option, and the
/// back choice as `0`.
pub open spec fn listing_view(title: Seq<char>, options: Seq<Seq<char>>, label: Option<Seq<char>>) -> Seq<char> {
    join(
        seq![title] + Seq::new(options.len(), |i: int| listing_row(options, i)) + match label {
            Some(l) => seq!["  0. "@ + l],
            None => Seq::empty(),
        },
        "\n"@,
    )
}

/// The numbered list printed when the full-screen interface is not up.
pub fn choice_listing(title: &str, options: &[String], zero_label: Option<&str>) -> (r: String)
    requires
        options@.len() < usize::MAX,
    ensures
        r@ == listing_view(title@, views(options@), label_view(zero_label)),
{
    let mut lines: Vec<String> = Vec::new();
    push_text(&mut lines, text_of(title));
    let mut i: usize = 0;
    while i < options.len()
        invariant
            i <= options@.len(),
            options@.len() < usize::MAX,
            views(lines@) == seq![title@] + Seq::new(i as nat, |k: int| listing_row(views(options@), k)),
        decreases options@.len() - i,
    {
        let mut text = text_of("  ");
        append_decimal(&mut text, (i + 1) as u64);
        append_text(&mut text, ". ");
        append_text(&mut text, options[i].as_str());
        assert(text@ =~= listing_row(views(options@), i as int));
        push_text(&mut lines, text);
        assert(views(lines@) =~= seq![title@] + Seq::new((i + 1) as nat, |k: int| listing_row(views(options@), k)));
        i = i + 1;
    }
    match zero_label {
        Some(label) => {
            push_text(&mut lines, cat2("  0. ", label));
        },
        None => {},
    }
    assert(views(lines@) =~= seq![title@] + Seq::new(options@.len(), |i: int| listing_row(views(options@), i)) + match label_view(zero_label) {
        Some(l) => seq!["  0. "@ + l],
        None => Seq::empty(),
    });
    join_texts(lines.as_slice(), "\n")
}

/// What a typed answer to a numbered list means: `Some(None)` for `0` where going
/// back is offered, `Some(Some(i))` for option number `i + 1`, `None` for anything else.
pub open spec fn spec_typed_choice(input: Seq<char>, option_count: nat, has_back: bool) -> Option<Option<usize>> {
    match parsed_usize(trimmed(input)) {
        Some(v) => if v == 0 && has_back {
            Some(None)
        } else if 1 <= v <= option_count {
            Some(Some((v - 1) as usize))
        } else {
            None
        },
        None => None,
    }
}

/// Reads a typed answer to a numbered list; `None` asks for a valid number again.
pub fn typed_choice(input: &str, option_count: usize, has_back: bool) -> (r: Option<Option<usize>>)
    ensures
        r == spec_typed_choice(input@, option_count as nat, has_back),
{
    let t = trim_text(input);
    match parse_usize(t.as_str()) {
        Some(v) => {
            if v == 0 && has_back {
                Some(None)
            } else if 1 <= v && v <= option_count {
                Some(Some(v - 1))
            } else {
                None
            }
        },
        None => None,
    }
}

/// The answer to a question asked on standard input: the line without surrounding
/// white space.
pub fn typed_answer(input: &str) -> (r: String)
    ensures
        r@ == trimmed(input@),
{
    trim_text(input)
}

/// What a key does to the answer being typed.
#[derive(Debug, Clone, PartialEq, Eq)]
pub enum PromptStep {
    /// Keep typing.
    Editing,
    /// The prompt is done, with this answer; an empty answer when it was cancelled.
    Done(String),
}

/// What a key does to a typed answer: a character other than a control character is
/// added, Tab adds a tab, Backspace removes the last character, Enter gives the answer
/// without surrounding white space and Esc gives an empty one.
pub fn prompt_step(buffer: &mut String, key: Key) -> (r: PromptStep)
    ensures
        match key {
            Key::Char(c) => if !(spec_control(c) && c != '\t') {
                final(buffer)@ == old(buffer)@.push(c) && r == PromptStep::Editing
            } else {
                final(buffer)@ == old(buffer)@ && r == PromptStep::Editing
            },
            Key::Tab => final(buffer)@ == old(buffer)@.push('\t') && r == PromptStep::Editing,
            Key::Backspace => r == PromptStep::Editing && final(buffer)@ == if old(buffer)@.len() > 0 {
                old(buffer)@.drop_last()
            } else {
                old(buffer)@
            },
            Key::Enter => final(buffer)@ == old(buffer)@ && (r matches PromptStep::Done(a) && a@ == trimmed(old(buffer)@)),
            Key::Esc => final(buffer)@ == old(buffer)@ && (r matches PromptStep::Done(a) && a@.len() == 0),
            _ => final(buffer)@ == old(buffer)@ && r == PromptStep::Editing,
        },
{
    match key {
        Key::Char(c) => {
            if !is_ctrl_char(c) {
                push_char(buffer, c);
            }
            PromptStep::Editing
        },
        Key::Tab => {
            push_char(buffer, '\t');
            PromptStep::Editing
        },
        Key::Backspace => {
            let n = buffer.as_str().unicode_len();
            if n > 0 {
                let shorter = text_of(buffer.as_str().substring_char(0, n - 1));
                *buffer = shorter;
                assert(buffer@ =~= old(buffer)@.drop_last());
            }
            PromptStep::Editing
        },
        Key::Enter => PromptStep::Done(trim_text(buffer.as_str())),
        Key::Esc => PromptStep::Done(String::new()),
        _ => PromptStep::Editing,
    }
}

/// The lines of the prompt panel.
pub open spec fn prompt_view(message: Seq<char>, buffer: Seq<char>) -> Seq<Seq<char>> {
    seq![message, Seq::empty(), "> "@ + buffer, "Enter to confirm, Esc to cancel."@]
}

/// What the prompt panel shows: the question, the answer so far and how to finish.
pub fn prompt_panel_lines(message: &str, buffer: &str) -> (lines: Vec<String>)
    ensures
        views(lines@) == prompt_view(message@, buffer@),
{
    let mut lines: Vec<String> = Vec::new();
    push_text(&mut lines, text_of(message));
    push_text(&mut lines, String::new());
    push_text(&mut lines, cat2("> ", buffer));
    push_text(&mut lines, text_of("Enter to confirm, Esc to cancel."));
    assert(views(lines@) =~= prompt_view(message@, buffer@));
    lines
}

} // verus!
