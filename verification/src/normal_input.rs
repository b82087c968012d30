//! The keys of the log.
use crate::app::{with_mark, App, ViewMode};
use crate::effects::{effects, no_effects, nothing, Effect, EffectView};
use crate::failures::anything_failed;
use crate::filter::{FilterFocus, FilterView};
use crate::keys::{KeyCode, KeyEvent};
use crate::log_store::{ascending, LogStore, StoredLogLine};
use crate::logs::{
    a_scroll_goes_its_way, max_above, nothing_asked_nothing_moved, resolved, the_top_is_the_first_row, top_row, PendingScroll,
    Scroll,
};
use crate::marks::blank_rows;
use crate::output::LogId;
use crate::panels::{
    at_logs, open_filter_panel, open_services_panel, open_tasks_panel, opens_filter, opens_services,
    opens_tasks, return_to_logs,
};
use crate::panes::{Focus, PaneSide, Panel, DEFAULT_COLUMNS, DEFAULT_ROWS};
use crate::pointer::{
    at_tail, clear_selection, copies, copy_selection, copying, is_at_tail, resume_following,
    resumed, scroll_asked, scroll_log, selected_in, unselected,
};
use crate::selection::Selection;
use crate::view_index::{ids_ascend, place_of, rows_before, Placed};
use vstd::prelude::*;

verus! {

/// The state at the newest line, following, with nothing selected.
pub open spec fn at_newest(app: App) -> App {
    App {
        log_selection: Selection::none(),
        follow_paused_for_selection: false,
        log_scroll: Scroll::Follow,
        ..app
    }
}

/// Whether `new` is `old` after Enter in the log. Held above the newest line
/// it is the way back down; at the newest line it puts a blank row after the
/// last line on screen.
pub open spec fn log_enter_acts(old: App, new: App) -> bool {
    if (old.log_scroll != Scroll::Follow && !is_at_tail(old)) || old.log_row_sources@.len() == 0 {
        new == resumed(old)
    } else {
        &&& new == resumed(
            App { blank_after: new.blank_after, blank_epoch: new.blank_epoch, ..old },
        )
        &&& new.blank_after@ == with_mark(old.blank_after@, old.log_row_sources@.last().id)
        &&& new.blank_epoch as int == (old.blank_epoch + 1) % 0x1_0000_0000_0000_0000
    }
}

fn press_enter_in_log(app: &mut App)
    ensures
        log_enter_acts(*old(app), *final(app)),
{
    let above = app.log_scroll != Scroll::Follow && !at_tail(app);
    let n: usize = app.log_row_sources.len();
    if !above && n > 0 {
        let id = app.log_row_sources[n - 1].id;
        app.mark_blank_after(id);
    }
    resume_following(app);
}

/// The state with the panel docked on its other side, at that side's default
/// size.
pub open spec fn redocked(app: App) -> App {
    App {
        panel: match app.panel.side {
            PaneSide::Right => Panel { side: PaneSide::Bottom, extent: DEFAULT_ROWS },
            PaneSide::Bottom => Panel { side: PaneSide::Right, extent: DEFAULT_COLUMNS },
        },
        ..app
    }
}

fn redock(app: &mut App)
    ensures
        *final(app) == redocked(*old(app)),
{
    app.panel.side = app.panel.side.toggled();
    app.panel.extent = match app.panel.side {
        PaneSide::Right => DEFAULT_COLUMNS,
        PaneSide::Bottom => DEFAULT_ROWS,
    };
}

/// Whether `new` is `old` with the filter's selection back at its default.
pub open spec fn resets_filter(old: App, new: App) -> bool {
    &&& new == (App { filter: new.filter, ..old })
    &&& new.filter@ == (FilterView { active: old.filter@.defaults, ..old.filter@ })
}

/// Whether `new` is `old` after a letter typed at the log. `armed` is whether
/// the key before was a first `g`.
#[verifier::opaque]
pub open spec fn log_letter_acts(
    old: App,
    new: App,
    c: char,
    control: bool,
    armed: bool,
    entries: Seq<StoredLogLine>,
    fx: Seq<EffectView>,
) -> bool {
    if c == 'y' {
        new == old && copies(old, entries, fx)
    } else {
        &&& fx == no_effects()
        &&& if c == 'l' && control {
            new == (App { repaint_requested: true, ..old })
        } else if c == 'f' {
            opens_filter(old, new)
        } else if c == 't' {
            opens_tasks(old, new)
        } else if c == 's' {
            opens_services(old, new)
        } else if c == 'i' && anything_failed(old.services_state@, old.tasks_state@) {
            new == (App {
                failure_summary_scroll: 0,
                view_mode: crate::app::ViewMode::Failures,
                ..old
            })
        } else if c == 'R' {
            resets_filter(old, new)
        } else if c == 'k' {
            new == scroll_asked(old, -1, 0, false)
        } else if c == 'j' {
            new == scroll_asked(old, 1, 0, false)
        } else if c == 'g' {
            if armed {
                new == scroll_asked(old, 0, 0, true)
            } else {
                new == (App { pending_g: true, ..old })
            }
        } else if c == 'G' {
            new == at_newest(old)
        } else if c == 'P' && old.shows_panel() {
            new == redocked(old)
        } else {
            new == old
        }
    }
}

fn go_to_newest(app: &mut App)
    ensures
        *final(app) == at_newest(*old(app)),
{
    app.log_selection.clear();
    app.follow_paused_for_selection = false;
    app.log_scroll = Scroll::Follow;
}

fn letter_opens(c: char, app: &mut App)
    requires
        c == 'f' || c == 't' || c == 's',
    ensures
        c == 'f' ==> opens_filter(*old(app), *final(app)),
        c == 't' ==> opens_tasks(*old(app), *final(app)),
        c == 's' ==> opens_services(*old(app), *final(app)),
{
    if c == 'f' {
        open_filter_panel(app);
    } else if c == 't' {
        open_tasks_panel(app);
    } else {
        open_services_panel(app);
    }
}

fn letter_scrolls(c: char, armed: bool, app: &mut App)
    requires
        c == 'k' || c == 'j' || c == 'g' || c == 'G',
    ensures
        c == 'k' ==> *final(app) == scroll_asked(*old(app), -1, 0, false),
        c == 'j' ==> *final(app) == scroll_asked(*old(app), 1, 0, false),
        c == 'g' && armed ==> *final(app) == scroll_asked(*old(app), 0, 0, true),
        c == 'g' && !armed ==> *final(app) == (App { pending_g: true, ..*old(app) }),
        c == 'G' ==> *final(app) == at_newest(*old(app)),
{
    if c == 'k' {
        scroll_log(app, -1, 0, false);
    } else if c == 'j' {
        scroll_log(app, 1, 0, false);
    } else if c == 'g' {
        if armed {
            scroll_log(app, 0, 0, true);
        } else {
            app.pending_g = true;
        }
    } else {
        go_to_newest(app);
    }
}

fn log_letter(c: char, control: bool, armed: bool, app: &mut App, store: &LogStore) -> (r: Vec<
    Effect,
>)
    ensures
        log_letter_acts(*old(app), *final(app), c, control, armed, store@, effects(r@)),
{
    reveal(log_letter_acts);
    if c == 'y' {
        return copy_selection(app, store);
    }
    if c == 'l' && control {
        app.repaint_requested = true;
    } else if c == 'f' || c == 't' || c == 's' {
        letter_opens(c, app);
    } else if c == 'i' {
        if app.has_failure_summary() {
            app.open_failure_summary();
        }
    } else if c == 'R' {
        let _changed = app.filter.reset_to_defaults();
    } else if c == 'k' || c == 'j' || c == 'g' || c == 'G' {
        letter_scrolls(c, armed, app);
    } else if c == 'P' {
        if app.panel_open() {
            redock(app);
        }
    }
    nothing()
}

/// Whether `new` is `old` after a key typed at the log. Any key disarms a
/// first `g`.
pub open spec fn log_key_acts(
    old: App,
    new: App,
    key: KeyEvent,
    entries: Seq<StoredLogLine>,
    fx: Seq<EffectView>,
) -> bool {
    let app = App { pending_g: false, ..old };
    match key.code {
        KeyCode::Char(c) => log_letter_acts(
            app,
            new,
            c,
            key.control,
            old.pending_g,
            entries,
            fx,
        ),
        _ => fx == no_effects() && log_other_key_acts(app, new, key.code),
    }
}

/// Whether `new` is `old` after a key other than a letter typed at the log.
#[verifier::opaque]
pub open spec fn log_other_key_acts(old: App, new: App, code: KeyCode) -> bool {
    match code {
        KeyCode::Enter => log_enter_acts(old, new),
        KeyCode::Up => new == scroll_asked(old, -1, 0, false),
        KeyCode::Down => new == scroll_asked(old, 1, 0, false),
        KeyCode::PageUp => new == scroll_asked(old, 0, -1, false),
        KeyCode::PageDown => new == scroll_asked(old, 0, 1, false),
        KeyCode::Home => new == scroll_asked(old, 0, 0, true),
        KeyCode::End => new == at_newest(old),
        KeyCode::Esc => if old.shows_panel() {
            new == at_logs(App { log_selection: Selection::none(), ..old })
        } else {
            new == unselected(old)
        },
        _ => new == old,
    }
}

fn press_escape_in_log(app: &mut App)
    ensures
        *final(app) == (if old(app).shows_panel() {
            at_logs(App { log_selection: Selection::none(), ..*old(app) })
        } else {
            unselected(*old(app))
        }),
{
    if app.panel_open() {
        app.log_selection.clear();
        return_to_logs(app);
    } else {
        clear_selection(app);
    }
}

fn log_other_key(code: KeyCode, app: &mut App)
    ensures
        log_other_key_acts(*old(app), *final(app), code),
{
    reveal(log_other_key_acts);
    match code {
        KeyCode::Enter => press_enter_in_log(app),
        KeyCode::Up => scroll_log(app, -1, 0, false),
        KeyCode::Down => scroll_log(app, 1, 0, false),
        KeyCode::PageUp => scroll_log(app, 0, -1, false),
        KeyCode::PageDown => scroll_log(app, 0, 1, false),
        KeyCode::Home => scroll_log(app, 0, 0, true),
        KeyCode::End => go_to_newest(app),
        KeyCode::Esc => press_escape_in_log(app),
        _ => {},
    }
}

/// A key typed at the log.
pub fn handle_normal_key(key: KeyEvent, app: &mut App, store: &LogStore) -> (r: Vec<Effect>)
    ensures
        log_key_acts(*old(app), *final(app), key, store@, effects(r@)),
{
    let armed = app.pending_g;
    app.pending_g = false;
    match key.code {
        KeyCode::Char(c) => log_letter(c, key.control, armed, app, store),
        _ => {
            log_other_key(key.code, app);
            nothing()
        },
    }
}

proof fn lemma_first_g(old: App, new: App, entries: Seq<StoredLogLine>, fx: Seq<EffectView>)
    requires
        log_letter_acts(old, new, 'g', false, false, entries, fx),
    ensures
        new == (App { pending_g: true, ..old }),
{
    reveal(log_letter_acts);
    reveal(log_other_key_acts);
}

proof fn lemma_only_g_is_armed(
    old: App,
    new: App,
    c: char,
    entries: Seq<StoredLogLine>,
    fx: Seq<EffectView>,
)
    requires
        c != 'g',
    ensures
        log_letter_acts(old, new, c, false, true, entries, fx) == log_letter_acts(
            old,
            new,
            c,
            false,
            false,
            entries,
            fx,
        ),
{
    reveal(log_letter_acts);
    reveal(log_other_key_acts);
}

/// A `g` followed by another letter is just that letter.
pub proof fn a_broken_chord_is_just_its_second_key(
    old: App,
    mid: App,
    new: App,
    c: char,
    entries: Seq<StoredLogLine>,
    first: Seq<EffectView>,
    second: Seq<EffectView>,
)
    requires
        !old.pending_g,
        c != 'g',
        log_key_acts(
            old,
            mid,
            (KeyEvent { code: KeyCode::Char('g'), control: false }),
            entries,
            first,
        ),
        log_key_acts(
            mid,
            new,
            (KeyEvent { code: KeyCode::Char(c), control: false }),
            entries,
            second,
        ),
    ensures
        log_key_acts(
            old,
            new,
            (KeyEvent { code: KeyCode::Char(c), control: false }),
            entries,
            second,
        ),
{
    let app = App { pending_g: false, ..old };
    lemma_first_g(app, mid, entries, first);
    assert(App { pending_g: false, ..mid } == app);
    lemma_only_g_is_armed(app, new, c, entries, second);
}

#[verifier::spinoff_prover]
#[verifier::rlimit(40)]
proof fn lemma_key_scrolls(old: App, new: App, code: KeyCode)
    requires
        log_other_key_acts(old, new, code),
        !(code is Char),
        isize::MIN < old.pending_scroll.rows < isize::MAX,
        isize::MIN < old.pending_scroll.pages < isize::MAX,
    ensures
        new.pending_g == old.pending_g,
        ({
            let before = old.pending_scroll;
            new.pending_scroll == (match code {
                KeyCode::Up => PendingScroll { rows: (before.rows - 1) as isize, ..before },
                KeyCode::Down => PendingScroll { rows: (before.rows + 1) as isize, ..before },
                KeyCode::PageUp => PendingScroll { pages: (before.pages - 1) as isize, ..before },
                KeyCode::PageDown => PendingScroll { pages: (before.pages + 1) as isize, ..before },
                KeyCode::Home => PendingScroll { to_top: true, ..before },
                _ => before,
            })
        }),
        code == KeyCode::End ==> new.log_scroll == Scroll::Follow && new.log_selection
            == Selection::none(),
        code == KeyCode::Up || code == KeyCode::Down || code == KeyCode::PageUp || code
            == KeyCode::PageDown || code == KeyCode::Home ==> new.log_scroll == old.log_scroll,
{
    reveal(log_other_key_acts);
}

#[verifier::spinoff_prover]
#[verifier::rlimit(60)]
proof fn lemma_letter_scrolls(
    old: App,
    new: App,
    c: char,
    control: bool,
    armed: bool,
    entries: Seq<StoredLogLine>,
    fx: Seq<EffectView>,
)
    requires
        log_letter_acts(old, new, c, control, armed, entries, fx),
        !old.pending_g,
        isize::MIN < old.pending_scroll.rows < isize::MAX,
        isize::MIN < old.pending_scroll.pages < isize::MAX,
    ensures
        new.pending_g == (c == 'g' && !armed),
        c != 'y' ==> fx.len() == 0,
        ({
            let before = old.pending_scroll;
            new.pending_scroll == (if c == 'k' {
                PendingScroll { rows: (before.rows - 1) as isize, ..before }
            } else if c == 'j' {
                PendingScroll { rows: (before.rows + 1) as isize, ..before }
            } else if c == 'g' && armed {
                PendingScroll { to_top: true, ..before }
            } else {
                before
            })
        }),
        c == 'G' ==> new.log_scroll == Scroll::Follow && new.log_selection == Selection::none(),
        c == 'k' || c == 'j' || c == 'g' ==> new.log_scroll == old.log_scroll,
{
    reveal(log_letter_acts);
}

/// Up, Page Up and `k` ask for earlier rows and Down, Page Down and `j` for
/// later ones; Home and the second `g` ask for the top, and End and `G` return
/// to the newest rows. Nothing else of what is asked for changes, and no key
/// moves the pane by itself.
pub proof fn the_scroll_keys_ask_for_their_way(
    old: App,
    new: App,
    key: KeyEvent,
    entries: Seq<StoredLogLine>,
    fx: Seq<EffectView>,
)
    requires
        log_key_acts(old, new, key, entries, fx),
        isize::MIN < old.pending_scroll.rows < isize::MAX,
        isize::MIN < old.pending_scroll.pages < isize::MAX,
    ensures
        ({
            let before = old.pending_scroll;
            let after = new.pending_scroll;
            match key.code {
                KeyCode::Up => after == (PendingScroll {
                    rows: (before.rows - 1) as isize,
                    ..before
                }) && new.log_scroll == old.log_scroll && fx.len() == 0,
                KeyCode::Down => after == (PendingScroll {
                    rows: (before.rows + 1) as isize,
                    ..before
                }) && new.log_scroll == old.log_scroll && fx.len() == 0,
                KeyCode::PageUp => after == (PendingScroll {
                    pages: (before.pages - 1) as isize,
                    ..before
                }) && new.log_scroll == old.log_scroll && fx.len() == 0,
                KeyCode::PageDown => after == (PendingScroll {
                    pages: (before.pages + 1) as isize,
                    ..before
                }) && new.log_scroll == old.log_scroll && fx.len() == 0,
                KeyCode::Home => after == (PendingScroll { to_top: true, ..before })
                    && new.log_scroll == old.log_scroll && fx.len() == 0,
                KeyCode::End => after == before && new.log_scroll == Scroll::Follow && fx.len() == 0
                    && new.log_selection.anchor is None && new.log_selection.cursor is None,
                KeyCode::Char('k') => after == (PendingScroll {
                    rows: (before.rows - 1) as isize,
                    ..before
                }) && new.log_scroll == old.log_scroll && fx.len() == 0,
                KeyCode::Char('j') => after == (PendingScroll {
                    rows: (before.rows + 1) as isize,
                    ..before
                }) && new.log_scroll == old.log_scroll && fx.len() == 0,
                KeyCode::Char('g') => if old.pending_g {
                    after == (PendingScroll { to_top: true, ..before }) && !new.pending_g
                } else {
                    after == before && new.pending_g
                },
                KeyCode::Char('G') => after == before && new.log_scroll == Scroll::Follow
                    && new.log_selection.anchor is None && new.log_selection.cursor is None,
                _ => after == before,
            }
        }),
        key.code != KeyCode::Char('g') ==> !new.pending_g,
{
    let app = App { pending_g: false, ..old };
    if let KeyCode::Char(c) = key.code {
        lemma_letter_scrolls(app, new, c, key.control, old.pending_g, entries, fx);
    } else {
        lemma_key_scrolls(app, new, key.code);
    }
}

/// What a scroll key asks for, its counterpart takes back.
pub proof fn opposite_scroll_keys_undo_each_other(
    old: App,
    mid: App,
    new: App,
    there: KeyCode,
    back: KeyCode,
    entries: Seq<StoredLogLine>,
    first: Seq<EffectView>,
    second: Seq<EffectView>,
)
    requires
        isize::MIN + 1 < old.pending_scroll.rows < isize::MAX - 1,
        isize::MIN + 1 < old.pending_scroll.pages < isize::MAX - 1,
        (there == KeyCode::Up && back == KeyCode::Down) || (there == KeyCode::Down && back
            == KeyCode::Up) || (there == KeyCode::PageUp && back == KeyCode::PageDown) || (there
            == KeyCode::PageDown && back == KeyCode::PageUp) || (there == KeyCode::Char('k')
            && back == KeyCode::Char('j')) || (there == KeyCode::Char('j') && back
            == KeyCode::Char('k')),
        log_key_acts(old, mid, (KeyEvent { code: there, control: false }), entries, first),
        log_key_acts(mid, new, (KeyEvent { code: back, control: false }), entries, second),
    ensures
        new.pending_scroll == old.pending_scroll,
        new.log_scroll == old.log_scroll,
{
    the_scroll_keys_ask_for_their_way(
        old,
        mid,
        KeyEvent { code: there, control: false },
        entries,
        first,
    );
    the_scroll_keys_ask_for_their_way(
        mid,
        new,
        KeyEvent { code: back, control: false },
        entries,
        second,
    );
}

/// Where nothing else was asked for since the last frame, Page Up and Up show
/// earlier rows whenever there are any above the top edge, and Page Down and
/// Down later ones whenever there are any left; Home shows the first row.
#[verifier::spinoff_prover]
#[verifier::rlimit(60)]
pub proof fn the_scroll_keys_show_what_they_name(
    old: App,
    new: App,
    code: KeyCode,
    entries: Seq<StoredLogLine>,
    fx: Seq<EffectView>,
    lines: Seq<Placed>,
    height: u16,
)
    requires
        log_key_acts(old, new, (KeyEvent { code, control: false }), entries, fx),
        old.pending_scroll == (PendingScroll { rows: 0, pages: 0, to_top: false, pin: false }),
        ids_ascend(lines),
        lines.len() > 0,
        forall|i: int|
            0 <= i < lines.len() ==> rows_before(lines, i + 1) - rows_before(
                lines,
                place_of(lines, (#[trigger] lines[i]).id),
            ) <= u16::MAX,
    ensures
        ({
            let before = top_row(lines, old.log_scroll, height);
            let after = top_row(
                lines,
                resolved(lines, new.log_scroll, new.pending_scroll, height),
                height,
            );
            &&& code == KeyCode::PageUp || code == KeyCode::Up ==> {
                &&& after <= before
                &&& before > 0 ==> after < before
            }
            &&& code == KeyCode::PageDown || code == KeyCode::Down ==> {
                &&& after >= before
                &&& before < max_above(lines, height) ==> after > before
            }
            &&& code == KeyCode::Up && before > 0 ==> after == before - 1
            &&& code == KeyCode::Down && before < max_above(lines, height) ==> after == before + 1
            &&& code == KeyCode::Home ==> after == 0
            &&& code == KeyCode::End ==> after == max_above(lines, height)
        }),
{
    let scroll = old.log_scroll;
    let pending = new.pending_scroll;
    the_scroll_keys_ask_for_their_way(old, new, KeyEvent { code, control: false }, entries, fx);
    match code {
        KeyCode::Up => {
            assert(pending.rows == -1 && pending.pages == 0 && !pending.to_top);
            a_scroll_goes_its_way(lines, scroll, pending, height);
        },
        KeyCode::Down => {
            assert(pending.rows == 1 && pending.pages == 0 && !pending.to_top);
            a_scroll_goes_its_way(lines, scroll, pending, height);
        },
        KeyCode::PageUp => {
            assert(pending.pages == -1 && pending.rows == 0 && !pending.to_top);
            a_scroll_goes_its_way(lines, scroll, pending, height);
        },
        KeyCode::PageDown => {
            assert(pending.pages == 1 && pending.rows == 0 && !pending.to_top);
            a_scroll_goes_its_way(lines, scroll, pending, height);
        },
        KeyCode::Home => {
            the_top_is_the_first_row(lines, scroll, pending, height);
        },
        KeyCode::End => {
            nothing_asked_nothing_moved(lines, Scroll::Follow, height);
        },
        _ => {},
    }
}

/// Every letter opens what it stands for: `f` the filter, `t` the tasks, `s` the
/// services, each with the keys going to it, and `i` what failed, if anything
/// did. `R` shows again what is shown by default, and `P` moves an open panel
/// to the other side.
pub proof fn a_letter_opens_what_it_stands_for(
    old: App,
    new: App,
    key: KeyEvent,
    entries: Seq<StoredLogLine>,
    fx: Seq<EffectView>,
)
    requires
        log_key_acts(old, new, key, entries, fx),
    ensures
        key.code == KeyCode::Char('f') ==> new.view_mode == ViewMode::Filter && new.focus
            == Focus::Panel && new.filter@.active == old.filter@.active,
        key.code == KeyCode::Char('t') ==> new.view_mode == ViewMode::Tasks && new.focus
            == Focus::Panel && new.tasks_table@.query.len() == 0 && new.tasks_table@.highlight == 0,
        key.code == KeyCode::Char('s') ==> new.view_mode == ViewMode::Services && new.focus
            == Focus::Panel && new.services_table@.query.len() == 0
            && new.services_table@.highlight == 0,
        key.code == KeyCode::Char('i') ==> if anything_failed(old.services_state@, old.tasks_state@) {
            new.view_mode == ViewMode::Failures && new.failure_summary_scroll == 0
        } else {
            new.view_mode == old.view_mode
        },
        key.code == KeyCode::Char('R') ==> new.filter@.active == old.filter@.defaults
            && new.view_mode == old.view_mode,
        key.code == KeyCode::Char('P') && old.shows_panel() ==> new.panel.side != old.panel.side
            && new.view_mode == old.view_mode,
        key.code == KeyCode::Char('P') && !old.shows_panel() ==> new.panel == old.panel,
        key.code == KeyCode::Char('y') ==> new.view_mode == old.view_mode && new.log_selection
            == old.log_selection,
        key.code == KeyCode::Esc ==> new.view_mode == (if old.shows_panel() {
            ViewMode::Normal
        } else {
            old.view_mode
        }) && new.log_selection.anchor is None && new.log_selection.cursor is None,
        key.code != KeyCode::Char('y') ==> fx.len() == 0,
        key.control && key.code == KeyCode::Char('l') ==> new.repaint_requested,
{
    reveal(log_letter_acts);
    reveal(log_other_key_acts);
}

/// Enter at the newest rows leaves a blank row under the last line shown, and
/// from anywhere else it only goes back to them.
pub proof fn enter_marks_the_end_or_returns_to_it(
    old: App,
    new: App,
    control: bool,
    entries: Seq<StoredLogLine>,
    fx: Seq<EffectView>,
)
    requires
        log_key_acts(old, new, (KeyEvent { code: KeyCode::Enter, control }), entries, fx),
    ensures
        new.log_scroll == Scroll::Follow,
        old.log_row_sources@.len() > 0 && old.log_scroll == Scroll::Follow && blank_rows(
            old.blank_after@,
            old.log_row_sources@.last().id,
        ) < u16::MAX ==> {
            let id = old.log_row_sources@.last().id;
            &&& blank_rows(new.blank_after@, id) == blank_rows(old.blank_after@, id) + 1
            &&& forall|other: LogId|
                other != id ==> #[trigger] blank_rows(new.blank_after@, other) == blank_rows(
                    old.blank_after@,
                    other,
                )
        },
        old.log_scroll != Scroll::Follow && old.log_total_rows > old.log_rows_above
            + old.log_pane_height ==> new.blank_after == old.blank_after,
        fx.len() == 0,
{
    reveal(log_other_key_acts);
}

/// A blank row that is added changes the number by which the log is known to
/// have changed, so that it is drawn anew; one that is not added leaves it.
pub proof fn a_new_blank_row_is_noticed(
    old: App,
    new: App,
    control: bool,
    entries: Seq<StoredLogLine>,
    fx: Seq<EffectView>,
)
    requires
        log_key_acts(old, new, (KeyEvent { code: KeyCode::Enter, control }), entries, fx),
    ensures
        old.log_row_sources@.len() > 0 && old.log_scroll == Scroll::Follow && old.blank_epoch
            < u64::MAX ==> new.blank_epoch == old.blank_epoch + 1,
        old.log_scroll != Scroll::Follow && old.log_total_rows > old.log_rows_above
            + old.log_pane_height ==> new.blank_epoch == old.blank_epoch,
{
    reveal(log_other_key_acts);
    if old.blank_epoch < u64::MAX {
        vstd::arithmetic::div_mod::lemma_small_mod(
            (old.blank_epoch + 1) as nat,
            0x1_0000_0000_0000_0000,
        );
    }
}

/// A panel that is moved to the other side gets that side's usual size, and the
/// filter opens on its list with no query.
#[verifier::spinoff_prover]
pub proof fn a_panel_opens_afresh(
    old: App,
    new: App,
    key: KeyEvent,
    entries: Seq<StoredLogLine>,
    fx: Seq<EffectView>,
)
    requires
        log_key_acts(old, new, key, entries, fx),
    ensures
        key.code == KeyCode::Char('P') && old.shows_panel() && old.panel.side == PaneSide::Right
            ==> new.panel.side == PaneSide::Bottom && new.panel.extent == 12,
        key.code == KeyCode::Char('P') && old.shows_panel() && old.panel.side == PaneSide::Bottom
            ==> new.panel.side == PaneSide::Right && new.panel.extent == 48,
        key.code == KeyCode::Char('f') ==> new.filter@.query.len() == 0 && new.filter@.highlight == 0
            && new.filter@.focus == FilterFocus::List,
        key.code == KeyCode::Char('s') || key.code == KeyCode::Char('t') || key.code
            == KeyCode::Char('f') ==> (old.panel_extent_customized ==> new.panel == old.panel),
        key.code == KeyCode::Char('s') ==> new.filter == old.filter && new.tasks_table
            == old.tasks_table,
        key.code == KeyCode::Char('t') ==> new.filter == old.filter && new.services_table
            == old.services_table,
{
    reveal(log_letter_acts);
}

/// `y` copies exactly what is selected and changes nothing on screen.
#[verifier::spinoff_prover]
pub proof fn y_copies_what_is_selected(
    old: App,
    new: App,
    control: bool,
    entries: Seq<StoredLogLine>,
    fx: Seq<EffectView>,
)
    requires
        log_key_acts(old, new, (KeyEvent { code: KeyCode::Char('y'), control }), entries, fx),
        ids_ascend(old.view_index@),
        ascending(entries),
    ensures
        match selected_in(old.log_selection, old.view_index@, entries) {
            Some(text) => fx.len() == 1 && fx[0] == copying(text),
            None => fx.len() == 0,
        },
        new == (App { pending_g: false, ..old }),
{
    reveal(log_letter_acts);
}

} // verus!
