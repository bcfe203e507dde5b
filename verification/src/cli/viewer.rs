//! Decisions of the interactive report viewer: what each key does,
//! scrolling within limits, search matches, and when to refresh.
use vstd::prelude::*;
use crate::text::{
    append_str, chars_of, contains, contains_seq, decimal, decimal_string, str_to_lowercase,
    string_of, unicode_lower_str,
};

verus! {

/// How often the worker is polled while a refresh is in flight.
pub const WORKER_POLL_INTERVAL_NANOS: u128 = 16_000_000;

/// A key press, as far as the viewer distinguishes keys.
#[derive(Debug, Clone, Copy, PartialEq, Eq, Structural)]
pub enum Key {
    Char(char),
    Up,
    Down,
    PageUp,
    PageDown,
    Home,
    End,
    Left,
    Right,
    Esc,
    Enter,
    Backspace,
    Other,
}

/// What a key asks of the viewer in normal mode.
#[derive(Debug, Clone, Copy, PartialEq, Eq, Structural)]
pub enum KeyAction {
    Quit,
    LineUp,
    LineDown,
    PageUp,
    PageDown,
    HalfPageUp,
    HalfPageDown,
    Top,
    Bottom,
    ScrollLeft,
    ScrollRight,
    TogglePause,
    ResetStatistics,
    Rediscover,
    ToggleDiagnostic,
    StartSearch,
    NextMatch,
    PreviousMatch,
    ShowHelp,
    Nothing,
}

/// The action of a key in normal mode; Ctrl-C always quits, Ctrl-U and
/// Ctrl-D move by half a page.
pub open spec fn normal_action(key: Key, ctrl: bool) -> KeyAction {
    if ctrl && key == Key::Char('c') {
        KeyAction::Quit
    } else {
        match key {
            Key::Char('q') | Key::Esc => KeyAction::Quit,
            Key::Up | Key::Char('k') => KeyAction::LineUp,
            Key::Down | Key::Char('j') => KeyAction::LineDown,
            Key::PageUp | Key::Char('b') => KeyAction::PageUp,
            Key::PageDown | Key::Char('f') => KeyAction::PageDown,
            Key::Home | Key::Char('g') => KeyAction::Top,
            Key::End | Key::Char('G') => KeyAction::Bottom,
            Key::Left | Key::Char('h') => KeyAction::ScrollLeft,
            Key::Right | Key::Char('l') => KeyAction::ScrollRight,
            Key::Char('u') => if ctrl {
                KeyAction::HalfPageUp
            } else {
                KeyAction::Nothing
            },
            Key::Char('d') => if ctrl {
                KeyAction::HalfPageDown
            } else {
                KeyAction::Nothing
            },
            Key::Char(' ') => KeyAction::TogglePause,
            Key::Char('x') => KeyAction::ResetStatistics,
            Key::Char('r') => KeyAction::Rediscover,
            Key::Char('v') => KeyAction::ToggleDiagnostic,
            Key::Char('/') => KeyAction::StartSearch,
            Key::Char('n') => KeyAction::NextMatch,
            Key::Char('N') => KeyAction::PreviousMatch,
            Key::Char('?') => KeyAction::ShowHelp,
            _ => KeyAction::Nothing,
        }
    }
}

pub fn normal_key_action(key: Key, ctrl: bool) -> (r: KeyAction)
    ensures
        r == normal_action(key, ctrl),
{
    if ctrl && key == Key::Char('c') {
        return KeyAction::Quit;
    }
    match key {
        Key::Char('q') | Key::Esc => KeyAction::Quit,
        Key::Up | Key::Char('k') => KeyAction::LineUp,
        Key::Down | Key::Char('j') => KeyAction::LineDown,
        Key::PageUp | Key::Char('b') => KeyAction::PageUp,
        Key::PageDown | Key::Char('f') => KeyAction::PageDown,
        Key::Home | Key::Char('g') => KeyAction::Top,
        Key::End | Key::Char('G') => KeyAction::Bottom,
        Key::Left | Key::Char('h') => KeyAction::ScrollLeft,
        Key::Right | Key::Char('l') => KeyAction::ScrollRight,
        Key::Char('u') => if ctrl {
            KeyAction::HalfPageUp
        } else {
            KeyAction::Nothing
        },
        Key::Char('d') => if ctrl {
            KeyAction::HalfPageDown
        } else {
            KeyAction::Nothing
        },
        Key::Char(' ') => KeyAction::TogglePause,
        Key::Char('x') => KeyAction::ResetStatistics,
        Key::Char('r') => KeyAction::Rediscover,
        Key::Char('v') => KeyAction::ToggleDiagnostic,
        Key::Char('/') => KeyAction::StartSearch,
        Key::Char('n') => KeyAction::NextMatch,
        Key::Char('N') => KeyAction::PreviousMatch,
        Key::Char('?') => KeyAction::ShowHelp,
        _ => KeyAction::Nothing,
    }
}

/// Whether a key closes the help overlay.
pub fn closes_help(key: Key) -> (r: bool)
    ensures
        r == (key == Key::Char('?') || key == Key::Esc || key == Key::Char('q')),
{
    key == Key::Char('?') || key == Key::Esc || key == Key::Char('q')
}

/// How far a page moves: one line less than the viewport, at least one.
pub fn page_size(viewport_height: u16) -> (r: u16)
    ensures
        r == (if viewport_height > 1 { viewport_height - 1 } else { 1 }),
{
    if viewport_height > 1 {
        viewport_height - 1
    } else {
        1
    }
}

/// Scrolls back by `amount`, stopping at the start.
pub fn scroll_back(position: u16, amount: u16) -> (r: u16)
    ensures
        r == (if position >= amount { position - amount } else { 0 }),
{
    position.saturating_sub(amount)
}

/// Scrolls forward by `amount`, stopping at `limit`.
pub fn scroll_forward(position: u16, amount: u16, limit: u16) -> (r: u16)
    ensures
        r == (if position + amount > u16::MAX { if u16::MAX < limit { u16::MAX } else { limit } } else if position + amount < limit {
            (position + amount) as u16
        } else {
            limit
        }),
        r <= limit,
{
    let moved = position.saturating_add(amount);
    if moved < limit {
        moved
    } else {
        limit
    }
}

/// The furthest scroll position: content beyond what the viewport shows.
pub fn scroll_limit(content: u16, viewport: u16) -> (r: u16)
    ensures
        r == (if content >= viewport { content - viewport } else { 0 }),
{
    content.saturating_sub(viewport)
}

/// The indices of the lines that contain the query, ignoring case.
pub open spec fn matching_indices(lines: Seq<Seq<char>>, query: Seq<char>, n: nat) -> Seq<usize>
    decreases n,
{
    if n == 0 {
        seq![]
    } else {
        let rest = matching_indices(lines, query, (n - 1) as nat);
        if contains_seq(unicode_lower_str(lines[n - 1]), unicode_lower_str(query)) {
            rest.push((n - 1) as usize)
        } else {
            rest
        }
    }
}

/// Finds the lines of a report that contain the query, ignoring case.
pub fn matching_lines(lines: &Vec<String>, query: &str) -> (r: Vec<usize>)
    ensures
        r@ == matching_indices(lines@.map_values(|l: String| l@), query@, lines@.len()),
{
    let ghost lv = lines@.map_values(|l: String| l@);
    let q = chars_of(str_to_lowercase(query).as_str());
    let mut out: Vec<usize> = Vec::new();
    let mut i: usize = 0;
    while i < lines.len()
        invariant
            i <= lines@.len(),
            lv == lines@.map_values(|l: String| l@),
            q@ == unicode_lower_str(query@),
            out@ == matching_indices(lv, query@, i as nat),
        decreases lines.len() - i,
    {
        let l = chars_of(str_to_lowercase(lines[i].as_str()).as_str());
        assert(lv[i as int] == lines@[i as int]@);
        if contains(&l, &q) {
            out.push(i);
        }
        i += 1;
    }
    out
}

/// The match a search moves to: forward, the first match after the current
/// one (wrapping to the first); backward, the last match before it
/// (wrapping to the last); without a current match, the first or last.
pub open spec fn next_match_of(matches: Seq<usize>, current: Option<usize>, reverse: bool) -> Option<usize> {
    if matches.len() == 0 {
        None
    } else {
        match current {
            None => Some(if reverse { matches.last() } else { matches[0] }),
            Some(c) => if reverse {
                match last_below(matches, c, matches.len()) {
                    Some(m) => Some(m),
                    None => Some(matches.last()),
                }
            } else {
                match first_above(matches, c, matches.len()) {
                    Some(m) => Some(m),
                    None => Some(matches[0]),
                }
            },
        }
    }
}

/// The earliest of the first `n` matches after `c`.
pub open spec fn first_above(matches: Seq<usize>, c: usize, n: nat) -> Option<usize>
    decreases n,
{
    if n == 0 {
        None
    } else {
        match first_above(matches, c, (n - 1) as nat) {
            Some(m) => Some(m),
            None => if matches[n - 1] > c {
                Some(matches[n - 1])
            } else {
                None
            },
        }
    }
}

/// The last of the first `n` matches before `c`.
pub open spec fn last_below(matches: Seq<usize>, c: usize, n: nat) -> Option<usize>
    decreases n,
{
    if n == 0 {
        None
    } else if matches[n - 1] < c {
        Some(matches[n - 1])
    } else {
        last_below(matches, c, (n - 1) as nat)
    }
}

/// Chooses the match a search moves to.
pub fn next_match(matches: &Vec<usize>, current: Option<usize>, reverse: bool) -> (r: Option<usize>)
    ensures
        r == next_match_of(matches@, current, reverse),
{
    if matches.len() == 0 {
        return None;
    }
    let c = match current {
        None => {
            return Some(if reverse { matches[matches.len() - 1] } else { matches[0] });
        },
        Some(c) => c,
    };
    if reverse {
        let mut k: usize = matches.len();
        while k > 0
            invariant
                k <= matches@.len(),
                matches@.len() > 0,
                current == Some(c),
                reverse,
                last_below(matches@, c, matches@.len()) == last_below(matches@, c, k as nat),
            decreases k,
        {
            if matches[k - 1] < c {
                return Some(matches[k - 1]);
            }
            k -= 1;
        }
        Some(matches[matches.len() - 1])
    } else {
        let mut k: usize = 0;
        let mut found: Option<usize> = None;
        while k < matches.len()
            invariant
                k <= matches@.len(),
                found == first_above(matches@, c, k as nat),
            decreases matches.len() - k,
        {
            if found.is_none() && matches[k] > c {
                found = Some(matches[k]);
            }
            k += 1;
        }
        match found {
            Some(m) => Some(m),
            None => Some(matches[0]),
        }
    }
}

/// The index of the first occurrence of `selected` among the matches.
pub open spec fn position_of(matches: Seq<usize>, selected: usize) -> Option<nat>
    decreases matches.len(),
{
    if matches.len() == 0 {
        None
    } else if matches[0] == selected {
        Some(0)
    } else {
        match position_of(matches.drop_first(), selected) {
            Some(p) => Some(p + 1),
            None => None,
        }
    }
}

/// The position (from 1) of a match among the matches; 1 when absent.
pub open spec fn match_number_of(matches: Seq<usize>, selected: usize) -> nat {
    match position_of(matches, selected) {
        Some(p) => p + 1,
        None => 1,
    }
}

/// The status line after moving to a match: `Match n of total for ‘query’`.
pub fn match_status(number: usize, total: usize, query: &str) -> (r: String)
    ensures
        r@ == "Match "@ + decimal(number as nat) + " of "@ + decimal(total as nat) + " for ‘"@ + query@
            + "’"@,
{
    let mut v = chars_of("Match ");
    append_str(&mut v, decimal_string(number as u128).as_str());
    append_str(&mut v, " of ");
    append_str(&mut v, decimal_string(total as u128).as_str());
    append_str(&mut v, " for ‘");
    append_str(&mut v, query);
    append_str(&mut v, "’");
    string_of(&v)
}

/// The status line when a search finds nothing.
pub fn no_match_status(query: &str) -> (r: String)
    ensures
        r@ == "No match for ‘"@ + query@ + "’"@,
{
    let mut v = chars_of("No match for ‘");
    append_str(&mut v, query);
    append_str(&mut v, "’");
    string_of(&v)
}

/// The match closest to where the previous one was (the first of equally
/// close ones), after the report changed.
pub open spec fn nearest_of(matches: Seq<usize>, previous: usize, n: nat) -> Option<usize>
    decreases n,
{
    if n == 0 {
        None
    } else {
        let m = matches[n - 1];
        match nearest_of(matches, previous, (n - 1) as nat) {
            Some(best) => if distance(m, previous) < distance(best, previous) {
                Some(m)
            } else {
                Some(best)
            },
            None => Some(m),
        }
    }
}

/// How far apart two line indices are.
pub open spec fn distance(a: usize, b: usize) -> nat {
    if a >= b {
        (a - b) as nat
    } else {
        (b - a) as nat
    }
}

/// Keeps the current match near where it was after the report changed.
pub fn nearest_match(matches: &Vec<usize>, previous: Option<usize>) -> (r: Option<usize>)
    ensures
        r == match previous {
            Some(p) => nearest_of(matches@, p, matches@.len()),
            None => None,
        },
{
    let p = match previous {
        Some(p) => p,
        None => return None,
    };
    let mut best: Option<usize> = None;
    let mut k: usize = 0;
    while k < matches.len()
        invariant
            k <= matches@.len(),
            best == nearest_of(matches@, p, k as nat),
        decreases matches.len() - k,
    {
        let m = matches[k];
        let dm = if m >= p { m - p } else { p - m };
        best = match best {
            Some(b) => {
                let db = if b >= p { b - p } else { p - b };
                if dm < db { Some(m) } else { Some(b) }
            },
            None => Some(m),
        };
        k += 1;
    }
    best
}

/// Whether a refresh should be requested now: not paused, none in flight,
/// the worker alive, and either due or forced.
pub open spec fn refresh_due(paused: bool, in_flight: bool, disconnected: bool, now: u128, next_refresh: u128, forced: bool) -> bool {
    !paused && !in_flight && !disconnected && (now >= next_refresh || forced)
}

pub fn should_request_refresh(paused: bool, in_flight: bool, disconnected: bool, now: u128, next_refresh: u128, forced: bool) -> (r: bool)
    ensures
        r == refresh_due(paused, in_flight, disconnected, now, next_refresh, forced),
{
    !paused && !in_flight && !disconnected && (now >= next_refresh || forced)
}

/// How long to wait for input: briefly while a refresh is in flight, a
/// second while paused or without a worker, else until the next refresh
/// but no longer than the poll interval.
pub fn poll_timeout(in_flight: bool, paused: bool, disconnected: bool, now: u128, next_refresh: u128) -> (r: u128)
    ensures
        r == (if in_flight {
            WORKER_POLL_INTERVAL_NANOS
        } else if paused || disconnected {
            1_000_000_000u128
        } else {
            let left: int = if next_refresh >= now { next_refresh - now } else { 0 };
            if left < WORKER_POLL_INTERVAL_NANOS { left as u128 } else { WORKER_POLL_INTERVAL_NANOS }
        }),
{
    if in_flight {
        return WORKER_POLL_INTERVAL_NANOS;
    }
    if paused || disconnected {
        return 1_000_000_000;
    }
    let left = next_refresh.saturating_sub(now);
    if left < WORKER_POLL_INTERVAL_NANOS {
        left
    } else {
        WORKER_POLL_INTERVAL_NANOS
    }
}

/// What a key does to the search being typed.
#[derive(Debug, Clone, Copy, PartialEq, Eq, Structural)]
pub enum SearchEdit {
    /// Leave search mode and drop the input.
    Cancel,
    /// Search for the trimmed input.
    Submit,
    /// Delete the last character.
    DeleteLast,
    /// Type a character.
    Insert(char),
    Ignore,
}

pub open spec fn search_edit_of(key: Key, ctrl: bool) -> SearchEdit {
    match key {
        Key::Esc => SearchEdit::Cancel,
        Key::Enter => SearchEdit::Submit,
        Key::Backspace => SearchEdit::DeleteLast,
        Key::Char(c) => if ctrl {
            SearchEdit::Ignore
        } else {
            SearchEdit::Insert(c)
        },
        _ => SearchEdit::Ignore,
    }
}

pub fn search_key_edit(key: Key, ctrl: bool) -> (r: SearchEdit)
    ensures
        r == search_edit_of(key, ctrl),
{
    match key {
        Key::Esc => SearchEdit::Cancel,
        Key::Enter => SearchEdit::Submit,
        Key::Backspace => SearchEdit::DeleteLast,
        Key::Char(c) => if ctrl {
            SearchEdit::Ignore
        } else {
            SearchEdit::Insert(c)
        },
        _ => SearchEdit::Ignore,
    }
}

/// The position (from 1) of a match among the matches; 1 when absent.
pub fn match_number(matches: &Vec<usize>, selected: usize) -> (r: usize)
    requires
        matches@.len() < usize::MAX,
    ensures
        r == match_number_of(matches@, selected),
{
    let mut k: usize = 0;
    assert(matches@.skip(0) =~= matches@);
    while k < matches.len()
        invariant
            k <= matches@.len(),
            matches@.len() < usize::MAX,
            position_of(matches@, selected) == match position_of(matches@.skip(k as int), selected) {
                Some(p) => Some((p + k) as nat),
                None => None,
            },
        decreases matches.len() - k,
    {
        assert(matches@.skip(k as int)[0] == matches@[k as int]);
        assert(matches@.skip(k as int).drop_first() =~= matches@.skip(k + 1));
        if matches[k] == selected {
            return k + 1;
        }
        k += 1;
    }
    assert(matches@.skip(k as int).len() == 0);
    1
}

} // verus!
