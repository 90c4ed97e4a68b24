//! What Hyprland says of the desktop: where the monitors and windows are.
//!
//! The host asks and hands the replies over; the replies to `j/monitors` and
//! `j/clients` are lists of JSON objects.

use vstd::prelude::*;
use vstd::slice::slice_subrange;

use crate::json::{
    entry_under, json_rows, key, key_entry, key_key, number_in, places, read_number, read_text,
    read_truth, read_whole_number, row_said, rows_in, rows_said, text_in, truth_in, under,
    under_both, whole_in, JsonItem, JsonReading, JsonScalar,
};
use crate::jsondoc::{serde_json_nodes, JsonPlace, JsonStep};
use crate::number::{at_least, one, ratio, Number};
use crate::text::{chars_of, same_text};
use crate::world::{Rect, Screen, World};

verus! {

/// Why a reply gives no desktop.
#[derive(Debug)]
pub enum HyprError {
    /// It is not JSON.
    Json(serde_json::Error),
    /// It is not a list.
    NotList,
    /// It has no monitor that is enabled.
    NoMonitors,
}

/// A monitor, in global logical pixels.
#[derive(Debug)]
pub struct Monitor<N> {
    pub id: i64,
    /// Connector name, e.g. `eDP-1`; how an output is matched to it.
    pub name: String,
    pub x: N,
    pub y: N,
    pub width: N,
    pub height: N,
    /// Space claimed by bars: left, top, right, bottom.
    pub reserved: (N, N, N, N),
    pub active_workspace: i64,
}

/// What is known of a monitor.
pub struct MonitorItem<N> {
    pub name: Seq<char>,
    pub screen: Screen<N>,
}

impl<N: Number> Monitor<N> {
    /// The monitor as the sheep see it.
    #[verifier::allow_in_spec]
    pub fn screen(&self) -> Screen<N>
        returns
            (Screen {
                id: self.id,
                x: self.x,
                y: self.y,
                w: self.width,
                h: self.height,
                reserved: self.reserved,
                workspace: self.active_workspace,
            }),
    {
        Screen {
            id: self.id,
            x: self.x,
            y: self.y,
            w: self.width,
            h: self.height,
            reserved: self.reserved,
            workspace: self.active_workspace,
        }
    }

    /// What is known of the monitor.
    pub open spec fn item(self) -> MonitorItem<N> {
        MonitorItem { name: self.name@, screen: self.screen() }
    }
}

/// What is known of the monitors.
pub open spec fn known<N: Number>(v: Seq<Monitor<N>>) -> Seq<MonitorItem<N>> {
    v.map_values(|m: Monitor<N>| m.item())
}

/// What is wanted of every monitor.
pub open spec fn monitor_places() -> Seq<Seq<JsonPlace>> {
    seq![
        under("disabled"@),
        under("scale"@),
        under("transform"@),
        under("width"@),
        under("height"@),
        under("id"@),
        under("name"@),
        under("x"@),
        under("y"@),
        entry_under("reserved"@, 0),
        entry_under("reserved"@, 1),
        entry_under("reserved"@, 2),
        entry_under("reserved"@, 3),
        under_both("activeWorkspace"@, "id"@),
        under("focused"@),
    ]
}

/// The paths to what is wanted of every monitor.
fn monitor_paths() -> (r: Vec<Vec<JsonStep>>)
    ensures
        places(r@) == monitor_places(),
{
    let mut paths: Vec<Vec<JsonStep>> = Vec::new();
    paths.push(key("disabled"));
    paths.push(key("scale"));
    paths.push(key("transform"));
    paths.push(key("width"));
    paths.push(key("height"));
    paths.push(key("id"));
    paths.push(key("name"));
    paths.push(key("x"));
    paths.push(key("y"));
    paths.push(key_entry("reserved", 0));
    paths.push(key_entry("reserved", 1));
    paths.push(key_entry("reserved", 2));
    paths.push(key_entry("reserved", 3));
    paths.push(key_key("activeWorkspace", "id"));
    paths.push(key("focused"));
    assert(places(paths@) =~= monitor_places());
    paths
}

/// A whole number in a row, or `default`.
pub open spec fn whole_or(row: Seq<JsonItem>, i: int, default: i64) -> i64 {
    match whole_in(row, i) {
        Some(n) => n,
        None => default,
    }
}

/// Reads a whole number, or `default`.
fn read_whole_or(row: &Vec<JsonScalar>, i: usize, default: i64) -> (r: i64)
    ensures
        r == whole_or(row_said(row@), i as int, default),
{
    match read_whole_number(row, i) {
        Some(n) => n,
        None => default,
    }
}

/// The size of a monitor as the layout has it.
///
/// Width and height are the *mode's* physical pixels, before both the scale
/// and the transform: a 2560x1440 panel hung sideways is still reported
/// 2560x1440, though it occupies 1440x2560 of the layout. Everything else that
/// is reported is post-transform logical space, so the monitor is the one
/// thing that has to be turned to match. The rotated transforms are the odd
/// ones, flipped or not: 1 (90°), 3 (270°), 5 (flipped 90°) and 7 (flipped
/// 270°).
#[verifier::allow_in_spec]
pub fn turned<N: Number>(width: N, height: N, scale: N, transform: i64) -> (N, N)
    returns
        ({
            let scale = at_least(scale, ratio::<N>(1, 100));
            let w = width.over(scale);
            let h = height.over(scale);
            if transform > 0 && transform % 2 == 1 {
                (h, w)
            } else {
                (w, h)
            }
        }),
{
    let scale = at_least(scale, ratio::<N>(1, 100));
    let w = width.over(scale);
    let h = height.over(scale);
    if transform > 0 && transform % 2 == 1 {
        (h, w)
    } else {
        (w, h)
    }
}

/// The monitor that a row of values says.
pub open spec fn monitor_of<N: Number>(row: Seq<JsonItem>) -> MonitorItem<N> {
    let (w, h) = turned(
        number_in::<N>(row, 3),
        number_in::<N>(row, 4),
        number_in::<N>(row, 1),
        whole_or(row, 2, 0),
    );
    MonitorItem {
        name: match text_in(row, 6) {
            Some(s) => s,
            None => seq![],
        },
        screen: Screen {
            id: whole_or(row, 5, 0),
            x: number_in::<N>(row, 7),
            y: number_in::<N>(row, 8),
            w,
            h,
            reserved: (
                number_in::<N>(row, 9),
                number_in::<N>(row, 10),
                number_in::<N>(row, 11),
                number_in::<N>(row, 12),
            ),
            workspace: whole_or(row, 13, -1i64),
        },
    }
}

/// Reads a monitor.
fn read_monitor<N: Number>(row: &Vec<JsonScalar>) -> (r: Monitor<N>)
    ensures
        r.item() == monitor_of::<N>(row_said(row@)),
{
    let (width, height) = turned(
        read_number::<N>(row, 3),
        read_number::<N>(row, 4),
        read_number::<N>(row, 1),
        read_whole_or(row, 2, 0),
    );
    let name = match read_text(row, 6) {
        Some(s) => s.to_string(),
        None => String::new(),
    };
    Monitor {
        id: read_whole_or(row, 5, 0),
        name,
        x: read_number(row, 7),
        y: read_number(row, 8),
        width,
        height,
        reserved: (
            read_number(row, 9),
            read_number(row, 10),
            read_number(row, 11),
            read_number(row, 12),
        ),
        active_workspace: read_whole_or(row, 13, -1),
    }
}

/// The rows from place `i` on of monitors that are enabled.
pub open spec fn enabled_from(rows: Seq<Seq<JsonItem>>, i: int) -> Seq<Seq<JsonItem>>
    decreases rows.len() - i,
{
    if 0 <= i < rows.len() {
        if truth_in(rows[i], 0) {
            enabled_from(rows, i + 1)
        } else {
            seq![rows[i]] + enabled_from(rows, i + 1)
        }
    } else {
        seq![]
    }
}

/// The monitors that the rows say.
pub open spec fn monitors_of<N: Number>(rows: Seq<Seq<JsonItem>>) -> Seq<MonitorItem<N>> {
    rows.map_values(|row: Seq<JsonItem>| monitor_of::<N>(row))
}

/// The first of the rows from place `i` on that is of the focused monitor.
pub open spec fn focused_from(rows: Seq<Seq<JsonItem>>, i: int) -> Option<int>
    decreases rows.len() - i,
{
    if 0 <= i < rows.len() {
        if truth_in(rows[i], 14) {
            Some(i)
        } else {
            focused_from(rows, i + 1)
        }
    } else {
        None
    }
}

/// The entries with the one in place `i` put first, in exchange for the first.
pub open spec fn put_first<T>(s: Seq<T>, i: Option<int>) -> Seq<T> {
    match i {
        Some(i) => s.update(0, s[i]).update(i, s[0]),
        None => s,
    }
}

/// Puts an entry first, in exchange for the first.
fn bring_first<T>(v: &mut Vec<T>, k: usize)
    requires
        k < old(v)@.len(),
    ensures
        final(v)@ == put_first(old(v)@, Some(k as int)),
        final(v)@.len() == old(v)@.len(),
{
    if k > 0 {
        let ghost s = v@;
        let wanted = v.remove(k);
        let first = v.remove(0);
        v.insert(0, wanted);
        v.insert(k, first);
        assert(v@ =~= put_first(s, Some(k as int)));
    } else {
        assert(v@ =~= put_first(v@, Some(0int)));
    }
}

/// Map the enabled entries of a `j/monitors` reply into the global logical
/// space every other coordinate is already in.
pub fn monitors_from<N: Number>(rows: &Vec<Vec<JsonScalar>>) -> (r: Vec<Monitor<N>>)
    ensures
        known(r@) == monitors_of::<N>(enabled_from(rows_said(rows@), 0)),
        r@.len() == enabled_from(rows_said(rows@), 0).len(),
{
    let ghost all = rows_said(rows@);
    let ghost enabled = enabled_from(all, 0);
    let mut out: Vec<Monitor<N>> = Vec::new();
    let ghost mut done: Seq<Seq<JsonItem>> = Seq::empty();
    let mut i: usize = 0;
    assert(done + enabled == enabled);
    assert(known(out@) == monitors_of::<N>(done));
    while i < rows.len()
        invariant
            i <= rows@.len(),
            all == rows_said(rows@),
            enabled == enabled_from(all, 0),
            enabled == done + enabled_from(all, i as int),
            known(out@) == monitors_of::<N>(done),
            out@.len() == done.len(),
        decreases rows@.len() - i,
    {
        let row = &rows[i];
        assert(all[i as int] == row_said(row@));
        if !read_truth(row, 0) {
            let ghost before = done;
            let m = read_monitor::<N>(row);
            let ghost item = m.item();
            let ghost had = known(out@);
            out.push(m);
            proof {
                done = done.push(all[i as int]);
                assert(before + (seq![all[i as int]] + enabled_from(all, i + 1)) == done
                    + enabled_from(all, i + 1));
                assert(known(out@) == had.push(item));
                assert(monitors_of::<N>(done) == monitors_of::<N>(before).push(
                    monitor_of::<N>(all[i as int]),
                ));
            }
        }
        i = i + 1;
    }
    assert(done + enabled_from(all, i as int) == done);
    out
}

/// Finds the focused monitor among the enabled ones.
fn find_focused(rows: &Vec<Vec<JsonScalar>>) -> (r: Option<usize>)
    ensures
        match r {
            Some(k) => focused_from(enabled_from(rows_said(rows@), 0), 0) == Some(k as int) && k
                < enabled_from(rows_said(rows@), 0).len(),
            None => focused_from(enabled_from(rows_said(rows@), 0), 0) is None,
        },
{
    let ghost all = rows_said(rows@);
    let ghost enabled = enabled_from(all, 0);
    let mut seen: usize = 0;
    let mut i: usize = 0;
    assert(enabled.skip(0) == enabled);
    while i < rows.len()
        invariant
            seen <= i <= rows@.len(),
            all == rows_said(rows@),
            enabled == enabled_from(all, 0),
            seen <= enabled.len(),
            enabled.skip(seen as int) == enabled_from(all, i as int),
            focused_from(enabled, 0) == focused_from(enabled, seen as int),
        decreases rows@.len() - i,
    {
        let row = &rows[i];
        assert(all[i as int] == row_said(row@));
        if !read_truth(row, 0) {
            let ghost rest = seq![all[i as int]] + enabled_from(all, i + 1);
            assert(enabled.skip(seen as int) == rest);
            assert(seen < enabled.len() && enabled[seen as int] == rest[0]) by {
                assert(enabled.skip(seen as int).len() == rest.len());
                assert(enabled.skip(seen as int)[0] == rest[0]);
            }
            if read_truth(row, 14) {
                return Some(seen);
            }
            assert(enabled.skip(seen + 1) == enabled.skip(seen as int).skip(1));
            assert(rest.skip(1) == enabled_from(all, i + 1));
            seen = seen + 1;
        }
        i = i + 1;
    }
    assert(enabled.skip(seen as int).len() == 0);
    None
}

/// The enabled monitors, the focused one first.
pub fn focused_first<N: Number>(rows: &Vec<Vec<JsonScalar>>) -> (r: Vec<Monitor<N>>)
    ensures
        ({
            let enabled = enabled_from(rows_said(rows@), 0);
            &&& known(r@) == put_first(monitors_of::<N>(enabled), focused_from(enabled, 0))
            &&& r@.len() == enabled.len()
        }),
{
    let mut out = monitors_from::<N>(rows);
    if let Some(k) = find_focused(rows) {
        let ghost before = out@;
        bring_first(&mut out, k);
        assert(known(out@) == put_first(known(before), Some(k as int)));
    }
    out
}

/// What a reply to `j/monitors` comes to.
pub enum MonitorReading<N> {
    NotJson,
    NotList,
    NoMonitors,
    Monitors(Seq<MonitorItem<N>>),
}

/// What a reading of rows comes to as a list of monitors.
pub open spec fn monitors_in<N: Number>(reading: JsonReading) -> MonitorReading<N> {
    match reading {
        JsonReading::NotJson => MonitorReading::NotJson,
        JsonReading::NotList => MonitorReading::NotList,
        JsonReading::Rows(rows) => {
            let enabled = enabled_from(rows, 0);
            if enabled.len() == 0 {
                MonitorReading::NoMonitors
            } else {
                MonitorReading::Monitors(
                    put_first(monitors_of::<N>(enabled), focused_from(enabled, 0)),
                )
            }
        },
    }
}

/// Read the monitor list, returning the focused one first.
pub fn monitors<N: Number>(reply: &[u8]) -> (r: Result<Vec<Monitor<N>>, HyprError>)
    ensures
        match monitors_in::<N>(rows_in(serde_json_nodes(reply@), monitor_places())) {
            MonitorReading::NotJson => r matches Err(HyprError::Json(_)),
            MonitorReading::NotList => r matches Err(HyprError::NotList),
            MonitorReading::NoMonitors => r matches Err(HyprError::NoMonitors),
            MonitorReading::Monitors(list) => r matches Ok(v) && known(v@) == list,
        },
{
    let paths = monitor_paths();
    let rows = match json_rows(reply, &paths) {
        Ok(Some(rows)) => rows,
        Ok(None) => {
            return Err(HyprError::NotList);
        },
        Err(e) => {
            return Err(HyprError::Json(e));
        },
    };
    let out = focused_first::<N>(&rows);
    assert(known(out@).len() == out@.len());
    if out.len() == 0 {
        return Err(HyprError::NoMonitors);
    }
    Ok(out)
}

// -- windows --

/// What is wanted of every window.
pub open spec fn window_places() -> Seq<Seq<JsonPlace>> {
    seq![
        under("mapped"@),
        under("hidden"@),
        under("monitor"@),
        under_both("workspace"@, "id"@),
        entry_under("size"@, 0),
        entry_under("size"@, 1),
        under("address"@),
        entry_under("at"@, 0),
        entry_under("at"@, 1),
    ]
}

/// The paths to what is wanted of every window.
fn window_paths() -> (r: Vec<Vec<JsonStep>>)
    ensures
        places(r@) == window_places(),
{
    let mut paths: Vec<Vec<JsonStep>> = Vec::new();
    paths.push(key("mapped"));
    paths.push(key("hidden"));
    paths.push(key("monitor"));
    paths.push(key_key("workspace", "id"));
    paths.push(key_entry("size", 0));
    paths.push(key_entry("size", 1));
    paths.push(key("address"));
    paths.push(key_entry("at", 0));
    paths.push(key_entry("at", 1));
    assert(places(paths@) =~= window_places());
    paths
}

/// What a hexadecimal digit is worth.
pub open spec fn hex_digit(c: char) -> Option<nat> {
    if '0' <= c <= '9' {
        Some((c as nat - '0' as nat) as nat)
    } else if 'a' <= c <= 'f' {
        Some((c as nat - 'a' as nat + 10) as nat)
    } else if 'A' <= c <= 'F' {
        Some((c as nat - 'A' as nat + 10) as nat)
    } else {
        None
    }
}

/// Are these hexadecimal digits, and more than none?
pub open spec fn is_hex(s: Seq<char>) -> bool {
    s.len() > 0 && forall|i: int| 0 <= i < s.len() ==> hex_digit(#[trigger] s[i]) is Some
}

/// What hexadecimal digits are worth.
pub open spec fn hex_worth(s: Seq<char>) -> nat
    decreases s.len(),
{
    if s.len() == 0 {
        0
    } else {
        hex_worth(s.drop_last()) * 16 + hex_digit(s.last())->0
    }
}

/// The text without `0x` in front, however often it stands there.
pub open spec fn without_prefix(s: Seq<char>) -> Seq<char>
    decreases s.len(),
{
    if s.len() >= 2 && s[0] == '0' && s[1] == 'x' {
        without_prefix(s.skip(2))
    } else {
        s
    }
}

/// The number a window's address stands for, if it fits.
pub open spec fn address_of(s: Seq<char>) -> Option<u64> {
    let rest = without_prefix(s);
    let digits = if rest.len() > 0 && rest[0] == '+' {
        rest.skip(1)
    } else {
        rest
    };
    if is_hex(digits) && hex_worth(digits) <= u64::MAX {
        Some(hex_worth(digits) as u64)
    } else {
        None
    }
}

/// What a hexadecimal digit is worth.
fn read_hex_digit(c: char) -> (r: Option<u32>)
    ensures
        match r {
            Some(d) => hex_digit(c) == Some(d as nat) && d < 16,
            None => hex_digit(c) is None,
        },
{
    if '0' <= c && c <= '9' {
        Some(c as u32 - '0' as u32)
    } else if 'a' <= c && c <= 'f' {
        Some(c as u32 - 'a' as u32 + 10)
    } else if 'A' <= c && c <= 'F' {
        Some(c as u32 - 'A' as u32 + 10)
    } else {
        None
    }
}

/// Reads hexadecimal digits.
fn read_hex(s: &[char]) -> (r: Option<u64>)
    ensures
        r == if is_hex(s@) && hex_worth(s@) <= u64::MAX {
            Some(hex_worth(s@) as u64)
        } else {
            None
        },
{
    if s.len() == 0 {
        return None;
    }
    let mut i: usize = 0;
    let mut n: u128 = 0;
    while i < s.len()
        invariant
            i <= s@.len(),
            n <= 0x1_0000_0000_0000_0000,
            n < 0x1_0000_0000_0000_0000 ==> n == hex_worth(s@.take(i as int)),
            n == 0x1_0000_0000_0000_0000 ==> hex_worth(s@.take(i as int))
                >= 0x1_0000_0000_0000_0000,
            forall|j: int| 0 <= j < i ==> hex_digit(#[trigger] s@[j]) is Some,
        decreases s@.len() - i,
    {
        let Some(d) = read_hex_digit(s[i]) else {
            assert(hex_digit(s@[i as int]) is None);
            return None;
        };
        assert(s@.take(i + 1).drop_last() == s@.take(i as int));
        n = n * 16 + d as u128;
        if n > 0x1_0000_0000_0000_0000 {
            n = 0x1_0000_0000_0000_0000;
        }
        i = i + 1;
    }
    assert(s@.take(i as int) == s@);
    if n < 0x1_0000_0000_0000_0000 {
        Some(n as u64)
    } else {
        None
    }
}

/// Reads a window's address. Addresses are hex strings; they give each window
/// a stable identity so the sheep can tell "moved" from "replaced".
pub fn read_address(s: &str) -> (r: Option<u64>)
    ensures
        r == address_of(s@),
{
    let text = chars_of(s);
    let mut from: usize = 0;
    let n: usize = text.len();
    assert(text@.skip(0) == text@);
    while n - from >= 2 && text[from] == '0' && text[from + 1] == 'x'
        invariant
            n == text@.len(),
            from <= n,
            without_prefix(text@) == without_prefix(text@.skip(from as int)),
        decreases n - from,
    {
        assert(text@.skip(from as int).skip(2) == text@.skip(from + 2));
        from = from + 2;
    }
    let ghost rest = text@.skip(from as int);
    assert(without_prefix(text@) == rest);
    if from < n && text[from] == '+' {
        let digits = slice_subrange(text.as_slice(), from + 1, n);
        assert(digits@ == rest.skip(1));
        read_hex(digits)
    } else {
        let digits = slice_subrange(text.as_slice(), from, n);
        assert(digits@ == rest);
        read_hex(digits)
    }
}

/// Is the window actually on screen: mapped, not hidden, and on the workspace
/// that its monitor is showing? Only those are walkable.
pub open spec fn on_screen<N: Number>(row: Seq<JsonItem>, monitors: Seq<Monitor<N>>) -> bool {
    truth_in(row, 0) && !truth_in(row, 1) && whole_in(row, 2) is Some && exists|i: int|
        0 <= i < monitors.len() && (#[trigger] monitors[i]).id == whole_in(row, 2)->0 && whole_in(
            row,
            3,
        ) == Some(monitors[i].active_workspace)
}

/// Is the window actually on screen?
fn is_on_screen<N: Number>(row: &Vec<JsonScalar>, monitors: &Vec<Monitor<N>>) -> (r: bool)
    ensures
        r == on_screen(row_said(row@), monitors@),
{
    if !read_truth(row, 0) || read_truth(row, 1) {
        return false;
    }
    let Some(mid) = read_whole_number(row, 2) else {
        return false;
    };
    let Some(ws) = read_whole_number(row, 3) else {
        return false;
    };
    let mut i: usize = 0;
    while i < monitors.len()
        invariant
            i <= monitors@.len(),
            truth_in(row_said(row@), 0),
            !truth_in(row_said(row@), 1),
            whole_in(row_said(row@), 2) == Some(mid),
            whole_in(row_said(row@), 3) == Some(ws),
            forall|j: int|
                0 <= j < i ==> !((#[trigger] monitors@[j]).id == mid
                    && monitors@[j].active_workspace == ws),
        decreases monitors@.len() - i,
    {
        if monitors[i].id == mid && monitors[i].active_workspace == ws {
            return true;
        }
        i = i + 1;
    }
    false
}

/// The window that a row of values says, if there is anything of it.
pub open spec fn window_of<N: Number>(row: Seq<JsonItem>) -> Option<Rect<N>> {
    let w = number_in::<N>(row, 4);
    let h = number_in::<N>(row, 5);
    if w.below(one()) || h.below(one()) {
        None
    } else {
        Some(
            Rect {
                id: match text_in(row, 6) {
                    Some(s) => match address_of(s) {
                        Some(id) => id,
                        None => 0,
                    },
                    None => 0,
                },
                x: number_in::<N>(row, 7),
                y: number_in::<N>(row, 8),
                w,
                h,
            },
        )
    }
}

/// Reads a window.
fn read_window<N: Number>(row: &Vec<JsonScalar>) -> (r: Option<Rect<N>>)
    ensures
        r == window_of::<N>(row_said(row@)),
{
    let w = read_number::<N>(row, 4);
    let h = read_number::<N>(row, 5);
    if w.below(one()) || h.below(one()) {
        return None;
    }
    let id = match read_text(row, 6) {
        Some(s) => match read_address(s) {
            Some(id) => id,
            None => 0,
        },
        None => 0,
    };
    Some(Rect { id, x: read_number(row, 7), y: read_number(row, 8), w, h })
}

/// The windows on screen that the rows from place `i` on say.
pub open spec fn windows_from<N: Number>(
    rows: Seq<Seq<JsonItem>>,
    monitors: Seq<Monitor<N>>,
    i: int,
) -> Seq<Rect<N>>
    decreases rows.len() - i,
{
    if 0 <= i < rows.len() {
        match window_of::<N>(rows[i]) {
            Some(r) if on_screen(rows[i], monitors) => seq![r] + windows_from(
                rows,
                monitors,
                i + 1,
            ),
            _ => windows_from(rows, monitors, i + 1),
        }
    } else {
        seq![]
    }
}

/// The test for a top edge at this height.
pub open spec fn at_height<N: Number>(rank: i64) -> spec_fn(Rect<N>) -> bool {
    |r: Rect<N>| r.y.rank() == rank
}

/// Are these the same windows with the highest up first, those of one height
/// in the order they had?
pub open spec fn sorted_by_height<N: Number>(sorted: Seq<Rect<N>>, windows: Seq<Rect<N>>) -> bool {
    &&& forall|i: int, j: int|
        0 <= i < j < sorted.len() ==> (#[trigger] sorted[i]).y.rank() <= (
        #[trigger] sorted[j]).y.rank()
    &&& forall|rank: i64|
        sorted.filter(#[trigger] at_height::<N>(rank)) == windows.filter(at_height::<N>(rank))
}

proof fn lemma_inserted<N: Number>(
    before: Seq<Rect<N>>,
    windows: Seq<Rect<N>>,
    r: Rect<N>,
    k: int,
)
    requires
        sorted_by_height(before, windows),
        0 <= k <= before.len(),
        forall|i: int| 0 <= i < k ==> (#[trigger] before[i]).y.rank() <= r.y.rank(),
        forall|i: int| k <= i < before.len() ==> (#[trigger] before[i]).y.rank() > r.y.rank(),
    ensures
        sorted_by_height(before.insert(k, r), windows.push(r)),
{
    let after = before.insert(k, r);
    let head = before.take(k);
    let tail = before.skip(k);
    assert(before == head + tail);
    assert(after == head.push(r) + tail);
    assert forall|i: int, j: int| 0 <= i < j < after.len() implies (#[trigger] after[i]).y.rank()
        <= (#[trigger] after[j]).y.rank() by {
        if j < k {
            assert(after[i] == before[i] && after[j] == before[j]);
        } else if j == k {
            assert(after[i] == before[i]);
        } else if i < k {
            assert(after[i] == before[i] && after[j] == before[j - 1]);
        } else if i == k {
            assert(after[j] == before[j - 1]);
        } else {
            assert(after[i] == before[i - 1] && after[j] == before[j - 1]);
        }
    }
    assert forall|rank: i64|
        after.filter(#[trigger] at_height::<N>(rank)) == windows.push(r).filter(
            at_height::<N>(rank),
        ) by {
        let test = at_height::<N>(rank);
        assert(before.filter(test) == windows.filter(test));
        Seq::filter_distributes_over_add(head, tail, test);
        Seq::filter_distributes_over_add(head.push(r), tail, test);
        lemma_filter_of_push(head, r, test);
        lemma_filter_of_push(windows, r, test);
        if rank == r.y.rank() {
            assert(tail.filter(test) == Seq::<Rect<N>>::empty()) by {
                assert forall|i: int| 0 <= i < tail.len() implies !test(#[trigger] tail[i]) by {
                    assert(tail[i] == before[k + i]);
                }
                lemma_filter_of_none(tail, test);
            }
            assert(head.filter(test).push(r) + tail.filter(test) == (head.filter(test)
                + tail.filter(test)).push(r));
        } else {
            assert(!test(r));
        }
    }
}

proof fn lemma_filter_of_push<T>(s: Seq<T>, x: T, test: spec_fn(T) -> bool)
    ensures
        s.push(x).filter(test) == if test(x) {
            s.filter(test).push(x)
        } else {
            s.filter(test)
        },
{
    reveal(Seq::filter);
    assert(s.push(x).drop_last() == s);
}

proof fn lemma_filter_of_none<T>(s: Seq<T>, test: spec_fn(T) -> bool)
    requires
        forall|i: int| 0 <= i < s.len() ==> !test(#[trigger] s[i]),
    ensures
        s.filter(test) == Seq::<T>::empty(),
    decreases s.len(),
{
    reveal(Seq::filter);
    if s.len() > 0 {
        assert(!test(s[s.len() - 1]));
        lemma_filter_of_none(s.drop_last(), test);
    }
}

/// Sorts windows by height. Landing on whatever is highest up is preferred, so
/// the sheep walks along the topmost edge rather than one buried behind it.
fn sort_by_height<N: Number>(windows: &Vec<Rect<N>>) -> (r: Vec<Rect<N>>)
    ensures
        sorted_by_height(r@, windows@),
{
    let mut out: Vec<Rect<N>> = Vec::new();
    let mut i: usize = 0;
    assert(windows@.take(0) == out@);
    while i < windows.len()
        invariant
            i <= windows@.len(),
            out@.len() == i,
            sorted_by_height(out@, windows@.take(i as int)),
        decreases windows@.len() - i,
    {
        let r: Rect<N> = windows[i];
        let rank: i64 = r.y.rank();
        let mut k: usize = out.len();
        while k > 0 && out[k - 1].y.rank() > rank
            invariant
                k <= out@.len(),
                rank == r.y.rank(),
                forall|j: int|
                    k <= j < out@.len() ==> (#[trigger] out@[j]).y.rank() > r.y.rank(),
            decreases k,
        {
            k = k - 1;
        }
        proof {
            assert forall|j: int| 0 <= j < k implies (#[trigger] out@[j]).y.rank()
                <= r.y.rank() by {
                if j < k - 1 {
                    assert(out@[j].y.rank() <= out@[k - 1].y.rank());
                }
            }
            lemma_inserted(out@, windows@.take(i as int), r, k as int);
            assert(windows@.take(i + 1) == windows@.take(i as int).push(r));
        }
        out.insert(k, r);
        i = i + 1;
    }
    assert(windows@.take(i as int) == windows@);
    out
}

/// The screens that the monitors are.
pub open spec fn screens_of<N: Number>(monitors: Seq<Monitor<N>>) -> Seq<Screen<N>> {
    monitors.map_values(|m: Monitor<N>| m.screen())
}

/// Builds the world of these monitors and the windows in these rows.
pub fn world_from<N: Number>(monitors: &Vec<Monitor<N>>, rows: &Vec<Vec<JsonScalar>>) -> (r: World<
    N,
>)
    ensures
        r.screens@ == screens_of(monitors@),
        sorted_by_height(r.windows@, windows_from(rows_said(rows@), monitors@, 0)),
        r.flock@.len() == 0,
        r.pointer is None,
{
    let ghost all = rows_said(rows@);
    let mut windows: Vec<Rect<N>> = Vec::new();
    let mut i: usize = 0;
    while i < rows.len()
        invariant
            i <= rows@.len(),
            all == rows_said(rows@),
            windows_from(all, monitors@, 0) == windows@ + windows_from(
                all,
                monitors@,
                i as int,
            ),
        decreases rows@.len() - i,
    {
        let row = &rows[i];
        assert(all[i as int] == row_said(row@));
        if is_on_screen(row, monitors) {
            if let Some(r) = read_window::<N>(row) {
                let ghost before = windows@;
                windows.push(r);
                assert(before + (seq![r] + windows_from(all, monitors@, i + 1)) == windows@
                    + windows_from(all, monitors@, i + 1));
            }
        }
        i = i + 1;
    }
    assert(windows@ + windows_from(all, monitors@, i as int) == windows@);
    let mut screens: Vec<Screen<N>> = Vec::new();
    let mut k: usize = 0;
    while k < monitors.len()
        invariant
            k <= monitors@.len(),
            screens@ == screens_of(monitors@).take(k as int),
        decreases monitors@.len() - k,
    {
        screens.push(monitors[k].screen());
        k = k + 1;
        assert(screens_of(monitors@).take(k as int) == screens_of(monitors@).take(k - 1).push(
            screens_of(monitors@)[k - 1],
        ));
    }
    assert(screens_of(monitors@).take(k as int) == screens_of(monitors@));
    World { screens, windows: sort_by_height(&windows), flock: Vec::new(), pointer: None }
}

/// Build the sheep's world: every monitor, and every window visible on one.
///
/// Window positions are reported in the same global logical space that
/// monitors are laid out in, so no translation is needed.
pub fn snapshot<N: Number>(monitors: &Vec<Monitor<N>>, reply: &[u8]) -> (r: Result<
    World<N>,
    HyprError,
>)
    ensures
        match rows_in(serde_json_nodes(reply@), window_places()) {
            JsonReading::NotJson => r matches Err(HyprError::Json(_)),
            JsonReading::NotList => r matches Err(HyprError::NotList),
            JsonReading::Rows(rows) => r matches Ok(w) && w.screens@ == screens_of(monitors@)
                && sorted_by_height(w.windows@, windows_from(rows, monitors@, 0)) && w.flock@.len()
                == 0 && w.pointer is None,
        },
{
    let paths = window_paths();
    match json_rows(reply, &paths) {
        Ok(Some(rows)) => Ok(world_from(monitors, &rows)),
        Ok(None) => Err(HyprError::NotList),
        Err(e) => Err(HyprError::Json(e)),
    }
}

/// Are the two windows in one place?
#[verifier::allow_in_spec]
pub fn same_rect<N: Number>(a: &Rect<N>, b: &Rect<N>) -> bool
    returns
        a.id == b.id && a.x.same(b.x) && a.y.same(b.y) && a.w.same(b.w) && a.h.same(b.h),
{
    a.id == b.id && a.x.same(b.x) && a.y.same(b.y) && a.w.same(b.w) && a.h.same(b.h)
}

/// Has any window really moved, come or gone? Events alone are a poor signal
/// that a drag is in progress - a terminal retitling itself emits a stream of
/// them - so it is the geometry that is compared.
pub fn windows_changed<N: Number>(a: &Vec<Rect<N>>, b: &Vec<Rect<N>>) -> (r: bool)
    ensures
        r == !(a@.len() == b@.len() && forall|i: int|
            0 <= i < a@.len() ==> same_rect(#[trigger] &a@[i], &b@[i])),
{
    if a.len() != b.len() {
        return true;
    }
    let mut i: usize = 0;
    while i < a.len()
        invariant
            i <= a@.len(),
            a@.len() == b@.len(),
            forall|j: int| 0 <= j < i ==> same_rect(#[trigger] &a@[j], &b@[j]),
        decreases a@.len() - i,
    {
        if !same_rect(&a[i], &b[i]) {
            return true;
        }
        i = i + 1;
    }
    false
}

/// Where the first monitor from place `i` on with this name is.
pub open spec fn origin_from<N: Number>(
    monitors: Seq<Monitor<N>>,
    name: Seq<char>,
    i: int,
) -> Option<(N, N)>
    decreases monitors.len() - i,
{
    if 0 <= i < monitors.len() {
        if monitors[i].name@ == name {
            Some((monitors[i].x, monitors[i].y))
        } else {
            origin_from(monitors, name, i + 1)
        }
    } else {
        None
    }
}

/// Where the monitor of an output is, if it is known.
pub fn origin_of<N: Number>(monitors: &Vec<Monitor<N>>, name: &str) -> (r: Option<(N, N)>)
    ensures
        r == origin_from(monitors@, name@, 0),
{
    let wanted = chars_of(name);
    let mut i: usize = 0;
    while i < monitors.len()
        invariant
            i <= monitors@.len(),
            wanted@ == name@,
            origin_from(monitors@, name@, 0) == origin_from(monitors@, name@, i as int),
        decreases monitors@.len() - i,
    {
        let here = chars_of(monitors[i].name.as_str());
        if same_text(here.as_slice(), wanted.as_slice()) {
            return Some((monitors[i].x, monitors[i].y));
        }
        i = i + 1;
    }
    None
}

// -- what holds of every desktop --

/// A monitor hung sideways is turned to match the layout; one that is upright
/// keeps its mode. The scale applies before the turn.
pub proof fn a_turned_monitor_swaps_its_sides<N: Number>(
    width: N,
    height: N,
    scale: N,
    transform: i64,
)
    requires
        0 <= transform <= 7,
    ensures
        ({
            let (w, h) = turned(width, height, scale, transform);
            let (uw, uh) = turned(width, height, scale, 0);
            if transform == 1 || transform == 3 || transform == 5 || transform == 7 {
                w == uh && h == uw
            } else {
                w == uw && h == uh
            }
        }),
{
}

/// The windows of the world are those of the reply that are on screen, each as
/// often as it was said: sorting drops none and makes none up.
pub proof fn sorting_keeps_every_window<N: Number>(
    sorted: Seq<Rect<N>>,
    windows: Seq<Rect<N>>,
    r: Rect<N>,
)
    requires
        sorted_by_height(sorted, windows),
    ensures
        sorted.contains(r) <==> windows.contains(r),
{
    broadcast use vstd::seq_lib::group_filter_ensures;

    let test = at_height::<N>(r.y.rank());
    assert(sorted.filter(test) == windows.filter(test));
    if sorted.contains(r) {
        assert(test(r));
        assert(sorted.filter(test).contains(r));
        windows.lemma_filter_contains_rev(test, r);
    }
    if windows.contains(r) {
        assert(test(r));
        assert(windows.filter(test).contains(r));
        sorted.lemma_filter_contains_rev(test, r);
    }
}

} // verus!
