//! What the replies of the compositor say of the desktop.

use vstd::prelude::*;

use crate::decimals::{is_cut_off, quotients_are_cut_off};
use crate::fixed::{quotient_of, Fixed};
use crate::ground::PIXEL;
use crate::hypr::{
    address_of, enabled_from, focused_from, hex_digit, hex_worth, monitor_of, monitor_places,
    monitors_of, on_screen, origin_from, put_first, same_rect, screens_of, sorted_by_height, turned,
    window_of, window_places, windows_from, without_prefix, Monitor,
};
use crate::json::{item_along, row_at, rows_from, truth_in, JsonItem};
use crate::jsondoc::{step_from, step_into, walk_from, JsonEntry, JsonPlace, JsonWorth};
use crate::number::{one, ratio, Number};
use crate::text::signed_number;
use crate::world::Rect;

verus! {

/// What an object says under a key.
pub open spec fn said(doc: Seq<JsonEntry>, at: usize, key: Seq<char>) -> JsonItem {
    item_along(doc, at, seq![JsonPlace::Key(key)])
}

/// What an object says in a place of the list under a key.
pub open spec fn listed_under(
    doc: Seq<JsonEntry>,
    at: usize,
    key: Seq<char>,
    i: usize,
) -> JsonItem {
    item_along(doc, at, seq![JsonPlace::Key(key), JsonPlace::Index(i)])
}

/// What an object says under a key of the object under another.
pub open spec fn said_within(
    doc: Seq<JsonEntry>,
    at: usize,
    outer: Seq<char>,
    key: Seq<char>,
) -> JsonItem {
    item_along(doc, at, seq![JsonPlace::Key(outer), JsonPlace::Key(key)])
}

/// The number that is said: zero where none is.
pub open spec fn number_said(item: JsonItem) -> Fixed {
    if item is Number && Fixed::spec_read(item->Number_0) is Some {
        Fixed::spec_read(item->Number_0)->0
    } else {
        Fixed { raw: 0 }
    }
}

/// The whole number that is said, if one is.
pub open spec fn whole_said(item: JsonItem) -> Option<i64> {
    if item is Number {
        signed_number(item->Number_0)
    } else {
        None
    }
}

/// Is the entry in place `n` the first behind that in place `at` that belongs
/// to it and stands there under this step?
pub open spec fn is_first_under(doc: Seq<JsonEntry>, at: usize, step: JsonPlace, n: usize) -> bool {
    &&& at < n < doc.len() <= usize::MAX
    &&& doc[n as int].parent == at
    &&& doc[n as int].step == step
    &&& forall|j: int|
        at < j < n ==> !((#[trigger] doc[j]).parent == at && doc[j].step == step)
}

/// What a value says by itself: lists, objects and nulls say nothing.
pub open spec fn says_by_itself(value: JsonWorth, item: JsonItem) -> bool {
    match value {
        JsonWorth::Flag(b) => item == JsonItem::Bool(b),
        JsonWorth::Digits(n) => item == JsonItem::Number(n),
        JsonWorth::Text(t) => item == JsonItem::Text(t),
        JsonWorth::Nil => item == JsonItem::Nothing,
        JsonWorth::List => item == JsonItem::Nothing,
        JsonWorth::Members => item == JsonItem::Nothing,
    }
}

proof fn lemma_step(doc: Seq<JsonEntry>, at: usize, step: JsonPlace, n: usize, from: int)
    requires
        is_first_under(doc, at, step, n),
        at < from <= n,
    ensures
        step_from(doc, at, step, from) == Some(n),
    decreases n - from,
{
    if from < n {
        lemma_step(doc, at, step, n, from + 1);
    }
}

proof fn lemma_no_step(doc: Seq<JsonEntry>, at: usize, step: JsonPlace, from: int)
    requires
        at < from,
        forall|j: int|
            at < j < doc.len() ==> !((#[trigger] doc[j]).parent == at && doc[j].step == step),
    ensures
        step_from(doc, at, step, from) is None,
    decreases doc.len() - from,
{
    if from < doc.len() {
        lemma_no_step(doc, at, step, from + 1);
    }
}

/// A path leads step by step from an entry to one that belongs to it, and what
/// that says by itself is what is found; where a step leads nowhere nothing
/// is.
pub proof fn a_path_leads_step_by_step(
    doc: Seq<JsonEntry>,
    at: usize,
    first: JsonPlace,
    then: JsonPlace,
    n: usize,
    m: usize,
)
    ensures
        is_first_under(doc, at, first, n) ==> says_by_itself(
            doc[n as int].value,
            item_along(doc, at, seq![first]),
        ),
        is_first_under(doc, at, first, n) && is_first_under(doc, n, then, m) ==> says_by_itself(
            doc[m as int].value,
            item_along(doc, at, seq![first, then]),
        ),
        (forall|j: int|
            at < j < doc.len() ==> !((#[trigger] doc[j]).parent == at && doc[j].step == first))
            ==> item_along(doc, at, seq![first]) == JsonItem::Nothing && item_along(
            doc,
            at,
            seq![first, then],
        ) == JsonItem::Nothing,
{
    reveal_with_fuel(walk_from, 4);
    if is_first_under(doc, at, first, n) {
        lemma_step(doc, at, first, n, at + 1);
        if is_first_under(doc, n, then, m) {
            lemma_step(doc, n, then, m, n + 1);
        }
    }
    if forall|j: int|
        at < j < doc.len() ==> !((#[trigger] doc[j]).parent == at && doc[j].step == first) {
        lemma_no_step(doc, at, first, at + 1);
    }
}

/// Every row is of an entry of the list, in the order of the list, and no
/// entry is left out.
pub proof fn rows_are_the_entries_of_the_list(
    doc: Seq<JsonEntry>,
    paths: Seq<Seq<JsonPlace>>,
    from: int,
    i: int,
)
    requires
        0 <= from <= i < doc.len(),
        forall|j: int|
            from <= j <= i ==> (#[trigger] step_into(doc, 0, JsonPlace::Index(j as usize))) is Some,
    ensures
        ({
            let rows = rows_from(doc, paths, from);
            let at = step_into(doc, 0, JsonPlace::Index(i as usize))->0;
            &&& i - from < rows.len()
            &&& rows[i - from].len() == paths.len()
            &&& forall|k: int|
                0 <= k < paths.len() ==> (#[trigger] rows[i - from][k]) == item_along(
                    doc,
                    at,
                    paths[k],
                )
        }),
    decreases i - from,
{
    assert(step_into(doc, 0, JsonPlace::Index(from as usize)) is Some);
    if from < i {
        rows_are_the_entries_of_the_list(doc, paths, from + 1, i);
        assert(rows_from(doc, paths, from)[i - from] == rows_from(doc, paths, from + 1)[i - from
            - 1]);
    }
}

// -- monitors --

/// A monitor is what its entry in the reply says, field by field.
pub proof fn a_monitor_is_as_it_is_said(doc: Seq<JsonEntry>, at: usize)
    ensures
        ({
            let m = monitor_of::<Fixed>(row_at(doc, at, monitor_places()));
            let name = said(doc, at, "name"@);
            let id = whole_said(said(doc, at, "id"@));
            let workspace = whole_said(said_within(doc, at, "activeWorkspace"@, "id"@));
            &&& name is Text ==> m.name == name->Text_0
            &&& !(name is Text) ==> m.name.len() == 0
            &&& id is Some ==> m.screen.id == id->0
            &&& id is None ==> m.screen.id == 0
            &&& workspace is Some ==> m.screen.workspace == workspace->0
            &&& workspace is None ==> m.screen.workspace == -1
            &&& m.screen.x == number_said(said(doc, at, "x"@))
            &&& m.screen.y == number_said(said(doc, at, "y"@))
            &&& m.screen.reserved.0 == number_said(listed_under(doc, at, "reserved"@, 0))
            &&& m.screen.reserved.1 == number_said(listed_under(doc, at, "reserved"@, 1))
            &&& m.screen.reserved.2 == number_said(listed_under(doc, at, "reserved"@, 2))
            &&& m.screen.reserved.3 == number_said(listed_under(doc, at, "reserved"@, 3))
        }),
{
}

/// A monitor takes up its mode divided by its scale, which counts as a
/// hundredth at least: upright as it is, and with its sides exchanged where it
/// is turned by a quarter.
pub proof fn a_monitor_takes_up_its_scaled_mode(doc: Seq<JsonEntry>, at: usize)
    requires
        0 <= number_said(said(doc, at, "width"@)).raw <= 1_000_000 * PIXEL,
        0 <= number_said(said(doc, at, "height"@)).raw <= 1_000_000 * PIXEL,
    ensures
        ({
            let sc = monitor_of::<Fixed>(row_at(doc, at, monitor_places())).screen;
            let width = number_said(said(doc, at, "width"@)).raw;
            let height = number_said(said(doc, at, "height"@)).raw;
            let scale = number_said(said(doc, at, "scale"@)).raw as int;
            let by = if scale < PIXEL as int / 100 {
                PIXEL as int / 100
            } else {
                scale
            };
            let t = whole_said(said(doc, at, "transform"@));
            let is_turned = t == Some(1i64) || t == Some(3i64) || t == Some(5i64) || t == Some(
                7i64,
            );
            let is_upright = t is None || t == Some(0i64) || t == Some(2i64) || t == Some(4i64) || t
                == Some(6i64);
            &&& is_upright ==> is_cut_off(sc.w.raw as int, width * PIXEL, by) && is_cut_off(
                sc.h.raw as int,
                height * PIXEL,
                by,
            )
            &&& is_turned ==> is_cut_off(sc.h.raw as int, width * PIXEL, by) && is_cut_off(
                sc.w.raw as int,
                height * PIXEL,
                by,
            )
        }),
{
    let width = number_said(said(doc, at, "width"@));
    let height = number_said(said(doc, at, "height"@));
    let scale = number_said(said(doc, at, "scale"@));
    let hundredth = ratio::<Fixed>(1, 100);
    assert(hundredth.raw == 100_000_000) by {
        assert(quotient_of(PIXEL * PIXEL, 100 * PIXEL) == 100_000_000) by (nonlinear_arith)
            requires
                PIXEL == 10_000_000_000,
        ;
    }
    let by = if scale.raw < 100_000_000 {
        hundredth
    } else {
        scale
    };
    lemma_scaled(width, by);
    lemma_scaled(height, by);
}

proof fn lemma_scaled(v: Fixed, by: Fixed)
    requires
        0 <= v.raw <= 1_000_000 * PIXEL,
        by.raw >= 100_000_000,
    ensures
        is_cut_off(v.over(by).raw as int, v.raw * PIXEL, by.raw as int),
{
    let n = v.raw * PIXEL;
    let q = n / by.raw as int;
    assert(0 <= n && 0 <= q <= 1_000_000_000_000_000_000) by (nonlinear_arith)
        requires
            0 <= v.raw <= 1_000_000 * PIXEL,
            PIXEL == 10_000_000_000,
            n == v.raw * PIXEL,
            q == n / by.raw as int,
            by.raw >= 100_000_000,
    ;
    assert(quotient_of(n, by.raw as int) == q);
    quotients_are_cut_off(v, by);
}

proof fn lemma_enabled(rows: Seq<Seq<JsonItem>>, i: int)
    requires
        0 <= i <= rows.len(),
    ensures
        enabled_from(rows, i) == rows.skip(i).filter(|row: Seq<JsonItem>| !truth_in(row, 0)),
    decreases rows.len() - i,
{
    let test = |row: Seq<JsonItem>| !truth_in(row, 0);
    let rest = rows.skip(i);
    reveal(Seq::filter);
    if i < rows.len() {
        lemma_enabled(rows, i + 1);
        assert(rest == seq![rows[i]] + rows.skip(i + 1));
        Seq::filter_distributes_over_add(seq![rows[i]], rows.skip(i + 1), test);
        assert(seq![rows[i]].drop_last() == Seq::<Seq<JsonItem>>::empty());
        assert(seq![rows[i]].drop_last().filter(test) == Seq::<Seq<JsonItem>>::empty());
        if truth_in(rows[i], 0) {
            assert(rest.filter(test) == Seq::<Seq<JsonItem>>::empty() + rows.skip(i + 1).filter(
                test,
            ));
        }
    } else {
        assert(rest.len() == 0);
    }
}

/// The monitors are those of the reply that it does not call disabled, in its
/// order.
pub proof fn monitors_are_those_enabled(rows: Seq<Seq<JsonItem>>)
    ensures
        monitor_places()[0] == seq![JsonPlace::Key("disabled"@)],
        ({
            let enabled = rows.filter(
                |row: Seq<JsonItem>| !(row.len() > 0 && row[0] == JsonItem::Bool(true)),
            );
            let monitors = monitors_of::<Fixed>(enabled_from(rows, 0));
            &&& monitors.len() == enabled.len()
            &&& forall|k: int|
                0 <= k < enabled.len() ==> (#[trigger] monitors[k]) == monitor_of::<Fixed>(
                    enabled[k],
                )
        }),
{
    lemma_enabled(rows, 0);
    assert(rows.skip(0) == rows);
    let test = |row: Seq<JsonItem>| !truth_in(row, 0);
    let same = |row: Seq<JsonItem>| !(row.len() > 0 && row[0] == JsonItem::Bool(true));
    assert(test =~= same);
}

proof fn lemma_focused(rows: Seq<Seq<JsonItem>>, i: int)
    requires
        0 <= i <= rows.len(),
    ensures
        match focused_from(rows, i) {
            Some(k) => i <= k < rows.len() && truth_in(rows[k], 14) && forall|j: int|
                i <= j < k ==> !truth_in(#[trigger] rows[j], 14),
            None => forall|j: int| i <= j < rows.len() ==> !truth_in(#[trigger] rows[j], 14),
        },
    decreases rows.len() - i,
{
    if i < rows.len() {
        lemma_focused(rows, i + 1);
    }
}

/// The focused monitor comes first. The one that was first takes its place,
/// and every other stays where it is.
pub proof fn the_focused_monitor_comes_first(rows: Seq<Seq<JsonItem>>, k: int)
    requires
        0 <= k < rows.len(),
        forall|j: int| 0 <= j < rows.len() ==> (#[trigger] rows[j]).len() == 15,
        rows[k][14] == JsonItem::Bool(true),
        forall|j: int| 0 <= j < k ==> (#[trigger] rows[j])[14] != JsonItem::Bool(true),
    ensures
        monitor_places()[14] == seq![JsonPlace::Key("focused"@)],
        ({
            let all = monitors_of::<Fixed>(rows);
            let sorted = put_first(all, focused_from(rows, 0));
            &&& sorted.len() == all.len()
            &&& sorted[0] == monitor_of::<Fixed>(rows[k])
            &&& sorted[k] == monitor_of::<Fixed>(rows[0])
            &&& forall|j: int|
                0 < j < rows.len() && j != k ==> (#[trigger] sorted[j]) == monitor_of::<Fixed>(
                    rows[j],
                )
        }),
{
    lemma_focused(rows, 0);
    assert(rows[k].len() == 15);
    let f = focused_from(rows, 0)->0;
    if f < k {
        assert(rows[f].len() == 15);
    }
}

/// Where nothing is focused the order of the reply stands.
pub proof fn unfocused_monitors_keep_their_order(rows: Seq<Seq<JsonItem>>)
    requires
        forall|j: int| 0 <= j < rows.len() ==> (#[trigger] rows[j]).len() == 15,
        forall|j: int| 0 <= j < rows.len() ==> (#[trigger] rows[j])[14] != JsonItem::Bool(true),
    ensures
        put_first(monitors_of::<Fixed>(rows), focused_from(rows, 0)) == monitors_of::<Fixed>(rows),
{
    lemma_focused(rows, 0);
    if focused_from(rows, 0) is Some {
        let f = focused_from(rows, 0)->0;
        assert(rows[f].len() == 15);
    }
}

/// A panel is put where the first monitor of the panel's name is, and nowhere
/// if there is none of that name.
pub proof fn an_output_is_where_its_monitor_is<N: Number>(
    monitors: Seq<Monitor<N>>,
    name: Seq<char>,
    from: int,
)
    requires
        0 <= from <= monitors.len(),
    ensures
        match origin_from(monitors, name, from) {
            Some(at) => exists|i: int|
                from <= i < monitors.len() && (#[trigger] monitors[i]).name@ == name && at == (
                    monitors[i].x,
                    monitors[i].y,
                ) && forall|j: int|
                    from <= j < i ==> (#[trigger] monitors[j]).name@ != name,
            None => forall|i: int|
                from <= i < monitors.len() ==> (#[trigger] monitors[i]).name@ != name,
        },
    decreases monitors.len() - from,
{
    if from < monitors.len() {
        an_output_is_where_its_monitor_is(monitors, name, from + 1);
        if monitors[from].name@ == name {
            assert(monitors[from].name@ == name);
        } else if origin_from(monitors, name, from + 1) is Some {
            let at = origin_from(monitors, name, from + 1)->0;
            let i = choose|i: int|
                from + 1 <= i < monitors.len() && (#[trigger] monitors[i]).name@ == name && at == (
                    monitors[i].x,
                    monitors[i].y,
                ) && forall|j: int|
                    from + 1 <= j < i ==> (#[trigger] monitors[j]).name@ != name;
            assert(monitors[i].name@ == name);
        }
    }
}

/// The screens of the world are the monitors, in their order and in their
/// places.
pub proof fn screens_are_the_monitors<N: Number>(monitors: Seq<Monitor<N>>, i: int)
    requires
        0 <= i < monitors.len(),
    ensures
        screens_of(monitors).len() == monitors.len(),
        ({
            let sc = screens_of(monitors)[i];
            let m = monitors[i];
            &&& sc.id == m.id
            &&& sc.x == m.x
            &&& sc.y == m.y
            &&& sc.w == m.width
            &&& sc.h == m.height
            &&& sc.reserved == m.reserved
            &&& sc.workspace == m.active_workspace
        }),
{
}

// -- windows --

/// A window shows where it is mapped, is not hidden, and lies on the workspace
/// that its monitor is showing.
pub proof fn a_window_shows_on_its_monitors_workspace(
    doc: Seq<JsonEntry>,
    at: usize,
    monitors: Seq<Monitor<Fixed>>,
)
    ensures
        on_screen(row_at(doc, at, window_places()), monitors) <==> {
            let id = whole_said(said(doc, at, "monitor"@));
            let workspace = whole_said(said_within(doc, at, "workspace"@, "id"@));
            &&& said(doc, at, "mapped"@) == JsonItem::Bool(true)
            &&& said(doc, at, "hidden"@) != JsonItem::Bool(true)
            &&& exists|i: int|
                0 <= i < monitors.len() && id == Some((#[trigger] monitors[i]).id) && workspace
                    == Some(monitors[i].active_workspace)
        },
{
    let row = row_at(doc, at, window_places());
    assert(row[0] == said(doc, at, "mapped"@));
    assert(row[1] == said(doc, at, "hidden"@));
    assert(row[2] == said(doc, at, "monitor"@));
    assert(row[3] == said_within(doc, at, "workspace"@, "id"@));
    let id = whole_said(row[2]);
    let workspace = whole_said(row[3]);
    if exists|i: int|
        0 <= i < monitors.len() && id == Some((#[trigger] monitors[i]).id) && workspace == Some(
            monitors[i].active_workspace,
        ) {
        let i = choose|i: int|
            0 <= i < monitors.len() && id == Some((#[trigger] monitors[i]).id) && workspace == Some(
                monitors[i].active_workspace,
            );
        assert(monitors[i].id == id->0);
    }
}

/// A window is where its entry in the reply says, and there is none where that
/// leaves it less than a pixel wide or high.
pub proof fn a_window_is_as_it_is_said(doc: Seq<JsonEntry>, at: usize)
    ensures
        ({
            let window = window_of::<Fixed>(row_at(doc, at, window_places()));
            let w = number_said(listed_under(doc, at, "size"@, 0));
            let h = number_said(listed_under(doc, at, "size"@, 1));
            let address = said(doc, at, "address"@);
            &&& window is Some <==> w.raw >= PIXEL && h.raw >= PIXEL
            &&& window is Some ==> {
                let r = window->0;
                &&& r.x == number_said(listed_under(doc, at, "at"@, 0))
                &&& r.y == number_said(listed_under(doc, at, "at"@, 1))
                &&& r.w == w
                &&& r.h == h
                &&& address is Text && address_of(address->Text_0) is Some ==> Some(r.id)
                    == address_of(address->Text_0)
                &&& !(address is Text && address_of(address->Text_0) is Some) ==> r.id == 0
            }
        }),
{
    let row = row_at(doc, at, window_places());
    assert(row[4] == listed_under(doc, at, "size"@, 0));
    assert(row[5] == listed_under(doc, at, "size"@, 1));
    assert(row[6] == said(doc, at, "address"@));
    assert(row[7] == listed_under(doc, at, "at"@, 0));
    assert(row[8] == listed_under(doc, at, "at"@, 1));
}

/// The windows of the world are those that show, and no others.
pub proof fn windows_are_those_that_show(
    rows: Seq<Seq<JsonItem>>,
    monitors: Seq<Monitor<Fixed>>,
    from: int,
    r: Rect<Fixed>,
)
    requires
        0 <= from <= rows.len(),
    ensures
        windows_from(rows, monitors, from).contains(r) <==> exists|i: int|
            from <= i < rows.len() && on_screen(#[trigger] rows[i], monitors) && window_of::<Fixed>(
                rows[i],
            ) == Some(r),
    decreases rows.len() - from,
{
    let all = windows_from(rows, monitors, from);
    if from < rows.len() {
        let rest = windows_from(rows, monitors, from + 1);
        windows_are_those_that_show(rows, monitors, from + 1, r);
        if on_screen(rows[from], monitors) && window_of::<Fixed>(rows[from]) is Some {
            let first = window_of::<Fixed>(rows[from])->0;
            assert(all == seq![first] + rest);
            assert(all[0] == first);
            if rest.contains(r) {
                let k = rest.index_of(r);
                assert(all[k + 1] == r);
            }
            if all.contains(r) && r != first {
                let k = all.index_of(r);
                assert(rest[k - 1] == r);
            }
        } else {
            assert(all == rest);
        }
    }
}

/// The higher up a window is, the earlier it comes in the world.
pub proof fn the_highest_window_comes_first(
    sorted: Seq<Rect<Fixed>>,
    windows: Seq<Rect<Fixed>>,
    i: int,
    j: int,
)
    requires
        sorted_by_height(sorted, windows),
        0 <= i < j < sorted.len(),
    ensures
        sorted[i].y.raw <= sorted[j].y.raw,
{
}

/// A window has not moved exactly where it is the very same.
pub proof fn a_window_that_stays_is_the_same(a: Rect<Fixed>, b: Rect<Fixed>)
    ensures
        same_rect(&a, &b) <==> a == b,
{
}

// -- addresses --

/// Sixteen so many times over.
pub open spec fn sixteens(n: nat) -> nat
    decreases n,
{
    if n == 0 {
        1
    } else {
        16 * sixteens((n - 1) as nat)
    }
}

/// A hexadecimal digit is worth what it stands for, in either case.
pub proof fn hexadecimal_digits_are_worth_what_they_stand_for(k: int)
    requires
        0 <= k < 16,
    ensures
        hex_digit("0123456789abcdef"@[k]) == Some(k as nat),
        hex_digit("0123456789ABCDEF"@[k]) == Some(k as nat),
        hex_digit('g') is None,
        hex_digit('G') is None,
        hex_digit('x') is None,
{
    reveal_strlit("0123456789abcdef");
    reveal_strlit("0123456789ABCDEF");
}

/// Digits before others are worth sixteen times as much for each of those.
pub proof fn a_digit_is_worth_sixteen_of_the_next(a: Seq<char>, b: Seq<char>)
    ensures
        hex_worth(a + b) == hex_worth(a) * sixteens(b.len()) + hex_worth(b),
    decreases b.len(),
{
    if b.len() == 0 {
        assert(a + b == a);
        let (x, s) = (hex_worth(a), sixteens(b.len()));
        assert(x * s == x) by (nonlinear_arith)
            requires
                s == 1,
        ;
    } else {
        a_digit_is_worth_sixteen_of_the_next(a, b.drop_last());
        assert((a + b).drop_last() == a + b.drop_last());
        assert((a + b).last() == b.last());
        let (x, y, s) = (hex_worth(a), hex_worth(b.drop_last()), sixteens((b.len() - 1) as nat));
        assert((x * s + y) * 16 == x * (16 * s) + y * 16) by (nonlinear_arith);
        assert(sixteens(b.len()) == 16 * s);
    }
}

/// An address is read as the hexadecimal number behind its prefix, and one
/// without the prefix as it stands.
pub proof fn an_address_is_read_in_hexadecimal(digits: Seq<char>)
    requires
        0 < digits.len(),
        forall|i: int| 0 <= i < digits.len() ==> hex_digit(#[trigger] digits[i]) is Some,
        hex_worth(digits) <= u64::MAX,
    ensures
        address_of(digits) == Some(hex_worth(digits) as u64),
        address_of("0x"@ + digits) == Some(hex_worth(digits) as u64),
{
    reveal_strlit("0x");
    let text = "0x"@ + digits;
    assert(text[0] == '0' && text[1] == 'x');
    assert(text.skip(2) == digits);
    assert(hex_digit(digits[0]) is Some);
    if digits.len() > 1 {
        assert(hex_digit(digits[1]) is Some);
    }
    assert(without_prefix(digits) == digits);
    assert(without_prefix(text) == without_prefix(digits));
}

} // verus!
