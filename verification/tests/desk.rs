//! What can go wrong, and what holds whatever happens.

use hyprsheep::anim::{Only, Pet, Situation};
use hyprsheep::base64::decode_base64;
use hyprsheep::config::{
    complaints, expand_tilde, path, Complaint, Config, Fault, Monitors,
};
use hyprsheep::dice::Dice;
use hyprsheep::expr::{eval, eval_or, Ctx, ExprError};
use hyprsheep::fixed::Fixed;
use hyprsheep::hypr::{
    focused_first, monitors, monitors_from, origin_of, read_address, snapshot, turned, windows_changed, HyprError, Monitor,
};
use hyprsheep::json::JsonScalar;
use hyprsheep::number::Number;
use hyprsheep::sheep::{next_id, Event, Sheep};
use hyprsheep::step::{DRAG_INTERVAL, LEAST_WAIT, TOSS_INTERVAL};
use hyprsheep::world::{Rect, Screen, World};

fn n(i: i64) -> Fixed {
    Fixed { raw: i * 10_000_000_000 }
}

// -- expressions --

fn ctx() -> Ctx<Fixed> {
    Ctx {
        screen_w: n(1920),
        screen_h: n(1080),
        area_w: n(1900),
        area_h: n(1000),
        image_w: n(40),
        image_h: n(30),
        image_x: n(100),
        image_y: n(200),
        rand_s: n(60),
    }
}

fn value(src: &str) -> Result<Fixed, ExprError> {
    eval(src, &ctx(), &mut Dice::with_seed(1))
}

#[test]
fn every_name_stands_for_its_value() {
    for (name, expected) in [
        ("screenW", 1920),
        ("screenH", 1080),
        ("areaW", 1900),
        ("areaH", 1000),
        ("imageW", 40),
        ("imageH", 30),
        ("imageX", 100),
        ("imageY", 200),
        ("randS", 60),
    ] {
        assert_eq!(value(name), Ok(n(expected)), "{name}");
    }
    assert_eq!(value(" 2 * ( 3 - -4 ) % 5 "), Ok(n(4)));
    assert_eq!(value("Convert(7/2, System.Int32)"), Ok(n(3)));
    assert_eq!(value("10-4-3"), Ok(n(3)));
}

#[test]
fn every_way_an_expression_can_fail() {
    assert_eq!(value("1 2"), Err(ExprError::TrailingInput { at: 2 }));
    assert_eq!(value("1/(2-2)"), Err(ExprError::DivisionByZero));
    assert_eq!(value("1%0"), Err(ExprError::ModuloByZero));
    assert_eq!(value("1+"), Err(ExprError::UnexpectedEnd));
    assert_eq!(value("(1"), Err(ExprError::ExpectedClose));
    assert_eq!(value("*"), Err(ExprError::UnexpectedCharacter { byte: b'*' }));
    assert_eq!(value("1.2.3"), Err(ExprError::BadNumber { from: 0, to: 5 }));
    assert_eq!(value("Convert 1"), Err(ExprError::ExpectedOpenAfterConvert));
    assert_eq!(value("Convert(1)"), Err(ExprError::ExpectedCommaInConvert));
    assert_eq!(value("Convert(1,System.Int32"), Err(ExprError::ExpectedCloseInConvert));
    assert_eq!(
        value("Convert(1,System.Single)"),
        Err(ExprError::UnsupportedConvert { from: 10, to: 23 })
    );
    assert_eq!(value("sheep"), Err(ExprError::UnknownIdentifier { from: 0, to: 5 }));
    assert_eq!(eval_or("sheep", &ctx(), n(9), &mut Dice::with_seed(1)), n(9));
}

#[test]
fn a_random_number_is_a_percentage_of_the_throw() {
    let mut d = Dice::with_seed(5);
    let thrown: Fixed = Dice::with_seed(5).throw();
    let got = eval("random", &ctx(), &mut d).unwrap();
    assert_eq!(got.raw, thrown.raw * 100);
    assert_ne!(d.seed, 5);
}

// -- settings --

fn rejected(list: &[&str]) -> (Fault, String, String) {
    let given: Vec<String> = list.iter().map(|s| s.to_string()).collect();
    let e = Config::<Fixed>::default().apply_args(&given, None).unwrap_err();
    (e.fault, e.key, e.value)
}

#[test]
fn every_way_an_option_can_be_rejected() {
    assert_eq!(rejected(&["--sheep"]).0, Fault::NeedsValue);
    let (fault, key, value) = rejected(&["--sheep", "lots"]);
    assert_eq!((fault, key.as_str(), value.as_str()), (Fault::BadSheep, "--sheep", "lots"));
    assert_eq!(rejected(&["--scale=21"]).0, Fault::BadScale);
    assert_eq!(rejected(&["--speed=11"]).0, Fault::BadSpeed);
    assert_eq!(rejected(&["--smooth=241"]).0, Fault::BadSmooth);
    assert_eq!(rejected(&["--monitors", ""]).0, Fault::BadMonitors);
    assert_eq!(rejected(&["--throw=maybe"]).0, Fault::BadFlag);
    assert_eq!(rejected(&["--nonsense"]).0, Fault::Unknown);
}

#[test]
fn a_file_is_complained_about_line_by_line() {
    let text = "# a comment\nnonsense\nsheep = 2\npet = \"half\nunknown = 1\nscale = 99\n";
    assert_eq!(
        complaints::<Fixed>(text),
        vec![
            Complaint::NoEquals(2),
            Complaint::Unreadable(4, "pet".to_string()),
            Complaint::Ignored("unknown".to_string()),
            Complaint::Ignored("scale".to_string()),
        ]
    );
    assert_eq!(Config::<Fixed>::parse(text, None).sheep, 2);
}

#[test]
fn the_last_value_in_a_file_counts() {
    let sheep = |text: &str| Config::<Fixed>::parse(text, None).sheep;
    assert_eq!(sheep("sheep = 2\nsheep = 5\n"), 5);
    // Even where it makes no sense, which leaves the default.
    assert_eq!(sheep("sheep = 2\nsheep = none\n"), 1);
}

#[test]
fn later_options_win_and_the_rest_is_kept() {
    let mut c = Config::<Fixed>::parse("speed = 2\nhide_fullscreen = false\n", None);
    let given: Vec<String> = ["--sheep=4", "--sheep=6"].iter().map(|s| s.to_string()).collect();
    c.apply_args(&given, None).unwrap();
    assert_eq!((c.sheep, c.speed, c.hide_fullscreen), (6, n(2), false));
    assert_eq!(c.monitors, Monitors::All);
}

#[test]
fn settings_stay_in_range_whatever_is_asked_for() {
    let mut c = Config::<Fixed>::parse("sheep = -4\nscale = 0\nspeed = 400\nsmooth = 9999\n", None);
    let given: Vec<String> =
        ["--sheep=3", "--scale=0.01"].iter().map(|s| s.to_string()).collect();
    assert!(c.apply_args(&given, None).is_err());
    assert_eq!((c.sheep, c.scale, c.speed, c.smooth), (3, n(1), n(1), 60));
}

#[test]
fn a_pet_under_the_home_directory_is_found_there() {
    let c = Config::<Fixed>::parse("pet = \"~/a.xml\"", Some("/home/me"));
    assert_eq!(c.pet, Some("/home/me/a.xml".to_string()));
    assert_eq!(expand_tilde("~", Some("/home/me")), "~");
}

#[test]
fn the_settings_file_has_its_place() {
    assert_eq!(
        path(Some("/xdg"), Some("/home/me")),
        Some("/xdg/hyprsheep/config.toml".to_string())
    );
    assert_eq!(
        path(None, Some("/home/me")),
        Some("/home/me/.config/hyprsheep/config.toml".to_string())
    );
    assert_eq!(
        path(Some(""), Some("/home/me/")),
        Some("/home/me/.config/hyprsheep/config.toml".to_string())
    );
    assert_eq!(path(None, None), None);
}

#[test]
fn base64_is_taken_with_any_white_space_and_nothing_else() {
    assert_eq!(decode_base64("AAEC/w=="), Some(vec![0, 1, 2, 255]));
    assert_eq!(decode_base64(" A A\tE\nC/ w==\r\n"), Some(vec![0, 1, 2, 255]));
    assert_eq!(decode_base64("AAEC-w=="), None);
}

// -- the desktop --

const MONITORS: &str = r#"[
    { "id": 3, "name": "DP-9", "disabled": true, "width": 10, "height": 10 },
    { "id": 0, "name": "eDP-1", "x": 0, "y": 0, "width": 1920, "height": 1080, "scale": 1.5,
      "transform": 0, "reserved": [1, 2, 3, 4], "activeWorkspace": { "id": 7 } },
    { "id": 1, "name": "DP-2", "x": 1280, "y": -40, "width": 1000, "height": 500, "scale": 1.0,
      "transform": 1, "focused": true, "activeWorkspace": { "id": 8 } }
]"#;

fn found() -> Vec<Monitor<Fixed>> {
    monitors(MONITORS.as_bytes()).unwrap()
}

#[test]
fn the_focused_monitor_comes_first_and_disabled_ones_not_at_all() {
    let ms = found();
    assert_eq!(ms.iter().map(|m| m.name.as_str()).collect::<Vec<_>>(), vec!["DP-2", "eDP-1"]);
    assert_eq!((ms[0].width, ms[0].height), (n(500), n(1000)));
    assert_eq!((ms[1].width, ms[1].height), (n(1280), n(720)));
    assert_eq!(ms[1].reserved, (n(1), n(2), n(3), n(4)));
    assert_eq!(ms[1].active_workspace, 7);
    assert_eq!(origin_of(&ms, "DP-2"), Some((n(1280), n(-40))));
    assert_eq!(origin_of(&ms, "DP-9"), None);
    assert_eq!(ms[0].screen().workspace, 8);
    assert_eq!(ms[1].screen().floor(), n(716));
}

/// The row of a monitor that is a hundred pixels square.
fn monitor_row(name: &str, disabled: bool, focused: bool) -> Vec<JsonScalar> {
    let number = |text: &str| JsonScalar::Number(text.to_string());
    let mut row = vec![JsonScalar::Bool(disabled), number("2"), number("0"), number("200"), number("200")];
    row.push(number("5"));
    row.push(JsonScalar::Text(name.to_string()));
    while row.len() < 14 {
        row.push(JsonScalar::Nothing);
    }
    row.push(JsonScalar::Bool(focused));
    row
}

#[test]
fn monitors_keep_their_order_until_the_focused_one_is_brought_first() {
    let rows = vec![
        monitor_row("off", true, true),
        monitor_row("a", false, false),
        monitor_row("b", false, false),
        monitor_row("c", false, true),
    ];
    let names = |ms: Vec<Monitor<Fixed>>| ms.into_iter().map(|m| m.name).collect::<Vec<_>>();
    assert_eq!(names(monitors_from(&rows)), vec!["a", "b", "c"]);
    assert_eq!(names(focused_first(&rows)), vec!["c", "b", "a"]);
    let found: Vec<Monitor<Fixed>> = monitors_from(&rows);
    assert_eq!((found[0].width, found[0].id, found[0].active_workspace), (n(100), 5, -1));
    let rows = vec![monitor_row("a", false, false), monitor_row("b", false, false)];
    assert_eq!(names(focused_first(&rows)), vec!["a", "b"]);
}

#[test]
fn a_reply_about_monitors_can_be_no_use() {
    assert!(matches!(monitors::<Fixed>(b"oops"), Err(HyprError::Json(_))));
    assert!(matches!(monitors::<Fixed>(b"{}"), Err(HyprError::NotList)));
    assert!(matches!(monitors::<Fixed>(b"[]"), Err(HyprError::NoMonitors)));
    let off = b"[{ \"id\": 3, \"disabled\": true }]";
    assert!(matches!(monitors::<Fixed>(off), Err(HyprError::NoMonitors)));
}

fn window(address: &str, monitor: i64, workspace: i64, y: i64, more: &str) -> String {
    format!(
        r#"{{ "address": "{address}", "mapped": true, "hidden": false, "monitor": {monitor},
            "workspace": {{ "id": {workspace} }}, "at": [5, {y}], "size": [300, 200]{more} }}"#
    )
}

#[test]
fn only_windows_on_show_are_in_the_world_from_the_top_down() {
    let ms = found();
    let reply = format!(
        "[{}, {}, {}, {}, {}]",
        window("0xa1", 0, 7, 300, ""),
        window("0xa2", 1, 8, 100, ""),
        // Another workspace, hidden, and not mapped yet.
        window("0xa3", 0, 8, 200, ""),
        window("0xa4", 0, 7, 200, r#", "hidden": true"#),
        window("0xa5", 0, 7, 200, r#", "mapped": false"#),
    );
    let w = snapshot(&ms, reply.as_bytes()).unwrap();
    assert_eq!(
        w.windows,
        vec![
            Rect { id: 0xa2, x: n(5), y: n(100), w: n(300), h: n(200) },
            Rect { id: 0xa1, x: n(5), y: n(300), w: n(300), h: n(200) },
        ]
    );
    assert_eq!(w.screens.len(), 2);
    assert!(w.flock.is_empty() && w.pointer.is_none());
    assert!(matches!(snapshot(&ms, b"?"), Err(HyprError::Json(_))));
    assert!(matches!(snapshot(&ms, b"3"), Err(HyprError::NotList)));

    // Values of another kind, and ones that are not there, count for nothing.
    let odd = r#"[{ "mapped": true, "monitor": 0, "workspace": { "id": 7 }, "address": ["0x1"],
        "at": { "0": 5 }, "size": [1, 2], "hidden": null }, 7, null]"#;
    let odd = snapshot(&ms, odd.as_bytes()).unwrap();
    assert_eq!(odd.windows, vec![Rect { id: 0, x: n(0), y: n(0), w: n(1), h: n(2) }]);

    let mut moved = w.windows.clone();
    assert!(!windows_changed(&w.windows, &moved));
    moved[0].x = n(6);
    assert!(windows_changed(&w.windows, &moved));
    moved.pop();
    assert!(windows_changed(&w.windows, &moved));
}

#[test]
fn addresses_are_hexadecimal() {
    assert_eq!(read_address("0x55c0ffee"), Some(0x55c0_ffee));
    assert_eq!(read_address("ff"), Some(255));
    assert_eq!(read_address("0xffffffffffffffff"), Some(u64::MAX));
    assert_eq!(read_address("0x10000000000000000"), None);
    assert_eq!(read_address("sheep"), None);
}

#[test]
fn turning_a_monitor_swaps_its_sides() {
    let (w, h) = turned(n(2560), n(1440), n(2), 0);
    assert_eq!((w, h), (n(1280), n(720)));
    assert_eq!(turned(n(2560), n(1440), n(2), 5), (h, w));
}

// -- the sheep --

const PET: &str = r#"<pet>
  <animations>
    <animation id="1">
      <name>walk</name>
      <start><x>-2</x><interval>200</interval></start>
      <end><x>-2</x><interval>200</interval></end>
      <sequence repeat="20" repeatfrom="0"><frame>2</frame><frame>3</frame><next probability="1">1</next></sequence>
      <border><next probability="1">6</next></border>
      <gravity><next probability="1">5</next></gravity>
    </animation>
    <animation id="5">
      <name>fall</name>
      <start><y>4</y><interval>50</interval></start>
      <end><y>4</y><interval>50</interval></end>
      <sequence repeat="10" repeatfrom="0"><frame>9</frame><next probability="1">5</next></sequence>
      <border><next probability="1">1</next></border>
    </animation>
    <animation id="6">
      <name>turn</name>
      <sequence><frame>4</frame><action>flip</action><next probability="1">1</next></sequence>
    </animation>
  </animations>
</pet>"#;

fn pet() -> Pet<Fixed> {
    Pet::parse(PET).unwrap()
}

fn screen(id: i64, x: i64, workspace: i64) -> Screen<Fixed> {
    Screen {
        id,
        x: n(x),
        y: n(0),
        w: n(1000),
        h: n(500),
        reserved: (n(0), n(0), n(0), n(0)),
        workspace,
    }
}

fn world() -> World<Fixed> {
    World {
        screens: vec![screen(0, 0, 1), screen(1, 1000, 2)],
        windows: vec![],
        flock: vec![],
        pointer: None,
    }
}

fn walker(x: i64, y: i64) -> Sheep<Fixed> {
    let (mut ids, mut d) = (1u64, Dice::with_seed(2));
    let mut s = Sheep::new(false, &mut ids, &mut d);
    s.x = n(x);
    s.y = n(y);
    s.begin(&pet(), &world(), n(40), 1, &mut Vec::new(), &mut d);
    s
}

fn step(s: &mut Sheep<Fixed>, w: &World<Fixed>) -> (u64, Vec<Event<Fixed>>) {
    let mut ev = Vec::new();
    let ms = s.step(&pet(), w, n(40), &mut ev, &mut Dice::with_seed(3));
    (ms, ev)
}

#[test]
fn opacity_stays_between_clear_and_solid() {
    let mut p = pet();
    p.animations[0].start.opacity = n(3);
    p.animations[0].end.opacity = n(-5);
    let mut s = walker(500, 460);
    let mut seen = Vec::new();
    for _ in 0..41 {
        s.step(&p, &world(), n(40), &mut Vec::new(), &mut Dice::with_seed(3));
        assert!(0 <= s.opacity.raw && s.opacity.raw <= 10_000_000_000, "{:?}", s.opacity);
        seen.push(s.opacity.raw);
    }
    assert!(seen.contains(&10_000_000_000) && seen.contains(&0));
}

#[test]
fn a_loop_may_return_past_the_last_frame() {
    let mut p = pet();
    let walk = &mut p.animations[0];
    walk.frames = vec![7, 8, 9];
    walk.repeat_from = 1;
    assert_eq!((0..7).map(|i| walk.frame_at(i)).collect::<Vec<_>>(), vec![7, 8, 9, 8, 9, 8, 9]);
    walk.repeat_from = 50;
    assert_eq!((0..6).map(|i| walk.frame_at(i)).collect::<Vec<_>>(), vec![7, 8, 9, 9, 9, 9]);
}

#[test]
fn identities_are_handed_out_once() {
    let mut next = u64::MAX - 1;
    assert_eq!(next_id(&mut next), u64::MAX - 1);
    assert_eq!(next_id(&mut next), u64::MAX);
    assert_eq!(next_id(&mut next), 0);
}

#[test]
fn every_point_has_a_screen() {
    let w = world();
    assert_eq!(w.screen_for(n(1500), n(100)).unwrap().id, 1);
    assert_eq!(w.screen_at(n(2500), n(100)), None);
    assert_eq!(w.screen_for(n(2500), n(100)).unwrap().id, 1);
    assert_eq!(w.screen_for(n(-5), n(-5)).unwrap().id, 0);
    assert!(w.continues(n(1500), n(100)) && !w.continues(n(1500), n(600)));
}

#[test]
fn a_step_keeps_who_the_sheep_is() {
    let mut s = walker(500, 460);
    s.workspaces = true;
    let before = s;
    let (ms, ev) = step(&mut s, &world());
    assert_eq!((s.x, s.y), (n(498), n(460)));
    assert_eq!(ms, 200);
    assert!(ev.is_empty());
    assert_eq!((s.id, s.scale, s.speed, s.rand_s), (before.id, before.scale, before.speed, before.rand_s));
    assert_eq!((s.is_child, s.workspaces, s.climb_windows), (false, true, before.climb_windows));
}

#[test]
fn pace_shows_only_in_the_wait() {
    let (mut slow, mut fast) = (walker(500, 460), walker(500, 460));
    fast.speed = n(4);
    let (a, b) = (step(&mut slow, &world()).0, step(&mut fast, &world()).0);
    assert_eq!((a, b), (200, 50));
    fast.speed = slow.speed;
    assert_eq!(format!("{slow:?}"), format!("{fast:?}"));
    fast.speed = n(1000);
    assert_eq!(step(&mut fast, &world()).0, LEAST_WAIT);
}

#[test]
fn a_held_sheep_stays_put_at_its_own_pace() {
    let mut s = walker(500, 100);
    s.dragging = true;
    assert_eq!(step(&mut s, &world()).0, DRAG_INTERVAL);
    assert_eq!((s.x, s.y), (n(500), n(100)));
}

#[test]
fn a_throw_keeps_its_own_pace_and_passes_through_others() {
    let mut w = world();
    w.flock.push(Rect { id: 77, x: n(450), y: n(100), w: n(40), h: n(40) });
    let mut s = walker(500, 100);
    s.speed = n(4);
    s.toss = Some((n(-600), n(0)));
    assert_eq!(step(&mut s, &w).0, TOSS_INTERVAL);
    assert!(s.x.raw < n(490).raw, "{:?}", s.x);
    assert!(s.toss.is_some());
    // It is over at the edge of the desktop.
    s.x = n(1);
    step(&mut s, &w);
    assert_eq!(s.x, n(0));
    assert_eq!(s.toss, None);
}

#[test]
fn a_flick_is_capped_in_its_own_direction() {
    assert_eq!(Sheep::throw_of(n(300), n(-400)), (n(300), n(-400)));
    let (x, y) = Sheep::throw_of(n(-9000), n(-9000));
    assert_eq!(x, y);
    assert!(x.raw < 0 && x.hypot(y).raw <= n(2600).raw);
    assert!(x.hypot(y).raw > n(2599).raw);
}

#[test]
fn a_sheep_out_of_sight_walks_in_from_the_nearer_edge() {
    let mut w = world();
    w.screens.pop();
    for (x, edge, flipped) in [(100, 0, true), (800, 960, false)] {
        let mut s = walker(x, 100);
        s.workspaces = true;
        s.workspace = Some(9);
        assert!(!s.shown(&w, n(40)));
        s.wander_on(&pet(), &w, n(40), &mut Dice::with_seed(1));
        assert_eq!((s.x, s.y, s.flipped), (n(edge), n(460), flipped));
        assert!(s.shown(&w, n(40)) && !s.gliding());
    }
}

#[test]
fn an_animation_that_is_not_there_ends_the_sheep() {
    let mut s = walker(500, 460);
    s.animation = 99;
    assert_eq!(step(&mut s, &world()).1, vec![Event::Died]);
}

#[test]
fn a_crossing_joins_the_workspace_of_the_next_screen() {
    let mut s = walker(981, 460);
    s.workspaces = true;
    s.workspace = Some(2);
    s.on_screen = 1;
    step(&mut s, &world());
    assert_eq!((s.on_screen, s.workspace), (0, Some(1)));
    assert!(s.shown(&world(), n(40)));
}

#[test]
fn an_edge_with_nothing_behind_it_turns_the_sheep() {
    let mut s = walker(1, 460);
    step(&mut s, &world());
    assert_eq!((s.x, s.animation), (n(0), 6));
    // Turning takes one step, after which it faces the other way.
    step(&mut s, &world());
    assert_eq!((s.animation, s.flipped), (1, true));
    step(&mut s, &world());
    assert_eq!(s.x, n(2));
}

#[test]
fn a_sheep_that_loses_its_window_falls() {
    let mut s = walker(500, 100);
    s.resting_on = Some(7);
    step(&mut s, &world());
    assert_eq!((s.animation, s.resting_on), (5, None));
}

#[test]
fn the_nearest_face_is_the_one_that_stops() {
    let mut w = world();
    w.windows.push(Rect { id: 1, x: n(100), y: n(100), w: n(390), h: n(400) });
    w.windows.push(Rect { id: 2, x: n(100), y: n(100), w: n(395), h: n(400) });
    let mut s = walker(485, 460);
    s.climb_windows = true;
    assert_eq!(s.window_side(&w, n(40), n(-2)), Some((2, n(495))));
    s.passing = Some(2);
    assert_eq!(s.window_side(&w, n(40), n(-2)), Some((1, n(490))));
    s.climb_windows = false;
    assert_eq!(s.window_side(&w, n(40), n(-2)), None);
}

#[test]
fn a_pose_is_drawn_between_two_steps() {
    let mut s = walker(500, 460);
    step(&mut s, &world());
    assert_eq!(s.pose_at(n(0)).x, n(500));
    assert_eq!(s.pose_at(Fixed { raw: 2_500_000_000 }).x, Fixed { raw: 4_995_000_000_000 });
    assert_eq!(s.pose_at(n(1)).x, n(498));
    assert_eq!(s.pose_at(n(-3)), s.prev);
    // However far it had to go, it arrives exactly.
    s.prev.x = Fixed { raw: i64::MIN };
    s.prev.opacity = Fixed { raw: 9_000_000_000 };
    s.opacity = Fixed { raw: 1_000_000_000 };
    assert_eq!(s.pose_at(n(1)), s.pose());
    assert_eq!(s.pose_at(n(7)), s.pose());
    s.settle();
    assert_eq!(s.pose_at(n(0)).x, n(498));
    assert!(!s.gliding());
}

#[test]
fn filters_allow_what_they_name() {
    let nowhere = Situation::default();
    assert!(nowhere.allows(Only::Any));
    for (only, here) in [
        (Only::Window, Situation { on_window: true, ..nowhere }),
        (Only::Taskbar, Situation { on_taskbar: true, ..nowhere }),
        (Only::Vertical, Situation { on_vertical: true, ..nowhere }),
        (Only::Horizontal, Situation { on_horizontal: true, ..nowhere }),
    ] {
        assert!(here.allows(only) && !nowhere.allows(only), "{only:?}");
    }
    assert_eq!(Only::parse(Some("window")), Only::Window);
    assert_eq!(Only::parse(Some("horizontal")), Only::Horizontal);
    assert_eq!(Only::parse(Some("anything")), Only::Any);
    assert_eq!(Only::parse(None), Only::Any);
}

#[test]
fn the_pet_falls_the_way_most_of_it_falls() {
    let p = pet();
    assert_eq!(p.fall_animation(), Some(5));
    assert_eq!(p.landing_animation(), None);
    assert_eq!(p.get(1).unwrap().steps(&ctx(), &mut Dice::with_seed(1)), 42);
    assert_eq!(p.get(1).unwrap().frame_at(3), 3);
    assert!(p.choose_spawn(&mut Dice::with_seed(1)).is_none());
}
