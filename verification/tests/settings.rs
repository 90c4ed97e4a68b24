//! Settings, expressions, monitors and embedded pictures.

use hyprsheep::base64::decode_base64;
use hyprsheep::blit::sample;
use hyprsheep::config::{expand_tilde, ArgError, Config, Monitors};
use hyprsheep::dice::Dice;
use hyprsheep::expr::{eval, eval_or, Ctx};
use hyprsheep::hypr::{monitors, Monitor};
use hyprsheep::number::Number;

/// The machine's own floating-point numbers.
#[derive(Clone, Copy, Debug, PartialEq)]
struct F(f64);

impl Number for F {
    fn whole(i: i64) -> Self {
        F(i as f64)
    }
    fn read(text: &str) -> Option<Self> {
        text.parse::<f64>().ok().map(F)
    }
    fn least() -> Self {
        F(f64::MIN_POSITIVE)
    }
    fn toss_keep() -> Self {
        F(0.7f64.powf(0.025))
    }
    fn plus(self, other: Self) -> Self {
        F(self.0 + other.0)
    }
    fn minus(self, other: Self) -> Self {
        F(self.0 - other.0)
    }
    fn times(self, other: Self) -> Self {
        F(self.0 * other.0)
    }
    fn over(self, other: Self) -> Self {
        F(self.0 / other.0)
    }
    fn modulo(self, other: Self) -> Self {
        F(self.0 % other.0)
    }
    fn hypot(self, other: Self) -> Self {
        F(self.0.hypot(other.0))
    }
    fn negated(self) -> Self {
        F(-self.0)
    }
    fn magnitude(self) -> Self {
        F(self.0.abs())
    }
    fn sign(self) -> Self {
        F(self.0.signum())
    }
    fn trunc(self) -> Self {
        F(self.0.trunc())
    }
    fn ceil(self) -> Self {
        F(self.0.ceil())
    }
    fn round(self) -> Self {
        F(self.0.round())
    }
    fn below(self, other: Self) -> bool {
        self.0 < other.0
    }
    fn at_most(self, other: Self) -> bool {
        self.0 <= other.0
    }
    fn same(self, other: Self) -> bool {
        self.0 == other.0
    }
    fn rank(self) -> i64 {
        let bits = self.0.to_bits() as i64;
        bits ^ (((bits >> 63) as u64) >> 1) as i64
    }
    fn finite(self) -> bool {
        self.0.is_finite()
    }
    fn to_u64(self) -> u64 {
        self.0 as u64
    }
    fn to_i64(self) -> i64 {
        self.0 as i64
    }
}

impl PartialOrd for F {
    fn partial_cmp(&self, other: &F) -> Option<std::cmp::Ordering> {
        self.0.partial_cmp(&other.0)
    }
}

/// What a file holding `text` sets.
fn parse(text: &str) -> Config<F> {
    Config::parse(text, None)
}

/// What the options `list` set, over the defaults.
fn args(list: &[&str]) -> Result<Config<F>, ArgError> {
    let mut c = Config::default();
    let given: Vec<String> = list.iter().map(|s| s.to_string()).collect();
    c.apply_args(&given, None)?;
    Ok(c)
}

/// The one monitor that `json` describes.
fn monitor(json: &str) -> Monitor<F> {
    let reply = format!("[{json}]");
    monitors(reply.as_bytes()).unwrap().pop().unwrap()
}

#[test]
fn an_empty_file_is_the_default() {
    assert_eq!(parse(""), Config::<F>::default());
    assert_eq!(parse("\n\n# just a comment\n"), Config::<F>::default());
}

#[test]
fn reads_every_setting() {
    let c = parse(
        r#"
        sheep = 3
        scale = 1.5
        speed = 2
        smooth = 30
        draggable = false
        throw = false
        climb_windows = true
        monitors = ["eDP-1", "HDMI-A-1"]
        pet = "/tmp/green.xml"
        "#,
    );
    assert_eq!(c.sheep, 3);
    assert_eq!(c.scale, F(1.5));
    assert_eq!(c.speed, F(2.0));
    assert_eq!(c.smooth, 30);
    assert!(!c.draggable);
    assert!(!c.throw);
    assert!(c.climb_windows);
    assert_eq!(
        c.monitors,
        Monitors::Only(vec!["eDP-1".into(), "HDMI-A-1".into()])
    );
    assert_eq!(c.pet, Some("/tmp/green.xml".to_string()));
}

#[test]
fn monitors_accepts_all_or_a_single_name() {
    assert_eq!(parse("monitors = \"all\"").monitors, Monitors::All);
    assert_eq!(parse("monitors = all").monitors, Monitors::All);
    assert_eq!(
        parse("monitors = \"eDP-1\"").monitors,
        Monitors::Only(vec!["eDP-1".into()])
    );
    assert!(Monitors::All.allows("anything"));
    assert!(Monitors::Only(vec!["eDP-1".into()]).allows("eDP-1"));
    assert!(!Monitors::Only(vec!["eDP-1".into()]).allows("HDMI-A-1"));
}

#[test]
fn comments_and_bare_words_are_tolerated() {
    let c = parse("sheep = 2 # how many\ndraggable = true\n");
    assert_eq!(c.sheep, 2);
    assert!(c.draggable);
    // A `#` inside a quoted value is not a comment.
    assert_eq!(parse(r#"pet = "/tmp/a#b.xml""#).pet, Some("/tmp/a#b.xml".to_string()));
}

#[test]
fn bad_input_falls_back_rather_than_failing() {
    // Nonsense lines, unknown keys and wrong types all keep the default.
    let c = parse("nonsense\nsheep = lots\nunknown = 1\nsheep = 0\n");
    assert_eq!(c, Config::<F>::default());
}

#[test]
fn every_setting_has_a_command_line_form() {
    let c = args(&["--sheep", "4", "--scale", "2", "--monitors", "eDP-1,HDMI-A-1", "--no-draggable"])
        .unwrap();
    assert_eq!(c.sheep, 4);
    assert_eq!(c.scale, F(2.0));
    assert_eq!(args(&["--speed", "0.5"]).unwrap().speed, F(0.5));
    assert_eq!(args(&["--smooth", "144"]).unwrap().smooth, 144);
    assert_eq!(c.monitors, Monitors::Only(vec!["eDP-1".into(), "HDMI-A-1".into()]));
    assert!(!c.draggable);

    // Everything the file understands is also an option.
    assert_eq!(args(&["--monitors", "all"]).unwrap().monitors, Monitors::All);
    assert_eq!(args(&["--pet", "/tmp/g.xml"]).unwrap().pet, Some("/tmp/g.xml".to_string()));
    assert!(args(&["--trace"]).unwrap().trace);
    assert!(Config::<F>::default().climb_windows);
    assert!(args(&["--climb-windows"]).unwrap().climb_windows);
    assert!(!args(&["--climb-windows", "--no-climb-windows"]).unwrap().climb_windows);
    assert!(!args(&["--climb-windows=false"]).unwrap().climb_windows);
}

#[test]
fn both_spellings_work() {
    assert_eq!(args(&["--sheep=7"]).unwrap().sheep, 7);
    assert_eq!(args(&["--sheep", "7"]).unwrap().sheep, 7);
    assert_eq!(args(&["--pet=/a/b.xml"]).unwrap().pet, Some("/a/b.xml".to_string()));
    // Booleans are bare, negated, or explicit.
    assert!(!args(&["--no-throw"]).unwrap().throw);
    assert!(!args(&["--throw=false"]).unwrap().throw);
    assert!(args(&["--draggable"]).unwrap().draggable);
    assert!(!args(&["--no-draggable"]).unwrap().draggable);
    assert!(!args(&["--draggable=false"]).unwrap().draggable);
    assert!(args(&["--draggable=true"]).unwrap().draggable);
}

#[test]
fn the_command_line_wins_over_the_file() {
    let mut c = parse("sheep = 2\ndraggable = true\nmonitors = [\"eDP-1\"]\n");
    let given = ["--sheep=9".to_string(), "--no-draggable".to_string()];
    c.apply_args(&given, None).unwrap();
    assert_eq!(c.sheep, 9);
    assert!(!c.draggable);
    // Settings not given on the command line keep the file's value.
    assert_eq!(c.monitors, Monitors::Only(vec!["eDP-1".into()]));
}

#[test]
fn bad_options_are_rejected_with_a_reason() {
    // Unlike the config file, a bad option is worth stopping for: the user
    // is standing right there and can fix it.
    for bad in [
        vec!["--nonsense"],
        vec!["--sheep"],
        vec!["--sheep", "lots"],
        vec!["--sheep", "0"],
        vec!["--scale"],
        vec!["--scale", "big"],
        vec!["--scale", "0"],
        vec!["--scale", "-2"],
        vec!["--scale", "1000"],
        vec!["--scale", "inf"],
        vec!["--speed"],
        vec!["--speed", "quick"],
        vec!["--speed", "0"],
        vec!["--speed", "50"],
        vec!["--smooth"],
        vec!["--smooth", "silky"],
        vec!["--smooth", "-1"],
        vec!["--smooth", "1000"],
        vec!["--smooth", "60.5"],
        vec!["--draggable=maybe"],
        vec!["--monitors", ""],
        vec!["--pet"],
    ] {
        assert!(args(&bad).is_err(), "{bad:?} should have been rejected");
    }
}

#[test]
fn trace_can_be_set_either_way() {
    assert!(!Config::<F>::default().trace);
    assert!(parse("trace = true").trace);
    assert!(!args(&["--trace", "--no-trace"]).unwrap().trace);
}

#[test]
fn scale_takes_whole_or_fractional_sizes() {
    assert_eq!(Config::<F>::default().scale, F(1.0));
    assert_eq!(parse("scale = 2").scale, F(2.0));
    assert_eq!(parse("scale = 0.5").scale, F(0.5));
    assert_eq!(args(&["--scale=0.25"]).unwrap().scale, F(0.25));
    // Out of range, or not a number at all, keeps the default in a file.
    assert_eq!(parse("scale = 0").scale, F(1.0));
    assert_eq!(parse("scale = 100.0").scale, F(1.0));
    assert_eq!(parse("scale = huge").scale, F(1.0));
    assert_eq!(parse("scale = nan").scale, F(1.0));
}

#[test]
fn speed_takes_whole_or_fractional_paces() {
    assert_eq!(Config::<F>::default().speed, F(1.0));
    assert_eq!(parse("speed = 3").speed, F(3.0));
    assert_eq!(parse("speed = 0.25").speed, F(0.25));
    assert_eq!(args(&["--speed=1.5"]).unwrap().speed, F(1.5));
    // Out of range, or not a number at all, keeps the default in a file.
    assert_eq!(parse("speed = 0").speed, F(1.0));
    assert_eq!(parse("speed = 99.0").speed, F(1.0));
    assert_eq!(parse("speed = brisk").speed, F(1.0));
}

#[test]
fn smooth_is_a_frame_rate_that_can_be_turned_off() {
    assert_eq!(Config::<F>::default().smooth, 60);
    assert_eq!(parse("smooth = 30").smooth, 30);
    // Zero is the one value below the useful range that means something.
    assert_eq!(parse("smooth = 0").smooth, 0);
    assert_eq!(args(&["--smooth=0"]).unwrap().smooth, 0);
    // Out of range, or not a whole number of frames, keeps the default.
    assert_eq!(parse("smooth = 1000").smooth, 60);
    assert_eq!(parse("smooth = -1").smooth, 60);
    assert_eq!(parse("smooth = 59.94").smooth, 60);
    assert_eq!(parse("smooth = yes").smooth, 60);
}

#[test]
fn tilde_is_expanded() {
    let home = "/home/someone";
    assert_eq!(
        expand_tilde("~/pets/green.xml", Some(home)),
        "/home/someone/pets/green.xml".to_string()
    );
    // Without a home directory the path is left alone rather than mangled.
    assert_eq!(expand_tilde("~/pets/green.xml", None), "~/pets/green.xml".to_string());
    assert_eq!(expand_tilde("/abs/path.xml", Some(home)), "/abs/path.xml".to_string());
}

#[test]
fn base64_decoding_round_trips() {
    // "sheep" and a PNG magic number, the latter with embedded whitespace
    // as the pet files actually store it.
    assert_eq!(decode_base64("c2hlZXA=").unwrap(), b"sheep");
    assert_eq!(decode_base64("aVZCT1J3MEtHZ28=").unwrap(), b"iVBORw0KGgo");
    assert_eq!(decode_base64("c2hl\n  ZXA=").unwrap(), b"sheep");
    assert_eq!(decode_base64("").unwrap(), b"");
    assert!(decode_base64("not*valid").is_none());
}

fn ctx() -> Ctx<F> {
    Ctx {
        screen_w: F(1920.0),
        screen_h: F(1080.0),
        area_w: F(1920.0),
        area_h: F(1080.0),
        image_w: F(40.0),
        image_h: F(40.0),
        image_x: F(100.0),
        image_y: F(200.0),
        rand_s: F(60.0),
    }
}

#[test]
fn arithmetic_and_precedence() {
    let mut d = Dice::with_seed(11);
    assert_eq!(eval("1+2*3", &ctx(), &mut d).unwrap(), F(7.0));
    assert_eq!(eval("(1+2)*3", &ctx(), &mut d).unwrap(), F(9.0));
    assert_eq!(eval("-2", &ctx(), &mut d).unwrap(), F(-2.0));
    assert_eq!(eval("7%4", &ctx(), &mut d).unwrap(), F(3.0));
}

#[test]
fn identifiers_resolve() {
    let mut d = Dice::with_seed(11);
    assert_eq!(eval("screenW+10", &ctx(), &mut d).unwrap(), F(1930.0));
    assert_eq!(eval("imageX-imageW*0.9", &ctx(), &mut d).unwrap(), F(64.0));
    // The width, not the height.
    assert_eq!(eval("areaW", &ctx(), &mut d).unwrap(), F(1920.0));
}

#[test]
fn real_expressions_from_the_pet_xml() {
    let mut d = Dice::with_seed(11);
    let c = ctx();
    assert_eq!(eval("areaH-imageH", &c, &mut d).unwrap(), F(1040.0));
    assert_eq!(eval("(screenW/2)/30-6", &c, &mut d).unwrap(), F(26.0));
    // Convert() drops the fraction.
    assert_eq!(eval("24+(Convert(screenW/2,System.Int32)%30)/7", &c, &mut d).unwrap(), F(24.0));
    assert!(eval("areaH/2-(randS*areaH/2)/120-imageH", &c, &mut d).is_ok());
    assert!(eval("random*(screenW-imageW-50)/100+25", &c, &mut d).is_ok());
}

#[test]
fn random_is_in_range_and_varies() {
    let mut d = Dice::with_seed(11);
    let c = ctx();
    for _ in 0..100 {
        let v = eval("random", &c, &mut d).unwrap();
        assert!((F(0.0)..F(100.0)).contains(&v), "random out of range: {v:?}");
    }
}

#[test]
fn errors_are_reported_not_panicked() {
    let mut d = Dice::with_seed(11);
    assert!(eval("1/0", &ctx(), &mut d).is_err());
    assert!(eval("nonsense", &ctx(), &mut d).is_err());
    assert!(eval("1+", &ctx(), &mut d).is_err());
    assert_eq!(eval_or("1+", &ctx(), F(42.0), &mut d), F(42.0));
}

#[test]
fn an_upright_monitor_keeps_its_mode() {
    let m = monitor(
        r#"{ "id": 1, "name": "DP-3", "x": 0, "y": 0, "width": 3840,
             "height": 1600, "scale": 1.0, "transform": 0 }"#,
    );
    assert_eq!((m.width, m.height), (F(3840.0), F(1600.0)));
}

/// Hyprland reports the mode either way round; only `transform` says which
/// way up the panel is hung.
#[test]
fn a_rotated_monitor_is_turned_to_match_the_layout() {
    for transform in [1, 3, 5, 7] {
        let m = monitor(&format!(
            r#"{{ "width": 2560, "height": 1440, "scale": 1.0,
                  "transform": {transform} }}"#
        ));
        assert_eq!((m.width, m.height), (F(1440.0), F(2560.0)), "transform {transform}");
    }
    for transform in [0, 2, 4, 6] {
        let m = monitor(&format!(
            r#"{{ "width": 2560, "height": 1440, "scale": 1.0,
                  "transform": {transform} }}"#
        ));
        assert_eq!((m.width, m.height), (F(2560.0), F(1440.0)), "transform {transform}");
    }
}

#[test]
fn scale_applies_before_the_swap() {
    let m = monitor(
        r#"{ "width": 2560, "height": 1440, "scale": 2.0, "transform": 3 }"#,
    );
    assert_eq!((m.width, m.height), (F(720.0), F(1280.0)));
}

#[test]
fn a_middle_on_a_border_goes_where_the_numbers_round_it() {
    assert_eq!(sample::<F>(14, 25, 100), 57);
    assert_eq!(sample::<F>(13, 25, 100), 54);
    assert_eq!((0..4).map(|i| sample::<F>(i, 4, 2)).collect::<Vec<_>>(), vec![0, 0, 1, 1]);
    assert_eq!(sample::<F>(99, 4, 4), 3);
    assert_eq!(sample::<F>(-1, 4, 4), 0);
    assert_eq!(sample::<F>(5, 0, 4), 3);
    assert_eq!(sample::<F>(0, 4, 0), 0);
}
