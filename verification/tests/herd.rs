//! The flock as the host keeps it, and what ends up on the screen.

use hyprsheep::anim::Pet;
use hyprsheep::blit::{argb, draw, faded, input_region, premultiplied, sample, Cut, Grip, Panel};
use hyprsheep::config::Config;
use hyprsheep::dice::Dice;
use hyprsheep::fixed::Fixed;
use hyprsheep::flock::{
    later, refresh_interval, Flock, Yard, BUSY_REFRESH, IDLE_REFRESH, MILLI, SETTLE,
};
use hyprsheep::mouse::{Spot, Trail};
use hyprsheep::number::Number;
use hyprsheep::petfile::PetError;
use hyprsheep::refresh::{Freshness, Layout};
use hyprsheep::sheep::{Event, Sheep};
use hyprsheep::sprites::{Picture, Sheet, SheetError, SheetFault, GREY, GREY_ALPHA, RGB, RGBA};
use hyprsheep::world::{Rect, Screen, World};

fn n(i: i64) -> Fixed {
    Fixed { raw: i * 10_000_000_000 }
}

/// Walks left two pixels a step, every 100 ms, and calls on a companion
/// that ends after three steps.
const PET: &str = r#"<pet>
  <image><tilesx>2</tilesx><tilesy>1</tilesy></image>
  <spawns>
    <spawn probability="1"><x>screenW/2</x><y>areaH-imageH</y><next>1</next></spawn>
  </spawns>
  <animations>
    <animation id="1">
      <name>walk</name>
      <start><x>-2</x><y>0</y><interval>100</interval></start>
      <end><x>-2</x><y>0</y><interval>100</interval></end>
      <sequence repeat="1000" repeatfrom="0"><frame>0</frame><next probability="1">1</next></sequence>
      <gravity><next probability="1">3</next></gravity>
    </animation>
    <animation id="2">
      <name>flower</name>
      <start><interval>100</interval></start>
      <end><interval>100</interval></end>
      <sequence repeat="2" repeatfrom="0"><frame>1</frame></sequence>
    </animation>
    <animation id="3">
      <name>fall</name>
      <start><y>4</y><interval>50</interval></start>
      <end><y>4</y><interval>50</interval></end>
      <sequence repeat="10" repeatfrom="0"><frame>0</frame><next probability="1">3</next></sequence>
      <border><next probability="1">1</next></border>
    </animation>
    <animation id="4">
      <name>drag</name>
      <sequence><frame>1</frame><next probability="1">3</next></sequence>
    </animation>
  </animations>
  <childs>
    <child animationid="1"><x>imageX-imageW</x><y>imageY</y><next>2</next></child>
  </childs>
</pet>"#;

fn yard() -> Yard<Fixed> {
    Yard {
        pet: Pet::parse(PET).unwrap(),
        world: World {
            screens: vec![Screen {
                id: 0,
                x: n(0),
                y: n(0),
                w: n(1000),
                h: n(500),
                reserved: (n(0), n(0), n(0), n(0)),
                workspace: 1,
            }],
            windows: vec![],
            flock: vec![],
            pointer: None,
        },
        tile: n(40),
        cfg: Config::default(),
    }
}

#[test]
fn the_same_seed_gives_the_same_throws() {
    let (mut a, mut b) = (Dice::with_seed(41), Dice::with_seed(41));
    for _ in 0..100 {
        let (x, y): (Fixed, Fixed) = (a.throw(), b.throw());
        assert_eq!(x, y);
        assert!(0 <= x.raw && x.raw < 10_000_000_000);
    }
    assert_eq!(a.seed, b.seed);
    assert_ne!(a.seed, 41);
}

#[test]
fn a_throw_is_what_the_generator_gives() {
    let mut rng = fastrand::Rng::with_seed(41);
    let mut d = Dice::with_seed(41);
    let thrown: Fixed = d.throw();
    // Fifty-three bits out of the sixty-four, to within the last place.
    let exact = (rng.u64(..) >> 11) as i128 * 10_000_000_000 / (1i128 << 53);
    assert!((thrown.raw as i128 - exact).abs() <= 1, "{thrown:?} is not {exact}");
    assert_eq!(d.seed, rng.get_seed());
    assert_eq!(d.pick(6), rng.u64(..6));
}

#[test]
fn a_pick_stays_below_its_bound() {
    let mut d = Dice::new();
    let mut seen = [false; 3];
    for _ in 0..200 {
        seen[d.pick(3) as usize] = true;
    }
    assert_eq!(seen, [true, true, true]);
}

#[test]
fn the_flock_is_made_up_to_the_configured_number() {
    let mut yard = yard();
    yard.cfg.sheep = 3;
    let mut flock = Flock::new(Dice::with_seed(1));
    flock.top_up_flock(&yard, 7);
    let ordinary = flock.pens.iter().filter(|p| !p.sheep.is_child).count();
    assert_eq!(ordinary, 3);
    // Each walk brought its flower along, and nobody shares an identity.
    assert_eq!(flock.pens.len(), 6);
    let ids: std::collections::HashSet<u64> = flock.pens.iter().map(|p| p.sheep.id).collect();
    assert_eq!(ids.len(), 6);
    assert!(flock.pens.iter().all(|p| p.next_step == 7));
    // There is nothing left to make up.
    flock.top_up_flock(&yard, 9);
    assert_eq!(flock.pens.len(), 6);
}

#[test]
fn companions_stand_where_they_are_called_and_take_after_their_parent() {
    let yard = yard();
    let mut flock = Flock::new(Dice::with_seed(1));
    flock.add_sheep(&yard, 0);
    let (parent, child) = (flock.pens[0].sheep, flock.pens[1].sheep);
    assert_eq!((parent.x, parent.y), (n(500), n(460)));
    assert_eq!((child.x, child.y), (n(460), n(460)));
    assert!(child.is_child && !parent.is_child);
    assert_eq!(child.rand_s, parent.rand_s);
    assert_eq!(child.animation, 2);
}

#[test]
fn companions_that_call_on_one_another_in_a_circle_stop() {
    let mut yard = yard();
    yard.pet.children[0].next = 1;
    let mut flock = Flock::new(Dice::with_seed(1));
    let call =
        Event::SpawnChild { animation: 1, x: n(5), y: n(6), rand_s: n(7), workspace: Some(2) };
    flock.handle(&yard, &vec![Event::Died, call], 0, 3);
    assert_eq!(flock.pens.len(), 4);
    assert_eq!((flock.pens[0].sheep.x, flock.pens[0].sheep.y), (n(5), n(6)));
    assert_eq!(flock.pens[0].sheep.rand_s, n(7));
    assert_eq!(flock.pens[0].sheep.workspace, Some(2));
}

#[test]
fn a_tick_runs_the_sheep_that_are_due() {
    let yard = yard();
    let mut flock = Flock::new(Dice::with_seed(1));
    flock.add_sheep(&yard, 0);
    // A step at 0, at 100 and at 200 ms.
    flock.tick(&yard, 200 * MILLI);
    assert_eq!(flock.pens[0].sheep.x, n(494));
    assert_eq!(flock.pens[0].next_step, 300 * MILLI);
    // The flower has taken its three steps and is gone.
    assert_eq!(flock.pens.len(), 1);
    // Nobody is due.
    flock.tick(&yard, 250 * MILLI);
    assert_eq!(flock.pens[0].sheep.x, n(494));
    assert_eq!(flock.next_deadline(u64::MAX), 300 * MILLI);
    assert_eq!(flock.next_deadline(260 * MILLI), 260 * MILLI);
    // Far behind, it takes a few steps and then waits no longer than this.
    flock.tick(&yard, 60_000 * MILLI);
    assert_eq!(flock.pens[0].sheep.x, n(494 - 16));
    assert_eq!(flock.pens[0].next_step, 60_000 * MILLI);
}

#[test]
fn a_tick_tells_of_every_change_of_animation() {
    let yard = yard();
    let mut flock = Flock::new(Dice::with_seed(1));
    flock.add_sheep(&yard, 0);
    flock.pens.truncate(1);
    flock.pens[0].sheep.animation = 3;
    flock.pens[0].sheep.steps = 5;
    let moves = flock.tick(&yard, 0);
    assert_eq!(moves.len(), 1);
    assert_eq!(moves[0].animation, 1);
}

#[test]
fn the_dead_are_gone_and_the_living_keep_their_order() {
    let yard = yard();
    let mut flock = Flock::new(Dice::with_seed(1));
    flock.add_sheep(&yard, 0);
    flock.add_sheep(&yard, 0);
    let ids: Vec<u64> = flock.pens.iter().map(|p| p.sheep.id).collect();
    let children: Vec<bool> = flock.pens.iter().map(|p| p.sheep.is_child).collect();
    assert_eq!(children, vec![false, true, false, true]);
    flock.tick(&yard, 200 * MILLI);
    let left: Vec<u64> = flock.pens.iter().map(|p| p.sheep.id).collect();
    assert_eq!(left, vec![ids[0], ids[2]]);
}

#[test]
fn a_press_and_a_movement_pick_the_sheep_up() {
    let mut yard = yard();
    yard.pet.children.clear();
    let mut flock = Flock::new(Dice::with_seed(1));
    flock.add_sheep(&yard, 0);
    // Beside the sheep: nothing happens.
    flock.press(n(400), n(470), yard.tile);
    assert_eq!(flock.pressed, None);
    flock.motion(&yard, n(300), n(100), 5);
    assert_eq!(flock.pens[0].sheep.x, n(500));
    // On it.
    flock.press(n(510), n(470), yard.tile);
    assert_eq!(flock.pressed, Some(0));
    assert!(!flock.pens[0].sheep.dragging);
    flock.motion(&yard, n(300), n(100), 5);
    let held = flock.pens[0];
    assert!(held.sheep.dragging);
    assert_eq!((held.sheep.x, held.sheep.y, held.next_step), (n(280), n(80), 5));
    assert_eq!(held.sheep.animation, 4);
    // A flick throws it.
    flock.release(&yard, n(600), n(0), 6);
    assert_eq!(flock.pressed, None);
    assert!(!flock.pens[0].sheep.dragging);
    assert_eq!(flock.pens[0].sheep.toss, Some((n(600), n(0))));
}

#[test]
fn a_sheep_that_may_not_be_thrown_is_dropped() {
    let mut yard = yard();
    yard.pet.children.clear();
    yard.cfg.throw = false;
    let mut flock = Flock::new(Dice::with_seed(1));
    flock.add_sheep(&yard, 0);
    flock.press(n(510), n(470), yard.tile);
    flock.motion(&yard, n(300), n(100), 5);
    flock.release(&yard, n(600), n(0), 6);
    assert_eq!(flock.pens[0].sheep.toss, None);
    assert_eq!(flock.pens[0].sheep.animation, 4);
    flock.tick(&yard, 6);
    assert_eq!(flock.pens[0].sheep.animation, 3);
    // A pointer that has left takes nothing with it.
    flock.press(n(290), n(90), yard.tile);
    assert_eq!(flock.pressed, Some(0));
    flock.leave();
    assert_eq!(flock.pressed, None);
}

#[test]
fn the_topmost_sheep_is_the_one_drawn_last() {
    let yard = yard();
    let mut flock = Flock::new(Dice::with_seed(1));
    flock.add_sheep(&yard, 0);
    flock.pens[1].sheep.x = n(510);
    assert_eq!(flock.sheep_at(n(520), n(470), yard.tile), Some(1));
    assert_eq!(flock.sheep_at(n(505), n(470), yard.tile), Some(0));
    assert_eq!(flock.sheep_at(n(520), n(100), yard.tile), None);
}

#[test]
fn a_sheep_out_of_sight_is_left_out_of_the_squares() {
    let yard = yard();
    let mut flock = Flock::new(Dice::with_seed(1));
    flock.add_sheep(&yard, 0);
    assert_eq!(flock.squares(&yard.world, yard.tile).len(), 2);
    flock.pens[1].sheep.workspaces = true;
    flock.pens[1].sheep.workspace = Some(9);
    let id = flock.pens[0].sheep.id;
    assert_eq!(
        flock.squares(&yard.world, yard.tile),
        vec![Rect { id, x: n(500), y: n(460), w: n(40), h: n(40) }]
    );
    assert_eq!(flock.scene().len(), 2);
    assert_eq!(flock.scene()[0].alpha, 255);
    assert_eq!(flock.members()[0].id, id);
}

#[test]
fn the_layout_is_read_again_often_only_while_it_moves() {
    assert_eq!(refresh_interval(true, u64::MAX), BUSY_REFRESH);
    assert_eq!(refresh_interval(false, SETTLE - 1), BUSY_REFRESH);
    assert_eq!(refresh_interval(false, SETTLE), IDLE_REFRESH);
    assert_eq!(later(5, 2), 2_000_005);
    assert_eq!(later(5, u64::MAX), u64::MAX);

    let mut layout = Layout::new(100);
    assert_eq!(layout.deadline(100), 100 + BUSY_REFRESH);
    assert!(!layout.due(99 + BUSY_REFRESH) && layout.due(100 + BUSY_REFRESH));
    // Nothing has moved for long: it can wait.
    layout.begin_reading(100 + SETTLE);
    layout.end_reading(false, 100 + SETTLE);
    assert_eq!(layout.deadline(100 + SETTLE), 100 + SETTLE + IDLE_REFRESH);
    // Until the compositor says something.
    layout.hear();
    assert_eq!(layout.deadline(100 + SETTLE), 100 + SETTLE + BUSY_REFRESH);
    layout.begin_reading(100 + 3 * SETTLE);
    layout.end_reading(true, 100 + 3 * SETTLE);
    assert!(!layout.dirty);
    assert_eq!(layout.last_change, 100 + 3 * SETTLE);
    assert_eq!(layout.interval(100 + 3 * SETTLE), BUSY_REFRESH);
}

#[test]
fn a_panel_is_drawn_once_it_is_stale_and_the_compositor_ready() {
    let mut fresh = Freshness::new();
    assert!(fresh.due());
    fresh.begin_drawing();
    fresh.commit();
    assert!(!fresh.due());
    fresh.spoil();
    assert!(!fresh.due(), "a drawing is still on its way");
    fresh.called_back();
    assert!(fresh.due());
}

#[test]
fn a_pet_file_can_be_wrong_in_three_ways() {
    assert!(matches!(Pet::<Fixed>::parse("not xml"), Err(PetError::Xml(_))));
    assert!(matches!(Pet::<Fixed>::parse("<pet/>"), Err(PetError::NoAnimations)));
    let nameless = "<pet><animations><animation/></animations></pet>";
    assert!(matches!(Pet::<Fixed>::parse(nameless), Err(PetError::NoId)));
}

#[test]
fn the_last_of_two_animations_with_one_id_counts() {
    let text = "<pet><animations><animation id=\"1\"><name>a</name></animation>\
                <animation id=\"1\"><name>b</name></animation></animations></pet>";
    let pet = Pet::<Fixed>::parse(text).unwrap();
    assert_eq!(pet.animations.len(), 1);
    assert_eq!(pet.get(1).unwrap().name, "b");
}

#[test]
fn an_embedded_picture_is_decoded() {
    let text = "<pet><image><png>c2hl\n ZXA=</png></image>\
                <animations><animation id=\"1\"/></animations></pet>";
    let pet = Pet::<Fixed>::parse(text).unwrap();
    assert_eq!(pet.png, Some(b"sheep".to_vec()));
    assert_eq!((pet.tiles_x, pet.tiles_y), (16, 11));
    assert!(pet.spawns.is_empty() && pet.children.is_empty());
}

/// A PNG file of these samples.
fn png_of(w: u32, h: u32, colour: png::ColorType, depth: png::BitDepth, data: &[u8]) -> Vec<u8> {
    let mut out = Vec::new();
    let mut encoder = png::Encoder::new(&mut out, w, h);
    encoder.set_color(colour);
    encoder.set_depth(depth);
    let mut writer = encoder.write_header().unwrap();
    writer.write_image_data(data).unwrap();
    writer.finish().unwrap();
    out
}

#[test]
fn a_sheet_is_decoded_to_four_parts_a_pixel() {
    let rgb = png_of(2, 1, png::ColorType::Rgb, png::BitDepth::Eight, &[1, 2, 3, 4, 5, 6]);
    let sheet = Sheet::load(&rgb).unwrap();
    assert_eq!((sheet.width, sheet.height), (2, 1));
    assert_eq!(sheet.pixels, vec![1, 2, 3, 255, 4, 5, 6, 255]);
    let grey = png_of(1, 2, png::ColorType::GrayscaleAlpha, png::BitDepth::Eight, &[9, 8, 7, 6]);
    let sheet = Sheet::load(&grey).unwrap();
    assert_eq!(sheet.pixels, vec![9, 9, 9, 8, 7, 7, 7, 6]);
    assert_eq!(sheet.row(1), &[7, 7, 7, 6]);
}

#[test]
fn a_sheet_can_be_refused() {
    assert!(matches!(Sheet::load(b"no picture"), Err(SheetError::Header(_))));
    let good = png_of(2, 2, png::ColorType::Rgba, png::BitDepth::Eight, &[7; 16]);
    let cut = &good[..good.len() - 20];
    assert!(matches!(Sheet::load(cut), Err(SheetError::Data(_))));
    let deep = png_of(1, 1, png::ColorType::Grayscale, png::BitDepth::Sixteen, &[1, 2]);
    assert!(matches!(Sheet::load(&deep), Err(SheetError::Depth(16))));
}

#[test]
fn a_picture_of_any_supported_kind_is_a_sheet() {
    let picture = |depth: u8, colour: u8, data: Vec<u8>| Picture { width: 1, height: 1, depth, colour, data };
    let pixels = |p: Picture| Sheet::from_picture(&p).map(|s| s.pixels);
    assert_eq!(pixels(picture(8, RGBA, vec![1, 2, 3, 4])), Ok(vec![1, 2, 3, 4]));
    assert_eq!(pixels(picture(8, RGB, vec![1, 2, 3])), Ok(vec![1, 2, 3, 255]));
    assert_eq!(pixels(picture(8, GREY_ALPHA, vec![1, 2])), Ok(vec![1, 1, 1, 2]));
    assert_eq!(pixels(picture(8, GREY, vec![1])), Ok(vec![1, 1, 1, 255]));
    assert_eq!(pixels(picture(8, 3, vec![1])), Err(SheetFault::Colour(3)));
    assert_eq!(pixels(picture(4, GREY, vec![])), Err(SheetFault::Depth(4)));
}

#[test]
fn a_tile_is_sampled_at_its_pixels_middles() {
    assert_eq!((0..4).map(|i| sample::<Fixed>(i, 4, 4)).collect::<Vec<_>>(), vec![0, 1, 2, 3]);
    assert_eq!((0..4).map(|i| sample::<Fixed>(i, 4, 2)).collect::<Vec<_>>(), vec![0, 0, 1, 1]);
    assert_eq!((0..2).map(|i| sample::<Fixed>(i, 2, 4)).collect::<Vec<_>>(), vec![1, 3]);
    assert_eq!(sample::<Fixed>(99, 4, 4), 3);
    assert_eq!(sample::<Fixed>(-1, 4, 4), 0);
    // The same from the left as from the right, at any size.
    for (dst, src) in [(60, 40), (65535, 65534), (7, 3), (3, 65535)] {
        for at in [0, 1, 2, dst / 3, dst - 1] {
            let here = sample::<Fixed>(at, dst, src) as u64 + sample::<Fixed>(dst - 1 - at, dst, src) as u64;
            if (2 * at as u64 + 1) * src as u64 % (2 * dst as u64) != 0 {
                assert_eq!(here, src as u64 - 1, "{at} of {dst} from {src}");
            }
        }
    }
}

#[test]
fn a_sheet_is_cut_into_its_tiles() {
    let cut = Cut::new(641, 440, 16, 11, n(2));
    assert_eq!((cut.src_w, cut.src_h), (Fixed { raw: 400_625_000_000 }, n(40)));
    assert_eq!((cut.tile, cut.tiles_x), (Fixed { raw: 801_250_000_000 }, 16));
    let cut = Cut::new(30, 20, 0, 0, n(1));
    assert_eq!((cut.src_w, cut.src_h), (n(30), n(20)));
}

#[test]
fn the_pace_of_the_mouse_is_that_of_its_last_two_places() {
    let spot = |x: i64, y: i64, time: u32| Spot { x: n(x), y: n(y), time };
    let mut trail = Trail::new();
    assert_eq!(trail.pace(), (n(0), n(0)));
    trail.go(spot(0, 0, 5));
    assert_eq!(trail.pace(), (n(0), n(0)));
    trail.go(spot(10, -20, 25));
    assert_eq!(trail.pace(), (n(500), n(-1000)));
    // Let go of at once, it is still travelling.
    trail.stop(spot(10, -20, 25));
    assert_eq!(trail.pace(), (n(500), n(-1000)));
    // The clock may come round in between, or not have moved at all.
    let mut trail = Trail::new();
    trail.go(spot(0, 0, u32::MAX));
    trail.stop(spot(1, 0, 9));
    assert_eq!(trail.pace(), (n(100), n(0)));
    trail.go(spot(2, 0, 9));
    assert_eq!(trail.pace(), (n(1000), n(0)));
}

#[test]
fn colours_are_premultiplied() {
    assert_eq!(premultiplied(255, 128), 128);
    assert_eq!(premultiplied(100, 128), 50);
    assert_eq!(argb(255, 100, 0, 128), 0x8080_3200);
    assert_eq!(faded::<Fixed>(200, Fixed { raw: 5_000_000_000 }), 100);
    assert_eq!(faded::<Fixed>(200, n(1)), 200);
}

/// Two tiles of two pixels by two: red, with its left column green, and clear.
fn sheet() -> Sheet {
    let (red, green, clear) = ([255u8, 0, 0, 255], [0u8, 255, 0, 255], [9u8, 9, 9, 0]);
    let row = [green, red, clear, clear].concat();
    Sheet { width: 4, height: 2, pixels: [row.clone(), row].concat() }
}

fn placed(x: i64, y: i64) -> Sheep<Fixed> {
    let mut ids: u64 = 1;
    let mut s = Sheep::new(false, &mut ids, &mut Dice::with_seed(3));
    s.x = n(x);
    s.y = n(y);
    s
}

const CUT: Cut<Fixed> =
    Cut { src_w: Fixed { raw: 20_000_000_000 }, src_h: Fixed { raw: 20_000_000_000 }, tile: Fixed { raw: 20_000_000_000 }, tiles_x: 2 };

#[test]
fn sheep_are_drawn_where_they_stand() {
    let panel = Panel { width: 4, height: 3, scale: 1, origin: (n(10), n(0)) };
    const G: u32 = 0xff00_ff00;
    const R: u32 = 0xffff_0000;
    let mut s = placed(11, 1);
    s.frame = 0;
    let flock = vec![s];
    assert_eq!(draw(&flock, &sheet(), &panel, &CUT), vec![0, 0, 0, 0, 0, G, R, 0, 0, G, R, 0]);
    // The other way round.
    s.flipped = true;
    let flock = vec![s];
    assert_eq!(draw(&flock, &sheet(), &panel, &CUT), vec![0, 0, 0, 0, 0, R, G, 0, 0, R, G, 0]);
    // A clear tile leaves nothing, and nor does a sheep on another panel.
    s.frame = 1;
    let flock = vec![s, placed(50, 1)];
    assert_eq!(draw(&flock, &sheet(), &panel, &CUT), vec![0; 12]);
    // Cut off at the edge.
    let flock = vec![placed(13, 2)];
    assert_eq!(draw(&flock, &sheet(), &panel, &CUT), vec![0, 0, 0, 0, 0, 0, 0, 0, 0, 0, 0, G]);
}

#[test]
fn a_panel_of_twice_the_scale_has_four_times_the_pixels() {
    let panel = Panel { width: 2, height: 2, scale: 2, origin: (n(0), n(0)) };
    const G: u32 = 0xff00_ff00;
    const R: u32 = 0xffff_0000;
    let flock = vec![placed(0, 0)];
    let row = [G, G, R, R];
    assert_eq!(draw(&flock, &sheet(), &panel, &CUT), [row, row, row, row].concat());
}

#[test]
fn the_mouse_reaches_the_sheep_only_where_they_are() {
    let panel = Panel { width: 400, height: 300, scale: 1, origin: (n(100), n(0)) };
    let flock = vec![placed(150, 20), placed(20, 20)];
    assert_eq!(input_region(&flock, &panel, n(40), true), vec![Grip { x: 50, y: 20 }]);
    assert_eq!(input_region(&flock, &panel, n(40), false), vec![]);
}

#[test]
fn fixed_numbers_stay_within_their_range() {
    assert_eq!(n(7).over(n(2)), Fixed { raw: 35_000_000_000 });
    assert_eq!(n(-7).modulo(n(4)), n(-3));
    assert_eq!(Fixed { raw: i64::MAX }.plus(n(1)), Fixed { raw: i64::MAX });
    assert_eq!(Fixed { raw: -25_000_000_000 }.trunc(), n(-2));
    assert_eq!(Fixed { raw: 25_000_000_000 }.round(), n(3));
    assert_eq!(n(3).hypot(n(4)), n(5));
    assert_eq!(Fixed::read("-1.5"), Some(Fixed { raw: -15_000_000_000 }));
    assert_eq!(Fixed::read("1.5x"), None);
}
