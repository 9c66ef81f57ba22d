use minecraft2::arrival::{covered, falling, ring_cells, Falling};
use minecraft2::audio::{wav, RATE};
use minecraft2::cli::{indirect, parse, Args, CliError, GiMethod, HoursRead, ListRead, Mode, Preset, Reading};
use minecraft2::controls::{next_stop, App, Clicked, Drawn, Effect, Lens, Load, PhotoMode, Start, Surface, Told};
use minecraft2::demo::{
    dug, keep_waiting, nearest_tree, run, trench_box, trench_step, Act, Demo, Stage,
};
use minecraft2::gamepad::{snapshot, Digital, Gamepads};
use minecraft2::icons::model::{
    bucket, grain, ingot, item_model, spotted, stick, tier_paint, tool_part, Figure, Pail, Probe,
    Rgb, ToolPart, View,
};
use minecraft2::icons::{
    all_items, blit, bond, glass, grass_voxel, hash24, holdable, look, meets, next_axis, occlusion,
    plane, texture, Extra, Look, Meets, Model, Paint, ATLAS, CELL,
};
use minecraft2::input::{map_key, Button, Input, Key, KeyCode};
use minecraft2::inventory::{
    carried, catalogue_place, catalogue_rows, hit, number, quick_move, shown, slot_click,
    slot_place, tabs, Asked, Entry, Hit, Inventory, Near, Rect, Screen, Stack, Station, Tab,
};
use minecraft2::item::{BlockKind, Item, Tier, ToolKind};
use minecraft2::ivec::IVec3;
use minecraft2::key::Key3;
use minecraft2::material::{count, ids, MaterialId};
use minecraft2::measure::{half, percentile, quiet_after};
use minecraft2::world::VoxelWorld;

fn m(id: u16) -> MaterialId {
    MaterialId(id)
}

fn v(x: i32, y: i32, z: i32) -> IVec3 {
    IVec3::new(x, y, z)
}

fn reading(s: &str) -> Reading {
    let hours = match s.parse::<f64>() {
        Err(e) => HoursRead::Bad(format!("{e}")),
        Ok(x) if (0.0..=24.0).contains(&x) => HoursRead::Fine,
        Ok(_) => HoursRead::Outside,
    };
    let list = match s.split(',').map(|x| x.trim().parse::<f64>()).collect::<Result<Vec<_>, _>>() {
        Err(e) => ListRead::Bad(format!("{e}")),
        Ok(l) => ListRead::Numbers(l.len()),
    };
    Reading { hours, list }
}

fn p(s: &str) -> Result<Args, CliError> {
    let args: Vec<String> = s.split_whitespace().map(str::to_owned).collect();
    let readings = args.iter().map(|a| reading(a)).collect();
    parse(&args, &readings)
}

fn said(s: &str) -> String {
    match p(s) {
        Ok(_) => panic!("accepted {s}"),
        Err(e) => e.message("USAGE"),
    }
}

#[test]
fn parses_capture_flags() {
    let a = p("--capture out.png --frames 30 --size 640x360 --software").ok().unwrap();
    assert!(matches!(a.mode, Mode::Capture(f) if f == "out.png"));
    assert_eq!(a.frames, 30);
    assert_eq!(a.size, (640, 360));
    assert!(a.software);
    assert_eq!(a.exit_after, Some(30));
}

#[test]
fn parses_quality_tiers() {
    assert_eq!(p("").ok().unwrap().quality, Preset::UltraRealistic);
    assert_eq!(p("--quality 0").ok().unwrap().quality, Preset::Realistic);
    assert_eq!(
        p("--quality super-ultra-crazy-duper-realistic").ok().unwrap().quality,
        Preset::SuperUltraCrazyDuperRealistic
    );
    assert!(p("--quality low").is_err());
    // The time of day is the second argument's, which reads as 21.5.
    let args = ["--time", "21.5"];
    let a = p("--time 21.5").ok().unwrap();
    assert_eq!(a.time.map(|i| args[i].parse::<f64>().unwrap()), Some(21.5));
    assert!(p("--time 25").is_err());
}

#[test]
fn rejects_bad_input() {
    assert!(p("--size 640").is_err());
    assert!(p("--frames").is_err());
    assert!(p("--wat").is_err());
    assert!(matches!(p("").ok().unwrap().mode, Mode::Window));
}

#[test]
fn errors_say_what_is_wrong() {
    assert_eq!(said("--frames"), "--frames needs a value");
    assert_eq!(said("--frames x1"), "--frames: invalid digit found in string");
    assert_eq!(said("--frames 4294967296"), "--frames: number too large to fit in target type");
    assert_eq!(said("--size x5"), "--size width: cannot parse integer from empty string");
    assert_eq!(said("--size 5x+"), "--size height: invalid digit found in string");
    assert_eq!(said("--size 640"), "--size expects WxH");
    assert_eq!(said("--dof 12"), "--dof expects focus_m,f_number");
    assert_eq!(said("--dof 12,x"), "--dof: invalid float literal");
    assert_eq!(said("--dof"), said("--camera").replace("--camera", "--dof"));
    assert_eq!(said("--camera 1,2,3"), "--camera expects x,y,z,look_x,look_y,look_z");
    assert_eq!(said("--camera 1,2,q"), "--camera: invalid float literal");
    assert_eq!(said("--time 25"), "--time expects hours in 0..=24");
    assert_eq!(said("--time q"), "--time: invalid float literal");
    assert_eq!(said("--demo q"), "unknown demo `q`");
    assert_eq!(said("--gi q"), "unknown indirect method `q`");
    assert_eq!(said("--quality q"), "unknown quality `q`");
    assert_eq!(said("--help"), "USAGE");
    assert_eq!(said("--wat --frames"), "unknown argument `--wat`\nUSAGE");
    // The first mistake decides.
    assert_eq!(said("--frames q --wat"), "--frames: invalid digit found in string");
}

#[test]
fn other_flags_land_where_they_belong() {
    let a = p("--seed +18446744073709551615 --world w --demo blast --camera 1,2,3,4,5,6 --gi cascades --view 2 --hud --no-beam --bench")
        .ok()
        .unwrap();
    assert_eq!(a.seed, u64::MAX);
    assert_eq!(a.world_dir, "w");
    assert_eq!(a.demo, Some(Demo::Blast));
    assert_eq!(a.camera, Some(7));
    assert_eq!(indirect(&a, GiMethod::Restir), GiMethod::Cascades);
    assert_eq!(indirect(&Args::default(), GiMethod::Restir), GiMethod::Restir);
    assert_eq!(a.debug_view, 2);
    assert!(a.hud && a.no_beam && !a.software && matches!(a.mode, Mode::Bench));
    assert_eq!(a.exit_after, None);
}

fn extra() -> Extra {
    Extra {
        birch_log: m(100),
        birch_leaves: m(101),
        moss: m(103),
        cactus: m(102),
        dark_planks: m(110),
        red_brick: m(111),
        concrete: m(112),
        asphalt: m(113),
        thatch: m(114),
    }
}

#[test]
fn items_are_unique_and_fit_the_atlas() {
    let finite = (0..count()).map(|i| i != ids::BEDROCK as usize).collect();
    let items = all_items(&finite, &extra());
    let mut seen = std::collections::HashSet::new();
    assert!(items.iter().all(|i| seen.insert(*i)));
    assert!(items.len() as u32 <= (ATLAS / CELL).pow(2));
    // Everything the workshop makes has an icon.
    for a in run(Demo::Workshop, &None) {
        if let Act::Make(item, _) = a {
            assert!(seen.contains(&item), "{item:?}");
        }
    }
    assert!(!seen.contains(&Item::solid(m(ids::WATER))));
    assert!(!seen.contains(&Item::solid(m(ids::BEDROCK))));
    assert!(holdable(m(ids::LEAVES), true, &extra()) && !holdable(m(ids::FIRE), true, &extra()));
}

#[test]
fn textures_show_their_patterns() {
    let e = extra();
    let up = v(0, 1, 0);
    let front = v(0, 0, -1);
    let flat = |r, g, b| Paint::Plain { r, g, b };
    // The letters on TNT: the first column of its first T, mirrored in front.
    assert_eq!(texture(m(ids::TNT), &e, v(13, 9, 0), front), flat(2, 2, 2));
    assert_eq!(texture(m(ids::TNT), &e, v(15, 9, 0), front), flat(85, 83, 78));
    assert_eq!(texture(m(ids::TNT), &e, v(7, 0, 7), up), flat(3, 3, 3));
    // Planks have a dark gap every fourth voxel.
    assert!(matches!(texture(m(ids::PLANKS), &e, v(3, 4, 0), front), Paint::Shade { a: 62, .. }));
    assert!(matches!(texture(m(ids::PLANKS), &e, v(3, 5, 0), front), Paint::Board { .. }));
    // Bark round the end of a log, rings inside.
    assert!(matches!(texture(m(ids::PINE_LOG), &e, v(0, 0, 0), up), Paint::Shade { a: 75, .. }));
    assert!(matches!(
        texture(m(ids::PINE_LOG), &e, v(7, 0, 8), up),
        Paint::Rings { scale: 80, quarters: 2, .. }
    ));
    assert_eq!(texture(e.red_brick, &e, v(3, 3, 0), front), flat(55, 53, 50));
    assert!(matches!(texture(m(ids::STEEL), &e, v(1, 6, 0), front), Paint::Shade { a: 130, .. }));
    assert!(matches!(texture(m(ids::MARBLE), &e, v(1, 6, 0), front), Paint::Vein { .. }));
    assert!(matches!(texture(m(ids::WOOL), &e, v(1, 6, 0), front), Paint::Shade { c: 18, .. }));
    let seams = (0..4096)
        .filter(|i| {
            let at = v(i % 16, i / 16 % 16, i / 256);
            texture(m(ids::GOLD_ORE), &e, at, up) == flat(95, 72, 20)
        })
        .count();
    assert!(seams > 400 && seams < 1400, "{seams}");
    assert_eq!(plane(v(1, 2, 3), v(1, 0, 0)), (3, 2));
    assert_eq!(bond(0, 8, 4, 4), (true, 0, 1));
    assert_eq!(bond(4, 8, 4, 5), (true, 1, 1));
    assert_eq!(bond(5, 8, 4, 5), (false, 1, 1));
    assert_eq!(hash24(0, 0, 0, 0), 0);
    assert_ne!(hash24(1, 0, 0, 0), hash24(0, 1, 0, 0));
    assert_eq!(grass_voxel(v(0, 15, 0)), m(ids::GRASS));
    assert_eq!(grass_voxel(v(0, 3, 0)), m(ids::DIRT));
}

#[test]
fn models_know_their_bounds_and_corners() {
    let mut cells = vec![None; 64];
    cells[1 + 4 * (2 + 4 * 3)] = Some(Look::Matte);
    cells[2 + 4 * (2 + 4 * 1)] = Some(Look::Glass);
    let model = Model { n: 4, whole: false, cells };
    assert_eq!(model.bounds(), (v(1, 2, 1), v(3, 3, 4)));
    assert_eq!(model.at(v(1, 2, 3)), Some(Look::Matte));
    assert_eq!(model.at(v(-1, 2, 3)), None);
    assert!(model.opaque(v(1, 2, 3)) && !model.opaque(v(2, 2, 1)));
    // The voxel beside shuts out eight hundredths of the light on a top.
    assert_eq!(occlusion(&model, v(0, 1, 3), v(0, 1, 0)), 92);
    assert_eq!(occlusion(&model, v(0, 1, 2), v(0, 1, 0)), 96);
    assert_eq!(glass(16, v(0, 5, 5), v(0, 0, 1)), (true, false));
    assert_eq!(glass(16, v(5, 6, 5), v(0, 0, 1)), (false, true));
    assert_eq!(meets(Some(Look::Glass), false), (Meets::Pane, true));
    assert_eq!(meets(Some(Look::Glass), true), (Meets::Nothing, true));
    assert_eq!(meets(Some(Look::Metal), true), (Meets::Solid, true));
    assert_eq!(next_axis(Key3 { x: 3, y: 2, z: 2 }), 2);
    assert_eq!(look(m(ids::GLASS), false), Look::Glass);
    assert_eq!(look(m(ids::LAVA), false), Look::Glow);
    assert_eq!(look(m(ids::STEEL), true), Look::Metal);
}

#[test]
fn icons_go_to_their_own_cells() {
    let mut pixels = vec![0u8; 4194304];
    let icon: Vec<u8> = (0..16384).map(|i| (i % 251) as u8 + 1).collect();
    blit(&mut pixels, 17, &icon);
    let at = |x: usize, y: usize| ((64 + y) * 1024 + 64 + x) * 4;
    assert_eq!(pixels[at(0, 0)], icon[0]);
    assert_eq!(pixels[at(63, 63) + 3], icon[16383]);
    assert_eq!(pixels[at(0, 0) - 1], 0);
    assert_eq!(pixels.iter().filter(|b| **b != 0).count(), 16384);
}

fn stack(item: Item, n: u32) -> Stack {
    Stack { item, count: n, life: 0, limit: 64 }
}

fn inv_with(slots: &[(usize, Item, u32)]) -> Inventory {
    let mut inv = Inventory { slots: [None; 36], creative: false };
    for &(i, item, n) in slots {
        inv.slots[i] = Some(stack(item, n));
    }
    inv
}

#[test]
fn clicks_pick_up_put_down_split_and_swap() {
    let dirt = Item::solid(m(ids::DIRT));
    let mut inv = inv_with(&[(0, dirt, 10), (1, Item::Coal, 3)]);
    // Right click takes half.
    let c = slot_click(&mut inv, 0, None, true);
    assert_eq!(c.unwrap().count, 5);
    assert_eq!(inv.slots[0].unwrap().count, 5);
    // Right click with it puts one down in an empty slot.
    let c = slot_click(&mut inv, 5, c, true);
    assert_eq!(inv.slots[5].unwrap().count, 1);
    assert_eq!(c.unwrap().count, 4);
    // Left click merges into the same item.
    let c = slot_click(&mut inv, 0, c, false);
    assert!(c.is_none());
    assert_eq!(inv.slots[0].unwrap().count, 9);
    // Left click on a different item swaps.
    let picked = slot_click(&mut inv, 0, None, false);
    let c = slot_click(&mut inv, 1, picked, false);
    assert_eq!(inv.slots[1].unwrap().item, dirt);
    assert_eq!(c.unwrap().item, Item::Coal);
}

#[test]
fn shift_click_moves_between_hotbar_and_pack() {
    let sand = Item::solid(m(ids::SAND));
    let mut inv = inv_with(&[(2, sand, 20), (12, sand, 60)]);
    quick_move(&mut inv, 2);
    // Tops up the pack's stack, the rest to the first empty pack slot.
    assert_eq!(inv.slots[12].unwrap().count, 64);
    assert_eq!(inv.slots[9].unwrap().count, 16);
    assert!(inv.slots[2].is_none());
    quick_move(&mut inv, 9);
    assert_eq!(inv.slots[0].unwrap().count, 16);
}

#[test]
fn half_of_an_odd_stack_is_rounded_up() {
    let mut inv = inv_with(&[(0, Item::Coal, 7)]);
    let c = slot_click(&mut inv, 0, None, true);
    assert_eq!((c.unwrap().count, inv.slots[0].unwrap().count), (4, 3));
    assert_eq!(carried(&inv), 3);
    let mut full = inv_with(&[(0, Item::Coal, 64)]);
    let c = slot_click(&mut full, 0, c, false);
    assert_eq!((c.unwrap().count, full.slots[0].unwrap().count), (4, 64));
}

#[test]
fn the_screen_sorts_clicks_out() {
    let mut s = Screen::default();
    s.open_at(Some(Station::Table));
    assert!(s.open && s.tab == Tab::At(Station::Table));
    let mut inv = inv_with(&[(0, Item::Coal, 7)]);
    assert_eq!(s.click(&mut inv, Some(Hit::Slot(0)), false, false, 64, 0), Asked::Nothing);
    assert_eq!(s.carried.unwrap().count, 7);
    assert_eq!(
        s.click(&mut inv, Some(Hit::Recipe(4)), false, true, 64, 0),
        Asked::Craft { recipe: 4, times: 8 }
    );
    assert!(matches!(s.click(&mut inv, None, false, false, 64, 0), Asked::GiveBack(b) if b.count == 7));
    assert!(s.carried.is_none());
    s.click(&mut inv, Some(Hit::Catalogue(Item::Flint)), false, false, 16, 0);
    assert_eq!(s.carried.unwrap().count, 16);
    s.click(&mut inv, Some(Hit::Tab(Tab::All)), false, false, 64, 0);
    assert_eq!(s.tab, Tab::All);
    assert_eq!(s.close(true), None);
    assert!(!s.open && s.carried.is_none());
    let mut inv = inv_with(&[(20, Item::Coal, 7)]);
    number(&mut inv, Some(Hit::Slot(20)), 3);
    assert!(inv.slots[20].is_none() && inv.slots[3].unwrap().count == 7);
}

#[test]
fn recipes_list_craftable_first() {
    let near = Near { table: true, furnace: false, trader: None };
    let e = |station, craftable| Entry { station, craftable };
    let book = vec![
        e(Station::Table, false),
        e(Station::Trade(2), true),
        e(Station::Hand, true),
        e(Station::Furnace, false),
    ];
    assert_eq!(shown(&book, Tab::All, near), vec![2, 0, 3]);
    assert_eq!(shown(&book, Tab::At(Station::Table), near), vec![0]);
    let trading = Near { trader: Some(2), ..near };
    assert_eq!(shown(&book, Tab::All, trading), vec![1, 2, 0, 3]);
    assert_eq!(tabs(near, false).len(), 4);
    assert_eq!(tabs(trading, true).len(), 6);
    assert!(near.has(Station::Hand) && !near.has(Station::Furnace));
}

#[test]
fn what_is_drawn_last_is_on_top() {
    let r = |a, b| Rect { x0: a, y0: a, x1: b, y1: b };
    let hits = vec![(r(0, 100), Hit::Panel), (r(10, 20), Hit::Slot(3))];
    assert_eq!(hit(&hits, 15, 15), Some(Hit::Slot(3)));
    assert_eq!(hit(&hits, 20, 15), Some(Hit::Panel));
    assert_eq!(hit(&hits, 100, 15), None);
    assert_eq!((slot_place(4), slot_place(9), slot_place(35)), ((3, 4), (0, 0), (2, 8)));
    assert_eq!((catalogue_rows(10, 5), catalogue_rows(11, 5)), (2, 3));
    assert_eq!(catalogue_place(12, 5, 1, 3), Some((1, 2)));
    assert_eq!(catalogue_place(2, 5, 1, 3), None);
}

#[test]
fn buttons_fire_once_a_press() {
    let held = Digital { jump: true, right: true, ..Digital::default() };
    let mut pads = Gamepads::new();
    let (a, name) = pads.poll(Some((held, false)));
    assert!(a.connected && a.jump && a.jump_pressed && a.slot_next && a.any_edge && name);
    let (b, name) = pads.poll(Some((held, true)));
    assert!(b.jump && !b.jump_pressed && !b.slot_next && !b.any_edge && b.stick_active && !name);
    let (c, _) = pads.poll(None);
    assert!(!c.connected && !c.jump);
    assert!(pads.poll(Some((held, false))).0.jump_pressed);
    let start = Digital { start: true, ..Digital::default() };
    let p = snapshot(&start, &Digital::default(), false);
    assert!(p.start && !p.any_edge);
}

#[test]
fn keys_map_and_stay_held() {
    assert_eq!(map_key(KeyCode::KeyW), Some(Key::Forward));
    assert_eq!(map_key(KeyCode::Digit(9)), Some(Key::Slot(8)));
    assert_eq!(map_key(KeyCode::Digit(0)), None);
    assert_eq!(map_key(KeyCode::Other(5)), None);
    let mut i = Input::new();
    i.press(KeyCode::KeyW);
    i.press(KeyCode::KeyW);
    i.press(KeyCode::KeyD);
    assert!(i.held(KeyCode::KeyW) && !i.held(KeyCode::KeyS));
    assert_eq!(i.axis(KeyCode::KeyW, KeyCode::KeyS), 1);
    i.press(KeyCode::KeyS);
    assert_eq!(i.axis(KeyCode::KeyW, KeyCode::KeyS), 0);
    i.release(KeyCode::KeyW);
    assert_eq!(i.axis(KeyCode::KeyW, KeyCode::KeyS), -1);
    i.release_all();
    assert!(!i.held(KeyCode::KeyD));
}

/// Full stops between f/1.4 and f/22.
const STOPS: [f32; 9] = [1.4, 2.0, 2.8, 4.0, 5.6, 8.0, 11.0, 16.0, 22.0];

#[test]
fn lens_controls_stay_in_range() {
    let stop = |f: f32, dir| STOPS[next_stop(STOPS.iter().position(|s| *s == f).unwrap(), dir)];
    assert_eq!(stop(2.8, 1), 4.0);
    assert_eq!(stop(22.0, 1), 22.0);
    assert_eq!(stop(1.4, -1), 1.4);
    let mut p = PhotoMode::default();
    assert_eq!(STOPS[p.stop], 2.8);
    assert!(p.key(KeyCode::KeyQ, true).0);
    assert!(!p.key(KeyCode::Other(1), true).0);
}

#[test]
fn photo_mode_takes_the_keys_and_gives_the_clock_back() {
    let mut a = App::new(Preset::UltraRealistic, None);
    a.set_grab(true, true);
    assert_eq!(a.key(KeyCode::KeyW, true, false), (Told::Down(Key::Forward), Effect::Nothing));
    assert_eq!(a.key(KeyCode::KeyP, true, false), (Told::Down(Key::Photo), Effect::ReleaseAll));
    assert!(a.photo.active && a.clock_paused);
    assert_eq!(a.key(KeyCode::KeyW, true, false), (Told::Nothing, Effect::Nothing));
    assert!(a.photo.held.forward);
    assert_eq!(a.key(KeyCode::KeyE, true, false).1, Effect::Step(Lens::Focus(1)));
    a.key(KeyCode::KeyX, true, false);
    a.key(KeyCode::KeyG, true, false);
    a.key(KeyCode::Enter, true, false);
    a.key(KeyCode::F3, true, false);
    assert!(a.photo.stop == 3 && !a.photo.depth_of_field && a.photo.capture_requested);
    assert!(!a.show_profiler);
    match a.frame_draw(Surface::Usable) {
        Drawn::Draw(d) => assert!(d.capture && d.lens && d.status && !d.profiler && !d.screenshot),
        other => panic!("{other:?}"),
    }
    assert!(!a.photo.capture_requested);
    a.key(KeyCode::KeyP, true, false);
    assert!(!a.photo.active && !a.clock_paused);
}

#[test]
fn other_keys_change_the_window() {
    let mut a = App::new(Preset::UltraRealistic, Some(2));
    assert_eq!(a.key(KeyCode::KeyW, true, false), (Told::Nothing, Effect::Nothing));
    assert_eq!(a.mouse(Some(Button::Primary), true), Clicked::Grab);
    a.set_grab(true, true);
    assert_eq!(a.mouse(Some(Button::Primary), true), Clicked::Down(Button::Primary));
    assert_eq!(a.mouse(None, false), Clicked::Nothing);
    assert_eq!(a.key(KeyCode::Escape, true, false).1, Effect::LetGo);
    assert!(a.set_grab(false, false));
    assert_eq!(a.key(KeyCode::Escape, true, false).1, Effect::Exit);
    assert_eq!(a.key(KeyCode::KeyW, false, false).0, Told::Up(Key::Forward));
    a.key(KeyCode::F4, true, false);
    a.key(KeyCode::F4, true, true);
    assert_eq!(a.debug_mode, 1);
    assert_eq!(a.key(KeyCode::F6, true, false).1, Effect::SetQuality);
    assert_eq!(a.quality, Preset::SuperUltraCrazyDuperRealistic);
    assert_eq!(a.key(KeyCode::KeyV, true, false).1, Effect::Reconfigure);
    assert_eq!(a.key(KeyCode::BracketLeft, true, false).1, Effect::StepClock(-1));
    a.key(KeyCode::F2, true, false);
    assert_eq!(a.frame_draw(Surface::Outdated), Drawn::Reconfigure);
    assert_eq!(a.frame_draw(Surface::Unavailable), Drawn::Nothing);
    assert!(a.screenshot_requested);
    a.frame_draw(Surface::Usable);
    assert!(!a.screenshot_requested);
    assert_eq!(a.frame_start(Load::Ready), Start::Go { spawn: true, photo: false });
    assert_eq!(a.frame_start(Load::Failed), Start::Fail);
    assert_eq!(a.frame_start(Load::Pending), Start::Exit);
}

#[test]
fn sound_files_have_a_header_and_their_samples() {
    let f = wav(&vec![1, -1, 300, -32768]);
    assert_eq!(f.len(), 44 + 8);
    assert_eq!(&f[0..4], b"RIFF");
    assert_eq!(f[4..8], 44u32.to_le_bytes());
    assert_eq!(&f[8..16], b"WAVEfmt ");
    assert_eq!(f[24..28], RATE.to_le_bytes());
    assert_eq!(f[28..32], (RATE * 4).to_le_bytes());
    assert_eq!(&f[36..40], b"data");
    assert_eq!(f[40..44], 8u32.to_le_bytes());
    assert_eq!(f[44..46], 1i16.to_le_bytes());
    assert_eq!(f[46..48], (-1i16).to_le_bytes());
    assert_eq!(f[50..52], (-32768i16).to_le_bytes());
}

#[test]
fn half_floats_widen_exactly() {
    for (h, x) in [
        (0x0000u16, 0.0f32),
        (0x8000, -0.0),
        (0x3c00, 1.0),
        (0xc000, -2.0),
        (0x7bff, 65504.0),
        (0x0400, 6.103515625e-5),
        (0x0001, 5.9604645e-8),
        (0x03ff, 6.0975552e-5),
        (0x8200, -3.0517578e-5),
        (0x7c00, f32::INFINITY),
        (0xfc00, f32::NEG_INFINITY),
    ] {
        assert_eq!(half(h), x.to_bits(), "{h:#x}");
    }
    assert_eq!(half(0x7e00), f32::INFINITY.to_bits());
    assert_eq!(percentile(200, 95), Some(190));
    assert_eq!(percentile(0, 95), None);
    assert_eq!((quiet_after(4, true, 0), quiet_after(4, true, 1), quiet_after(4, false, 0)), (5, 0, 0));
}

#[test]
fn rings_are_walked_row_by_row() {
    assert_eq!(ring_cells(5, 0), vec![(5, 5)]);
    let r = ring_cells(5, 1);
    assert_eq!(r, vec![(4, 4), (5, 4), (6, 4), (4, 5), (6, 5), (4, 6), (5, 6), (6, 6)]);
    assert_eq!(ring_cells(0, 3).len(), 24);
}

#[test]
fn roofs_keep_the_rain_off() {
    let mut w = VoxelWorld::new();
    let eye = v(100, 60, 100);
    assert!(!covered(&w, eye));
    w.set_voxel(v(100, 60 + 80, 100), m(ids::PLANKS));
    assert!(covered(&w, eye));
    let k = |x: f32| x.to_bits() as i32;
    assert_eq!(falling(k(0.5), k(100.0), false), Falling { rain: true, snow: false, wet: true });
    assert_eq!(falling(k(0.3), k(100.0), false), Falling { rain: false, snow: true, wet: false });
    assert_eq!(falling(k(0.5), k(400.0), true), Falling { rain: false, snow: false, wet: false });
}

fn stage() -> Stage {
    Stage {
        floor: v(100, 50, 100),
        pool: v(-2, 0, 7),
        ground: 49,
        panes: vec![(-1, 5), (17, 5), (33, 5), (49, 5), (65, 5), (81, 5)],
        behind: vec![(0, 40), (17, 40), (33, 40), (49, 40), (65, 40), (81, 40)],
        tower: v(20, 3, 20),
        tank: v(10, 0, 10),
        tank_floor: 50,
        near: (0..81).map(|n| n / 9 == 0).collect(),
    }
}

#[test]
fn scripts_do_what_their_demos_say() {
    let s = Some(stage());
    let lights = run(Demo::Lights, &None);
    assert_eq!(lights[0], Act::Tick(60));
    assert_eq!(lights.iter().filter(|a| **a == Act::Press(Button::Secondary)).count(), 6);
    let mirror = run(Demo::Mirror, &s);
    assert_eq!(
        mirror[2],
        Act::Fill { lo: v(52, 47, 84), hi: v(83, 50, 115), m: m(ids::STEEL) }
    );
    assert_eq!(run(Demo::Mirror, &None).len(), 3);
    let fills = |d| {
        run(d, &s).iter().filter(|a| matches!(a, Act::Fill { .. })).count()
    };
    assert_eq!(fills(Demo::Glass), 24 * 3 + 6 * 5);
    assert_eq!(fills(Demo::Flood), 81);
    assert_eq!(fills(Demo::Collapse), 2);
    let glass = run(Demo::Glass, &s);
    // The pane whose column is just left of the origin stands in block -1.
    assert!(glass.contains(&Act::Fill { lo: v(-16, 50, 0), hi: v(-1, 65, 15), m: m(ids::GLASS) }));
    let flood = run(Demo::Flood, &s);
    assert!(flood.contains(&Act::Fill { lo: v(96, 50, 96), hi: v(111, 113, 111), m: m(ids::AIR) }));
    assert!(flood.contains(&Act::Pour { lo: v(112, 50, 112), hi: v(223, 97, 223) }));
    let tower = run(Demo::Collapse, &s);
    assert!(tower.contains(&Act::Built { lo: v(304, 48, 304), hi: v(351, 271, 351) }));
    assert_eq!(run(Demo::Collapse, &None).len(), 1);
    let craft = run(Demo::Craft, &None);
    assert!(craft.contains(&Act::Make(Item::Block(BlockKind::Furnace), 1)));
    for d in [Demo::Build, Demo::Blast, Demo::Shore, Demo::Wildfire, Demo::Lightning] {
        let acts = run(d, &s);
        let count = |a: Act| acts.iter().filter(|b| **b == a).count();
        for b in [Button::Primary, Button::Secondary] {
            assert_eq!(count(Act::Press(b)), count(Act::Release(b)));
        }
    }
    assert_eq!(*run(Demo::Workshop, &None).last().unwrap(), Act::Tick(9));
}

#[test]
fn trenches_stop_past_the_water() {
    let mut last = None;
    let mut dug_to = 0;
    for step in 2..120 {
        let (dig, l) = trench_step(step, last, step >= 30);
        last = l;
        if !dig {
            break;
        }
        dug_to = step;
    }
    assert_eq!(dug_to, 34);
    let (lo, hi, probe) = trench_box(v(50, 0, 80), v(30, 0, 90), 1516, 1600, 1536);
    assert_eq!((lo, hi), (v(30, 1516, 80), v(57, 1607, 97)));
    assert_eq!(probe, v(43, 1528, 88));
    let (lo, hi, probe) = trench_box(v(-50, 0, -80), v(-30, 0, -90), 1516, 1600, 1536);
    assert_eq!((lo, hi), (v(-50, 1516, -90), v(-23, 1607, -73)));
    assert_eq!(probe, v(-36, 1528, -81));
    assert_eq!(dug(m(ids::WATER)), m(ids::WATER));
    assert_eq!(dug(m(ids::SAND)), m(ids::AIR));
    assert_eq!(nearest_tree(&vec![(5, 5), (-3, 4), (4, 3), (9, 0)]), Some(1));
    assert_eq!(nearest_tree(&vec![]), None);
    assert!(keep_waiting(1, 2, 599, 600) && !keep_waiting(1, 2, 600, 600));
    assert!(!keep_waiting(2, 2, 0, 600));
}

#[test]
fn demos_have_names() {
    assert_eq!(Demo::parse("wildfire"), Some(Demo::Wildfire));
    assert_eq!(Demo::parse("Wildfire"), None);
}

#[test]
fn play_and_lens_flags_are_read() {
    let a = p("--dof 12,2.8 --creative --hide-bodies --physics-thread").ok().unwrap();
    assert_eq!(a.dof, Some(1));
    assert!(a.creative && a.hide_bodies && a.physics_thread && !a.hud);
    let b = p("").ok().unwrap();
    assert_eq!(b.dof, None);
    assert!(!b.creative && !b.hide_bodies && !b.physics_thread);
}

#[test]
fn the_inventory_opens_and_closes() {
    let mut a = App::new(Preset::UltraRealistic, None);
    a.set_grab(true, true);
    let before = a;
    assert_eq!(a.key(KeyCode::KeyI, true, false), (Told::Nothing, Effect::OpenInventory));
    assert_eq!(a.key(KeyCode::Digit(3), true, false), (Told::Nothing, Effect::Swap(2)));
    assert_eq!(a.key(KeyCode::KeyW, true, false), (Told::Nothing, Effect::Nothing));
    assert_eq!(a.mouse(Some(Button::Secondary), true), Clicked::Slot(Button::Secondary));
    assert_eq!(a.key(KeyCode::KeyI, true, false).1, Effect::CloseInventory);
    assert_eq!(a, before);
    a.key(KeyCode::KeyI, true, false);
    assert_eq!(a.key(KeyCode::Escape, true, false).1, Effect::CloseInventory);
    assert_eq!(a, before);
    assert_eq!(a.key(KeyCode::Escape, true, false).1, Effect::LetGo);
}

fn every_voxel() -> Vec<IVec3> {
    (0..32 * 32 * 32).map(|i| v(i % 32, i / 32 % 32, i / 1024)).collect()
}

fn order(x: f32) -> i32 {
    let b = x.to_bits();
    if b >> 31 == 0 {
        b as i32
    } else {
        -((b & 0x7fff_ffff) as i32)
    }
}

fn unit(n: u32) -> f32 {
    n as f32 / (1u32 << 24) as f32
}

#[test]
fn sticks_and_ingots_fill_what_their_outlines_do() {
    let (mut sticks, mut ingots) = (0, 0);
    for p in every_voxel() {
        let (x, y, z) = (p.x as f32 + 0.5, p.y as f32 + 0.5, p.z as f32 + 0.5);
        let t = (((x - 7.0) * 18.0 + (y - 7.0) * 18.0) / 648.0).clamp(0.0, 1.0);
        let (dx, dy) = (x - (7.0 + 18.0 * t), y - (7.0 + 18.0 * t));
        let near = (dx * dx + dy * dy).sqrt() < 1.9 && (z - 16.0).abs() < 1.9;
        let knot = hash24((t * 12.0) as i32, 0, 0, 32);
        assert_eq!(stick(p), near.then_some(knot), "{p:?}");
        sticks += i32::from(near);

        let shrink = (p.y - 9) as f32 * 0.6;
        let inside = (9..16).contains(&p.y)
            && x > 5.0 + shrink
            && x < 27.0 - shrink
            && z > 10.0 + shrink * 0.8
            && z < 22.0 - shrink * 0.8;
        assert_eq!(ingot(p).is_some(), inside, "{p:?}");
        ingots += i32::from(inside);
    }
    assert!(sticks > 300 && ingots > 1000);
}

#[test]
fn pails_fill_what_their_outlines_do() {
    let mut parts = [0; 4];
    for p in every_voxel() {
        let (x, y, z) = (p.x as f32 + 0.5 - 16.0, p.y as f32 + 0.5, p.z as f32 + 0.5 - 16.0);
        let r = (x * x + z * z).sqrt();
        let arc = (x * x + (y - 21.0) * (y - 21.0)).sqrt();
        let radius = 7.0 + 2.2 * (y - 5.0) / (21.0 - 5.0);
        let part = if y > 21.0 && (arc - 9.2).abs() < 0.8 && z.abs() < 0.8 {
            Some(Pail::Handle)
        } else if !(5.0..=21.0).contains(&y) || r > radius {
            None
        } else if r > radius - 1.4 || y < 6.0 {
            let hoop = (y - 9.0).abs() < 0.7 || (y - 16.0).abs() < 0.7 || y > 20.0;
            Some(Pail::Wall { hoop, draw: hash24(p.x, p.y, p.z, 40) })
        } else if y < 19.5 {
            Some(Pail::Water { glint: unit(hash24(p.x, p.y, p.z, 41)) > 0.93 })
        } else {
            None
        };
        assert_eq!(bucket(p, true), part, "{p:?}");
        let dry = if matches!(part, Some(Pail::Water { .. })) { None } else { part };
        assert_eq!(bucket(p, false), dry, "{p:?}");
        parts[match part {
            Some(Pail::Handle) => 0,
            Some(Pail::Wall { .. }) => 1,
            Some(Pail::Water { .. }) => 2,
            None => 3,
        }] += 1;
        assert_eq!(spotted(p), unit(hash24(p.x / 3, p.y / 3, p.z / 3, 38)) > 0.68);
        let g = unit(hash24(p.x, p.y, p.z, 36));
        assert_eq!(grain(p), if g > 0.9 { 500 } else if g < 0.2 { 30 } else { 120 });
    }
    assert!(parts.iter().all(|n| *n > 20));
}

#[test]
fn tools_have_a_head_a_grip_and_a_handle() {
    let probe = |s: f32, t: f32, depth: f32, line: f32, fits: bool, wrapped: bool| Probe {
        s: order(s),
        t: order(t),
        depth: order(depth),
        line: order(line),
        fits,
        wrapped,
    };
    let (axe, shovel, pick) = (ToolKind::Axe, ToolKind::Shovel, ToolKind::Pickaxe);
    let head = |edge| Some(ToolPart::Head { edge });
    assert_eq!(tool_part(axe, &probe(-8.0, 0.5, 2.3, 9.0, true, false)), head(false));
    assert_eq!(tool_part(axe, &probe(0.0, 9.5, 1.3, 9.0, true, false)), head(true));
    assert_eq!(tool_part(axe, &probe(0.0, 9.5, 1.4, 9.0, true, false)), None);
    assert_eq!(tool_part(axe, &probe(-2.0, -3.0, 1.0, 9.0, false, false)), head(false));
    assert_eq!(tool_part(shovel, &probe(11.0, 0.0, 1.4, 9.0, true, false)), head(true));
    assert_eq!(tool_part(shovel, &probe(-1.0, -2.0, 2.1, 9.0, false, false)), head(false));
    assert_eq!(tool_part(shovel, &probe(-1.0, -2.1, 2.1, 9.0, false, false)), None);
    assert_eq!(tool_part(pick, &probe(0.0, 0.0, 2.9, 9.0, true, false)), head(false));
    let shaft = |wrapped| tool_part(pick, &probe(-9.0, 0.0, 1.6, 1.6, false, wrapped));
    assert_eq!(shaft(true), Some(ToolPart::Grip));
    assert_eq!(shaft(false), Some(ToolPart::Handle));
}

#[test]
fn items_have_their_models() {
    assert_eq!(item_model(Item::GoldIngot), Figure::Ingot(Rgb { r: 950, g: 720, b: 200 }));
    let f = item_model(Item::Tool(ToolKind::Axe, Tier::Iron));
    assert_eq!(f, Figure::Tool(ToolKind::Axe, Tier::Iron));
    assert_eq!((f.voxels(), f.view(), f.whole()), (32, View::Flat, false));
    let b = item_model(Item::Block(BlockKind::Furnace));
    assert_eq!((b.voxels(), b.view(), b.whole()), (16, View::Iso, true));
    assert!(!item_model(Item::Block(BlockKind::Torch)).whole());
    let coal = item_model(Item::Coal);
    assert!(matches!(coal, Figure::Lump { stretch, look: Look::Metal, .. } if stretch == v(10, 10, 10)));
    assert_eq!(tier_paint(Tier::Wood), (None, Look::Matte));
    assert_eq!(tier_paint(Tier::Steel), (Some(Rgb { r: 460, g: 530, b: 640 }), Look::Metal));
}
