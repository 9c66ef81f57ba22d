//! The window's state: what keys, mouse buttons and frames make of it, and
//! what they ask of the rest of the program.

use crate::cli::Preset;
use crate::input::{map_key, mapped, Button, Key, KeyCode};
use vstd::prelude::*;

verus! {

/// Lens settings that step.
#[derive(Clone, Copy, Debug, PartialEq, Eq, Structural)]
pub enum Lens {
    Focus(i32),
    Exposure(i32),
}

/// Full stops between f/1.4 and f/22.
pub const STOPS: usize = 9;

/// Which ways the photographer is moving.
#[derive(Clone, Copy, Debug, PartialEq, Eq, Structural)]
pub struct Held {
    pub forward: bool,
    pub back: bool,
    pub left: bool,
    pub right: bool,
    pub up: bool,
    pub down: bool,
}

pub open spec fn still() -> Held {
    Held { forward: false, back: false, left: false, right: false, up: false, down: false }
}

impl Default for Held {
    fn default() -> (h: Held)
        ensures
            h == still(),
    {
        Held { forward: false, back: false, left: false, right: false, up: false, down: false }
    }
}

/// Photo mode: time stops, the camera detaches and flies freely, and the lens
/// is adjustable.
#[derive(Clone, Copy, Debug, PartialEq, Eq, Structural)]
pub struct PhotoMode {
    pub active: bool,
    /// Which full stop the aperture is at.
    pub stop: usize,
    pub depth_of_field: bool,
    /// Held movement keys.
    pub held: Held,
    pub clock_was_paused: bool,
    pub capture_requested: bool,
}

/// The full stop `dir` steps from `i`, kept in range.
pub open spec fn stop_after(i: int, dir: int) -> int {
    if i + dir < 0 {
        0
    } else if i + dir > 8 {
        8
    } else {
        i + dir
    }
}

pub fn next_stop(i: usize, dir: i32) -> (r: usize)
    requires
        i < STOPS,
    ensures
        r == stop_after(i as int, dir as int),
        r < STOPS,
{
    let j: i64 = i as i64 + dir as i64;
    if j < 0 {
        0
    } else if j > 8 {
        8
    } else {
        j as usize
    }
}

/// What is held after a movement key; none for any other key.
pub open spec fn moved(h: Held, code: KeyCode, pressed: bool) -> Option<Held> {
    match code {
        KeyCode::KeyW => Some(Held { forward: pressed, ..h }),
        KeyCode::KeyS => Some(Held { back: pressed, ..h }),
        KeyCode::KeyA => Some(Held { left: pressed, ..h }),
        KeyCode::KeyD => Some(Held { right: pressed, ..h }),
        KeyCode::Space => Some(Held { up: pressed, ..h }),
        KeyCode::ControlLeft | KeyCode::KeyC => Some(Held { down: pressed, ..h }),
        _ => None,
    }
}

fn move_by(h: Held, code: KeyCode, pressed: bool) -> (r: Option<Held>)
    ensures
        r == moved(h, code, pressed),
{
    match code {
        KeyCode::KeyW => Some(Held { forward: pressed, ..h }),
        KeyCode::KeyS => Some(Held { back: pressed, ..h }),
        KeyCode::KeyA => Some(Held { left: pressed, ..h }),
        KeyCode::KeyD => Some(Held { right: pressed, ..h }),
        KeyCode::Space => Some(Held { up: pressed, ..h }),
        KeyCode::ControlLeft | KeyCode::KeyC => Some(Held { down: pressed, ..h }),
        _ => None,
    }
}

/// What a lens key steps.
pub open spec fn lens_key(code: KeyCode) -> Option<Lens> {
    match code {
        KeyCode::KeyQ => Some(Lens::Focus(-1i32)),
        KeyCode::KeyE => Some(Lens::Focus(1)),
        KeyCode::Comma => Some(Lens::Exposure(-1i32)),
        KeyCode::Period => Some(Lens::Exposure(1)),
        _ => None,
    }
}

/// Keys that photo mode takes when they go down.
pub open spec fn photo_key(code: KeyCode) -> bool {
    ||| lens_key(code) is Some
    ||| code is KeyZ
    ||| code is KeyX
    ||| code is KeyG
    ||| code is Enter
    ||| code is F2
}

impl Default for PhotoMode {
    fn default() -> (p: PhotoMode)
        ensures
            p == fresh_photo(),
    {
        PhotoMode {
            active: false,
            stop: 2,
            depth_of_field: true,
            held: Held::default(),
            clock_was_paused: false,
            capture_requested: false,
        }
    }
}

/// Photo mode as it starts: f/2.8, depth of field on.
pub open spec fn fresh_photo() -> PhotoMode {
    PhotoMode {
        active: false,
        stop: 2,
        depth_of_field: true,
        held: still(),
        clock_was_paused: false,
        capture_requested: false,
    }
}

/// Photo mode after a key.
pub open spec fn photo_after(p: PhotoMode, code: KeyCode, pressed: bool, q: PhotoMode) -> bool {
    &&& q.active == p.active
    &&& q.clock_was_paused == p.clock_was_paused
    &&& q.held == match moved(p.held, code, pressed) {
        Some(h) => h,
        None => p.held,
    }
    &&& q.stop == (if pressed && code is KeyZ {
        stop_after(p.stop as int, -1)
    } else if pressed && code is KeyX {
        stop_after(p.stop as int, 1)
    } else {
        p.stop as int
    })
    &&& q.depth_of_field == (if pressed && code is KeyG {
        !p.depth_of_field
    } else {
        p.depth_of_field
    })
    &&& q.capture_requested == (p.capture_requested || pressed && (code is Enter || code is F2))
}

impl PhotoMode {
    pub open spec fn wf(self) -> bool {
        self.stop < STOPS
    }

    /// Enters photo mode.
    pub fn enter(&mut self, clock_paused: bool)
        ensures
            *final(self) == (PhotoMode {
                active: true,
                clock_was_paused: clock_paused,
                held: still(),
                ..*old(self)
            }),
    {
        self.active = true;
        self.clock_was_paused = clock_paused;
        self.held = Held::default();
    }

    /// Leaves photo mode; returns the clock pause state to restore.
    pub fn exit(&mut self) -> (paused: bool)
        ensures
            *final(self) == (PhotoMode { active: false, ..*old(self) }),
            paused == old(self).clock_was_paused,
    {
        self.active = false;
        self.clock_was_paused
    }

    /// Handles a key while active; returns whether it was consumed, and what
    /// of the lens it steps.
    pub fn key(&mut self, code: KeyCode, pressed: bool) -> (r: (bool, Option<Lens>))
        requires
            old(self).wf(),
        ensures
            final(self).wf(),
            photo_after(*old(self), code, pressed, *final(self)),
            r.0 == (moved(old(self).held, code, pressed) is Some || pressed && photo_key(code)),
            r.1 == (if pressed {
                lens_key(code)
            } else {
                None
            }),
    {
        if let Some(h) = move_by(self.held, code, pressed) {
            self.held = h;
            return (true, None);
        }
        if !pressed {
            return (false, None);
        }
        match code {
            KeyCode::KeyQ => (true, Some(Lens::Focus(-1i32))),
            KeyCode::KeyE => (true, Some(Lens::Focus(1))),
            KeyCode::Comma => (true, Some(Lens::Exposure(-1i32))),
            KeyCode::Period => (true, Some(Lens::Exposure(1))),
            KeyCode::KeyZ => {
                self.stop = next_stop(self.stop, -1);
                (true, None)
            },
            KeyCode::KeyX => {
                self.stop = next_stop(self.stop, 1);
                (true, None)
            },
            KeyCode::KeyG => {
                self.depth_of_field = !self.depth_of_field;
                (true, None)
            },
            KeyCode::Enter | KeyCode::F2 => {
                self.capture_requested = true;
                (true, None)
            },
            _ => (false, None),
        }
    }

    /// Whether a capture was asked for since this was last asked.
    pub fn take_capture_request(&mut self) -> (b: bool)
        ensures
            b == old(self).capture_requested,
            *final(self) == (PhotoMode { capture_requested: false, ..*old(self) }),
    {
        let b: bool = self.capture_requested;
        self.capture_requested = false;
        b
    }
}

/// Tiers in turn.
pub open spec fn tier_after(q: Preset) -> Preset {
    match q {
        Preset::Realistic => Preset::HyperRealistic,
        Preset::HyperRealistic => Preset::UltraRealistic,
        Preset::UltraRealistic => Preset::SuperUltraCrazyDuperRealistic,
        Preset::SuperUltraCrazyDuperRealistic => Preset::Realistic,
    }
}

fn next_tier(q: Preset) -> (r: Preset)
    ensures
        r == tier_after(q),
{
    match q {
        Preset::Realistic => Preset::HyperRealistic,
        Preset::HyperRealistic => Preset::UltraRealistic,
        Preset::UltraRealistic => Preset::SuperUltraCrazyDuperRealistic,
        Preset::SuperUltraCrazyDuperRealistic => Preset::Realistic,
    }
}

/// The window, but for what draws it.
#[derive(Clone, Copy, Debug, PartialEq, Eq, Structural)]
pub struct App {
    pub grabbed: bool,
    pub show_profiler: bool,
    pub vsync: bool,
    pub debug_mode: u32,
    pub quality: Preset,
    pub photo: PhotoMode,
    pub clock_paused: bool,
    /// The inventory screen is open, and the cursor free.
    pub inventory: bool,
    pub screenshot_requested: bool,
    pub exit_after: Option<u32>,
    pub frames: u32,
}

/// What a key asks for beyond the window's own state.
#[derive(Clone, Copy, Debug, PartialEq, Eq, Structural)]
pub enum Effect {
    Nothing,
    /// The cursor is let go.
    LetGo,
    Exit,
    SetQuality,
    Reconfigure,
    /// All keys of the game are released.
    ReleaseAll,
    /// The clock steps through so many hours.
    StepClock(i32),
    /// A lens setting steps.
    Step(Lens),
    OpenInventory,
    CloseInventory,
    /// The slot under the cursor changes places with a hotbar slot.
    Swap(u8),
}

/// A key of the game goes down or up.
#[derive(Clone, Copy, Debug, PartialEq, Eq, Structural)]
pub enum Told {
    Nothing,
    Down(Key),
    Up(Key),
}

/// Photo mode swallows a key.
pub open spec fn swallowed(a: App, code: KeyCode) -> bool {
    a.photo.active && !(code is KeyP) && !(code is Escape)
}

/// What a key that goes down asks for.
pub open spec fn asked(a: App, code: KeyCode) -> Effect {
    match code {
        KeyCode::Escape => if a.inventory {
            Effect::CloseInventory
        } else if a.grabbed {
            Effect::LetGo
        } else {
            Effect::Exit
        },
        KeyCode::KeyI => if a.inventory {
            Effect::CloseInventory
        } else {
            Effect::OpenInventory
        },
        KeyCode::Digit(n) => if a.inventory && 1 <= n <= 9 {
            Effect::Swap((n - 1) as u8)
        } else {
            Effect::Nothing
        },
        KeyCode::KeyP => if a.photo.active {
            Effect::Nothing
        } else {
            Effect::ReleaseAll
        },
        KeyCode::F6 => Effect::SetQuality,
        KeyCode::KeyV => Effect::Reconfigure,
        KeyCode::BracketLeft => Effect::StepClock(-1i32),
        KeyCode::BracketRight => Effect::StepClock(1),
        _ => Effect::Nothing,
    }
}

/// The window after a key goes down, outside photo mode or to leave it.
pub open spec fn pressed_after(a: App, code: KeyCode, b: App) -> bool {
    match code {
        KeyCode::Escape => b == (App { inventory: false, ..a }),
        KeyCode::KeyI => b == (App { inventory: !a.inventory, ..a }),
        KeyCode::F2 => b == (App { screenshot_requested: true, ..a }),
        KeyCode::F3 => b == (App { show_profiler: !a.show_profiler, ..a }),
        KeyCode::KeyP => if a.photo.active {
            b == (App {
                photo: PhotoMode { active: false, ..a.photo },
                clock_paused: a.photo.clock_was_paused,
                ..a
            })
        } else {
            b == (App {
                photo: PhotoMode {
                    active: true,
                    clock_was_paused: a.clock_paused,
                    held: still(),
                    ..a.photo
                },
                clock_paused: true,
                ..a
            })
        },
        KeyCode::F4 => b == (App { debug_mode: ((a.debug_mode as int + 1) % 4) as u32, ..a }),
        KeyCode::F6 => b == (App { quality: tier_after(a.quality), ..a }),
        KeyCode::KeyV => b == (App { vsync: !a.vsync, ..a }),
        KeyCode::KeyT => b == (App { clock_paused: !a.clock_paused, ..a }),
        _ => b == a,
    }
}

/// What becomes of a key: while photo mode is active it takes every key but
/// those that leave it, and lets only the one that shows the profiler
/// through.
pub open spec fn keyed(
    a: App,
    code: KeyCode,
    pressed: bool,
    repeat: bool,
    b: App,
    told: Told,
    effect: Effect,
) -> bool {
    if swallowed(a, code) && !(code is F3) {
        &&& told is Nothing
        &&& if repeat {
            b == a && effect is Nothing
        } else {
            &&& photo_after(a.photo, code, pressed, b.photo)
            &&& b == (App { photo: b.photo, ..a })
            &&& effect == match lens_key(code) {
                Some(l) => if pressed {
                    Effect::Step(l)
                } else {
                    Effect::Nothing
                },
                None => Effect::Nothing,
            }
        }
    } else if !pressed {
        &&& b == a
        &&& effect is Nothing
        &&& told == match mapped(code) {
            Some(k) => Told::Up(k),
            None => Told::Nothing,
        }
    } else if repeat {
        b == a && effect is Nothing && told is Nothing
    } else {
        &&& pressed_after(a, code, b)
        &&& effect == asked(a, code)
        &&& told == match mapped(code) {
            Some(k) => if a.grabbed && !a.inventory {
                Told::Down(k)
            } else {
                Told::Nothing
            },
            None => Told::Nothing,
        }
    }
}

/// What a mouse button does.
#[derive(Clone, Copy, Debug, PartialEq, Eq, Structural)]
pub enum Clicked {
    Nothing,
    /// The cursor is grabbed.
    Grab,
    Down(Button),
    Up(Button),
    /// A click on the inventory screen.
    Slot(Button),
}

/// How terrain loading stands.
#[derive(Clone, Copy, Debug, PartialEq, Eq, Structural)]
pub enum Load {
    Pending,
    Ready,
    Failed,
}

/// How a frame starts.
#[derive(Clone, Copy, Debug, PartialEq, Eq, Structural)]
pub enum Start {
    Exit,
    /// Loading failed: say so and exit.
    Fail,
    /// The world or, in photo mode, only the photographer moves; first the
    /// player arrives if the terrain has.
    Go { spawn: bool, photo: bool },
}

/// What the window has to draw on.
#[derive(Clone, Copy, Debug, PartialEq, Eq, Structural)]
pub enum Surface {
    Usable,
    Outdated,
    Unavailable,
}

/// What a frame draws.
#[derive(Clone, Copy, Debug, PartialEq, Eq, Structural)]
pub struct Drawing {
    /// The lens applies; else there is none and the exposure is plain.
    pub lens: bool,
    pub capture: bool,
    pub screenshot: bool,
    /// The photo status in place of the game's overlay.
    pub status: bool,
    pub profiler: bool,
}

#[derive(Clone, Copy, Debug, PartialEq, Eq, Structural)]
pub enum Drawn {
    Nothing,
    Reconfigure,
    Draw(Drawing),
}

impl App {
    pub fn new(quality: Preset, exit_after: Option<u32>) -> (a: App)
        ensures
            a == (App {
                grabbed: false,
                show_profiler: true,
                vsync: true,
                debug_mode: 0,
                quality,
                photo: fresh_photo(),
                clock_paused: false,
                inventory: false,
                screenshot_requested: false,
                exit_after,
                frames: 0,
            }),
    {
        App {
            grabbed: false,
            show_profiler: true,
            vsync: true,
            debug_mode: 0,
            quality,
            photo: PhotoMode::default(),
            clock_paused: false,
            inventory: false,
            screenshot_requested: false,
            exit_after,
            frames: 0,
        }
    }

    /// A key goes down, outside photo mode or to leave it.
    fn press(&mut self, code: KeyCode) -> (effect: Effect)
        ensures
            pressed_after(*old(self), code, *final(self)),
            effect == asked(*old(self), code),
    {
        match code {
            KeyCode::Escape => if self.inventory {
                self.inventory = false;
                Effect::CloseInventory
            } else if self.grabbed {
                Effect::LetGo
            } else {
                Effect::Exit
            },
            KeyCode::KeyI => {
                self.inventory = !self.inventory;
                if self.inventory {
                    Effect::OpenInventory
                } else {
                    Effect::CloseInventory
                }
            },
            KeyCode::Digit(n) => if self.inventory && 1 <= n && n <= 9 {
                Effect::Swap(n - 1)
            } else {
                Effect::Nothing
            },
            KeyCode::F2 => {
                self.screenshot_requested = true;
                Effect::Nothing
            },
            KeyCode::F3 => {
                self.show_profiler = !self.show_profiler;
                Effect::Nothing
            },
            KeyCode::KeyP => {
                if self.photo.active {
                    self.clock_paused = self.photo.exit();
                    Effect::Nothing
                } else {
                    let paused: bool = self.clock_paused;
                    self.photo.enter(paused);
                    self.clock_paused = true;
                    Effect::ReleaseAll
                }
            },
            KeyCode::F4 => {
                self.debug_mode = (self.debug_mode % 4 + 1) % 4;
                Effect::Nothing
            },
            KeyCode::F6 => {
                self.quality = next_tier(self.quality);
                Effect::SetQuality
            },
            KeyCode::KeyV => {
                self.vsync = !self.vsync;
                Effect::Reconfigure
            },
            KeyCode::KeyT => {
                self.clock_paused = !self.clock_paused;
                Effect::Nothing
            },
            KeyCode::BracketLeft => Effect::StepClock(-1i32),
            KeyCode::BracketRight => Effect::StepClock(1),
            _ => Effect::Nothing,
        }
    }

    /// Handles a key.
    pub fn key(&mut self, code: KeyCode, pressed: bool, repeat: bool) -> (r: (Told, Effect))
        requires
            old(self).photo.wf(),
        ensures
            final(self).photo.wf(),
            keyed(*old(self), code, pressed, repeat, *final(self), r.0, r.1),
    {
        if self.photo.active && code != KeyCode::KeyP && code != KeyCode::Escape {
            let mut lens: Option<Lens> = None;
            if !repeat {
                let (_taken, l): (bool, Option<Lens>) = self.photo.key(code, pressed);
                lens = l;
            }
            if code != KeyCode::F3 {
                return (
                    Told::Nothing,
                    match lens {
                        Some(l) => Effect::Step(l),
                        None => Effect::Nothing,
                    },
                );
            }
        }
        if !pressed {
            return (
                match map_key(code) {
                    Some(k) => Told::Up(k),
                    None => Told::Nothing,
                },
                Effect::Nothing,
            );
        }
        if repeat {
            return (Told::Nothing, Effect::Nothing);
        }
        let told: Told = match map_key(code) {
            Some(k) => if self.grabbed && !self.inventory {
                Told::Down(k)
            } else {
                Told::Nothing
            },
            None => Told::Nothing,
        };
        let effect: Effect = self.press(code);
        (told, effect)
    }

    /// The cursor is grabbed, if the window system lets it (`ok`), or let go;
    /// returns whether every key of the game is to be released.
    pub fn set_grab(&mut self, grab: bool, ok: bool) -> (release: bool)
        ensures
            *final(self) == (App { grabbed: grab && ok, ..*old(self) }),
            release == !grab,
    {
        self.grabbed = grab && ok;
        !grab
    }

    /// A mouse button: clicks are the inventory screen's while it is open;
    /// else the first only grabs the cursor.
    pub fn mouse(&self, button: Option<Button>, pressed: bool) -> (c: Clicked)
        ensures
            c == (if pressed && self.inventory {
                match button {
                    Some(b) => Clicked::Slot(b),
                    None => Clicked::Nothing,
                }
            } else if pressed && !self.grabbed {
                Clicked::Grab
            } else {
                match button {
                    Some(b) => if pressed {
                        Clicked::Down(b)
                    } else {
                        Clicked::Up(b)
                    },
                    None => Clicked::Nothing,
                }
            }),
            c is Slot <==> pressed && self.inventory && button is Some,
            c is Grab <==> pressed && !self.inventory && !self.grabbed,
            c is Down <==> pressed && !self.inventory && self.grabbed && button is Some,
            c is Up <==> !pressed && button is Some,
    {
        if pressed && self.inventory {
            return match button {
                Some(b) => Clicked::Slot(b),
                None => Clicked::Nothing,
            };
        }
        if pressed && !self.grabbed {
            return Clicked::Grab;
        }
        match button {
            Some(b) => if pressed {
                Clicked::Down(b)
            } else {
                Clicked::Up(b)
            },
            None => Clicked::Nothing,
        }
    }

    /// Starts a frame.
    pub fn frame_start(&mut self, load: Load) -> (s: Start)
        requires
            old(self).frames < u32::MAX,
        ensures
            *final(self) == (App { frames: (old(self).frames + 1) as u32, ..*old(self) }),
            s == (if old(self).exit_after is Some && old(self).frames + 1
                > old(self).exit_after->Some_0 {
                Start::Exit
            } else if load is Failed {
                Start::Fail
            } else {
                Start::Go { spawn: load is Ready, photo: old(self).photo.active }
            }),
            old(self).exit_after is None ==> !(s is Exit),
            old(self).exit_after matches Some(n) ==> (s is Exit <==> old(self).frames >= n),
            s is Fail ==> load is Failed,
            s matches Start::Go { spawn, photo } ==> !(load is Failed) && (spawn <==> load is Ready)
                && (photo <==> old(self).photo.active),
    {
        self.frames += 1;
        if let Some(n) = self.exit_after {
            if self.frames > n {
                return Start::Exit;
            }
        }
        match load {
            Load::Failed => Start::Fail,
            Load::Ready => Start::Go { spawn: true, photo: self.photo.active },
            Load::Pending => Start::Go { spawn: false, photo: self.photo.active },
        }
    }

    /// Draws a frame. Captures that were asked for wait for one that can be
    /// drawn.
    pub fn frame_draw(&mut self, surface: Surface) -> (d: Drawn)
        ensures
            match surface {
                Surface::Usable => {
                    &&& d == Drawn::Draw(
                        Drawing {
                            lens: old(self).photo.active,
                            capture: old(self).photo.capture_requested,
                            screenshot: old(self).screenshot_requested,
                            status: old(self).photo.active,
                            profiler: old(self).show_profiler && !old(self).photo.active,
                        },
                    )
                    &&& *final(self) == (App {
                        photo: PhotoMode { capture_requested: false, ..old(self).photo },
                        screenshot_requested: false,
                        ..*old(self)
                    })
                },
                Surface::Outdated => d is Reconfigure && *final(self) == *old(self),
                Surface::Unavailable => d is Nothing && *final(self) == *old(self),
            },
    {
        match surface {
            Surface::Usable => {},
            Surface::Outdated => {
                return Drawn::Reconfigure;
            },
            Surface::Unavailable => {
                return Drawn::Nothing;
            },
        }
        let lens: bool = self.photo.active;
        let capture: bool = self.photo.take_capture_request();
        let screenshot: bool = self.screenshot_requested;
        self.screenshot_requested = false;
        Drawn::Draw(
            Drawing {
                lens,
                capture,
                screenshot,
                status: lens,
                profiler: self.show_profiler && !lens,
            },
        )
    }
}

/// Entering photo mode and leaving it again leaves the clock as it was, and
/// everything else but the keys the photographer holds.
pub proof fn photo_mode_gives_the_clock_back(a: App, b: App, c: App)
    requires
        !a.photo.active,
        pressed_after(a, KeyCode::KeyP, b),
        pressed_after(b, KeyCode::KeyP, c),
    ensures
        b.photo.active,
        b.clock_paused,
        c.clock_paused == a.clock_paused,
        c == (App { photo: c.photo, ..a }),
        !c.photo.active,
        c.photo.stop == a.photo.stop,
        c.photo.depth_of_field == a.photo.depth_of_field,
{
}

/// While photo mode is active no key reaches the game as pressed but the one
/// that leaves it.
pub proof fn the_world_holds_still(
    a: App,
    code: KeyCode,
    pressed: bool,
    repeat: bool,
    b: App,
    told: Told,
    effect: Effect,
)
    requires
        a.photo.active,
        keyed(a, code, pressed, repeat, b, told, effect),
    ensures
        told matches Told::Down(k) ==> k is Photo,
{
}

/// Opening the inventory and closing it, by either key, leaves the window as
/// it was.
pub proof fn the_inventory_closes_as_it_opened(a: App, b: App, c: App, close: KeyCode)
    requires
        !a.inventory,
        pressed_after(a, KeyCode::KeyI, b),
        close is KeyI || close is Escape,
        pressed_after(b, close, c),
    ensures
        asked(a, KeyCode::KeyI) is OpenInventory,
        asked(b, close) is CloseInventory,
        c == a,
{
}

/// While the inventory is open no key reaches the game as pressed.
pub proof fn the_inventory_takes_the_keys(
    a: App,
    code: KeyCode,
    pressed: bool,
    repeat: bool,
    b: App,
    told: Told,
    effect: Effect,
)
    requires
        a.inventory,
        keyed(a, code, pressed, repeat, b, told, effect),
    ensures
        !(told is Down),
{
}

/// Four presses bring the debug view and the quality tier back.
pub proof fn views_and_tiers_come_round(a: App, q: Preset)
    requires
        a.debug_mode < 4,
    ensures
        (((((a.debug_mode as int + 1) % 4 + 1) % 4) + 1) % 4 + 1) % 4 == a.debug_mode,
        tier_after(tier_after(tier_after(tier_after(q)))) == q,
{
}

/// The aperture steps by one full stop between the first and the ninth, and a
/// step at either end does nothing.
pub proof fn apertures_step_by_one(i: int)
    requires
        0 <= i <= 8,
    ensures
        0 <= stop_after(i, -1) <= 8 && 0 <= stop_after(i, 1) <= 8,
        i < 8 ==> stop_after(i, 1) == i + 1 && stop_after(stop_after(i, 1), -1) == i,
        i > 0 ==> stop_after(i, -1) == i - 1,
        stop_after(8, 1) == 8 && stop_after(0, -1) == 0,
{
}

/// A movement key moves the photographer its own way for as long as it is
/// down, and no other key moves them.
pub proof fn movement_keys_move_their_way(h: Held, code: KeyCode, pressed: bool)
    ensures
        code is KeyW ==> moved(h, code, pressed) == Some(Held { forward: pressed, ..h }),
        code is KeyS ==> moved(h, code, pressed) == Some(Held { back: pressed, ..h }),
        code is KeyA ==> moved(h, code, pressed) == Some(Held { left: pressed, ..h }),
        code is KeyD ==> moved(h, code, pressed) == Some(Held { right: pressed, ..h }),
        code is Space ==> moved(h, code, pressed) == Some(Held { up: pressed, ..h }),
        code is KeyC || code is ControlLeft ==> moved(h, code, pressed) == Some(
            Held { down: pressed, ..h },
        ),
        moved(h, code, pressed) is Some <==> code is KeyW || code is KeyS || code is KeyA || code
            is KeyD || code is Space || code is KeyC || code is ControlLeft,
{
}

/// In photo mode Q and E draw the focus near and far, comma and period darken
/// and brighten, Z and X open and close the aperture, G turns depth of field
/// over, and Enter or F2 takes the picture. Letting a key go does none of it.
pub proof fn lens_keys_work_the_lens(
    a: App,
    code: KeyCode,
    pressed: bool,
    b: App,
    told: Told,
    effect: Effect,
)
    requires
        a.photo.active,
        a.photo.stop <= 8,
        keyed(a, code, pressed, false, b, told, effect),
    ensures
        code is KeyQ && pressed ==> effect == Effect::Step(Lens::Focus(-1i32)),
        code is KeyE && pressed ==> effect == Effect::Step(Lens::Focus(1)),
        code is Comma && pressed ==> effect == Effect::Step(Lens::Exposure(-1i32)),
        code is Period && pressed ==> effect == Effect::Step(Lens::Exposure(1)),
        !(code is KeyQ || code is KeyE || code is Comma || code is Period) ==> !(effect is Step),
        code is KeyZ && pressed && a.photo.stop > 0 ==> b.photo.stop == a.photo.stop - 1,
        code is KeyX && pressed && a.photo.stop < 8 ==> b.photo.stop == a.photo.stop + 1,
        b.photo.stop != a.photo.stop ==> pressed && (code is KeyZ || code is KeyX),
        code is KeyG && pressed <==> b.photo.depth_of_field != a.photo.depth_of_field,
        b.photo.capture_requested <==> a.photo.capture_requested || pressed && (code is Enter
            || code is F2),
        !pressed ==> !(effect is Step),
{
}

/// While photo mode is active a key other than P, escape and F3 leaves the
/// window, the clock and the game alone.
pub proof fn photo_mode_takes_its_keys(
    a: App,
    code: KeyCode,
    pressed: bool,
    repeat: bool,
    b: App,
    told: Told,
    effect: Effect,
)
    requires
        a.photo.active,
        !(code is KeyP || code is Escape || code is F3),
        keyed(a, code, pressed, repeat, b, told, effect),
    ensures
        told is Nothing,
        b == (App { photo: b.photo, ..a }),
        b.photo.active,
        effect is Nothing || effect is Step,
        repeat ==> b == a,
{
}

/// Outside photo mode each key that goes down changes its own thing and
/// nothing else.
pub proof fn keys_change_their_own_thing(
    a: App,
    code: KeyCode,
    b: App,
    told: Told,
    effect: Effect,
)
    requires
        !a.photo.active,
        a.debug_mode < 4,
        keyed(a, code, true, false, b, told, effect),
    ensures
        b.show_profiler != a.show_profiler <==> code is F3,
        b.vsync != a.vsync <==> code is KeyV,
        b.debug_mode != a.debug_mode <==> code is F4,
        code is F4 && a.debug_mode < 3 ==> b.debug_mode == a.debug_mode + 1,
        code is F4 && a.debug_mode == 3 ==> b.debug_mode == 0,
        b.quality != a.quality <==> code is F6,
        b.photo.active <==> code is KeyP,
        code is KeyT ==> b.clock_paused != a.clock_paused,
        code is KeyP ==> b.clock_paused && b.photo.clock_was_paused == a.clock_paused,
        b.clock_paused != a.clock_paused ==> code is KeyT || code is KeyP,
        b.inventory && !a.inventory ==> code is KeyI,
        a.inventory && !b.inventory <==> a.inventory && (code is KeyI || code is Escape),
        b.screenshot_requested <==> a.screenshot_requested || code is F2,
        b.grabbed == a.grabbed && b.exit_after == a.exit_after && b.frames == a.frames,
        effect is SetQuality <==> code is F6,
        effect is Reconfigure <==> code is KeyV,
        effect is ReleaseAll <==> code is KeyP,
        effect == Effect::StepClock(1) <==> code is BracketRight,
        effect == Effect::StepClock(-1i32) <==> code is BracketLeft,
        effect is Exit <==> code is Escape && !a.inventory && !a.grabbed,
        effect is LetGo <==> code is Escape && !a.inventory && a.grabbed,
        effect is OpenInventory <==> code is KeyI && !a.inventory,
        effect is CloseInventory <==> a.inventory && (code is KeyI || code is Escape),
        forall|n: u8|
            code == KeyCode::Digit(n) && 1 <= n <= 9 && a.inventory ==> effect == Effect::Swap(
                (n - 1) as u8,
            ),
        effect is Swap ==> a.inventory && code is Digit,
{
}

/// A key goes down in the game only with the cursor grabbed and the inventory
/// shut, and always goes up; what repeats is not told again.
pub proof fn the_game_hears_its_keys(
    a: App,
    code: KeyCode,
    pressed: bool,
    repeat: bool,
    b: App,
    told: Told,
    effect: Effect,
)
    requires
        !a.photo.active,
        keyed(a, code, pressed, repeat, b, told, effect),
    ensures
        told is Down <==> pressed && !repeat && a.grabbed && !a.inventory && mapped(code) is Some,
        told is Up <==> !pressed && mapped(code) is Some,
        told matches Told::Down(k) ==> mapped(code) == Some(k),
        told matches Told::Up(k) ==> mapped(code) == Some(k),
        !pressed || repeat ==> b == a && effect is Nothing,
{
}

/// A press raises the quality by one tier, from the highest to the lowest.
pub proof fn tiers_rise_in_turn(q: Preset)
    ensures
        q is Realistic <==> tier_after(q) is HyperRealistic,
        q is HyperRealistic <==> tier_after(q) is UltraRealistic,
        q is UltraRealistic <==> tier_after(q) is SuperUltraCrazyDuperRealistic,
        q is SuperUltraCrazyDuperRealistic <==> tier_after(q) is Realistic,
{
}

} // verus!
