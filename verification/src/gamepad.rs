//! Xbox-layout gamepad: what is held becomes what was just pressed.

use vstd::prelude::*;

verus! {

/// What is held down on a pad.
#[derive(Clone, Copy, Debug, PartialEq, Eq, Structural)]
pub struct Digital {
    pub jump: bool,
    pub crouch: bool,
    pub sprint: bool,
    pub fly: bool,
    pub view: bool,
    pub mode: bool,
    pub interact: bool,
    pub break_b: bool,
    pub place: bool,
    pub preview: bool,
    pub lb: bool,
    pub rb: bool,
    pub start: bool,
    pub select: bool,
    pub up: bool,
    pub down: bool,
    pub left: bool,
    pub right: bool,
}

/// Nothing held.
pub open spec fn idle() -> Digital {
    Digital {
        jump: false,
        crouch: false,
        sprint: false,
        fly: false,
        view: false,
        mode: false,
        interact: false,
        break_b: false,
        place: false,
        preview: false,
        lb: false,
        rb: false,
        start: false,
        select: false,
        up: false,
        down: false,
        left: false,
        right: false,
    }
}

impl Default for Digital {
    fn default() -> (d: Digital)
        ensures
            d == idle(),
    {
        Digital {
            jump: false,
            crouch: false,
            sprint: false,
            fly: false,
            view: false,
            mode: false,
            interact: false,
            break_b: false,
            place: false,
            preview: false,
            lb: false,
            rb: false,
            start: false,
            select: false,
            up: false,
            down: false,
            left: false,
            right: false,
        }
    }
}

/// What a pad says this frame.
#[derive(Clone, Copy, Debug, PartialEq, Eq, Structural)]
pub struct Pad {
    pub connected: bool,
    pub jump: bool,
    pub jump_pressed: bool,
    pub crouch: bool,
    pub crouch_pressed: bool,
    pub sprint: bool,
    pub fly: bool,
    pub view: bool,
    pub mode: bool,
    pub interact: bool,
    pub break_block: bool,
    pub break_pressed: bool,
    pub place: bool,
    pub place_pressed: bool,
    pub preview: bool,
    pub slot_next: bool,
    pub slot_prev: bool,
    pub start: bool,
    pub select: bool,
    pub dpad_up: bool,
    pub dpad_down: bool,
    pub dpad_left: bool,
    pub dpad_right: bool,
    pub lb: bool,
    pub rb: bool,
    pub stick_active: bool,
    pub any_edge: bool,
}

impl Default for Pad {
    fn default() -> (p: Pad)
        ensures
            p == absent(),
    {
        Pad {
            connected: false,
            jump: false,
            jump_pressed: false,
            crouch: false,
            crouch_pressed: false,
            sprint: false,
            fly: false,
            view: false,
            mode: false,
            interact: false,
            break_block: false,
            break_pressed: false,
            place: false,
            place_pressed: false,
            preview: false,
            slot_next: false,
            slot_prev: false,
            start: false,
            select: false,
            dpad_up: false,
            dpad_down: false,
            dpad_left: false,
            dpad_right: false,
            lb: false,
            rb: false,
            stick_active: false,
            any_edge: false,
        }
    }
}

/// No pad.
pub open spec fn absent() -> Pad {
    Pad {
        connected: false,
        jump: false,
        jump_pressed: false,
        crouch: false,
        crouch_pressed: false,
        sprint: false,
        fly: false,
        view: false,
        mode: false,
        interact: false,
        break_block: false,
        break_pressed: false,
        place: false,
        place_pressed: false,
        preview: false,
        slot_next: false,
        slot_prev: false,
        start: false,
        select: false,
        dpad_up: false,
        dpad_down: false,
        dpad_left: false,
        dpad_right: false,
        lb: false,
        rb: false,
        stick_active: false,
        any_edge: false,
    }
}

/// Held now and not before.
pub open spec fn fresh(now: bool, was: bool) -> bool {
    now && !was
}

fn edge(now: bool, was: bool) -> (b: bool)
    ensures
        b == fresh(now, was),
{
    now && !was
}

/// Anything but the start button was just pressed.
pub open spec fn any_fresh(now: Digital, prev: Digital) -> bool {
    ||| fresh(now.break_b, prev.break_b)
    ||| fresh(now.place, prev.place)
    ||| fresh(now.fly, prev.fly)
    ||| fresh(now.view, prev.view)
    ||| fresh(now.mode, prev.mode)
    ||| fresh(now.interact, prev.interact)
    ||| fresh(now.select, prev.select)
    ||| fresh(now.lb, prev.lb)
    ||| fresh(now.rb, prev.rb)
    ||| fresh(now.up, prev.up)
    ||| fresh(now.down, prev.down)
    ||| fresh(now.left, prev.left)
    ||| fresh(now.right, prev.right)
    ||| fresh(now.jump, prev.jump)
    ||| fresh(now.crouch, prev.crouch)
    ||| fresh(now.sprint, prev.sprint)
}

/// What a pad that holds `now`, and held `prev` a frame ago, says.
pub open spec fn seen(now: Digital, prev: Digital, stick_active: bool) -> Pad {
    Pad {
        connected: true,
        jump: now.jump,
        jump_pressed: fresh(now.jump, prev.jump),
        crouch: now.crouch,
        crouch_pressed: fresh(now.crouch, prev.crouch),
        sprint: now.sprint,
        fly: fresh(now.fly, prev.fly),
        view: fresh(now.view, prev.view),
        mode: fresh(now.mode, prev.mode),
        interact: fresh(now.interact, prev.interact),
        break_block: now.break_b,
        break_pressed: fresh(now.break_b, prev.break_b),
        place: now.place,
        place_pressed: fresh(now.place, prev.place),
        preview: now.preview,
        slot_next: fresh(now.rb, prev.rb) || fresh(now.right, prev.right),
        slot_prev: fresh(now.lb, prev.lb) || fresh(now.left, prev.left),
        start: fresh(now.start, prev.start),
        select: fresh(now.select, prev.select),
        dpad_up: fresh(now.up, prev.up),
        dpad_down: fresh(now.down, prev.down),
        dpad_left: fresh(now.left, prev.left),
        dpad_right: fresh(now.right, prev.right),
        lb: fresh(now.lb, prev.lb),
        rb: fresh(now.rb, prev.rb),
        stick_active,
        any_edge: any_fresh(now, prev),
    }
}

pub fn snapshot(now: &Digital, prev: &Digital, stick_active: bool) -> (p: Pad)
    ensures
        p == seen(*now, *prev, stick_active),
{
    let dpad_up: bool = edge(now.up, prev.up);
    let dpad_down: bool = edge(now.down, prev.down);
    let dpad_left: bool = edge(now.left, prev.left);
    let dpad_right: bool = edge(now.right, prev.right);
    let lb: bool = edge(now.lb, prev.lb);
    let rb: bool = edge(now.rb, prev.rb);
    let fly: bool = edge(now.fly, prev.fly);
    let view: bool = edge(now.view, prev.view);
    let mode: bool = edge(now.mode, prev.mode);
    let interact: bool = edge(now.interact, prev.interact);
    let start: bool = edge(now.start, prev.start);
    let select: bool = edge(now.select, prev.select);
    let break_edge: bool = edge(now.break_b, prev.break_b);
    let place_edge: bool = edge(now.place, prev.place);
    let jump_edge: bool = edge(now.jump, prev.jump);
    let crouch_edge: bool = edge(now.crouch, prev.crouch);
    Pad {
        connected: true,
        jump: now.jump,
        jump_pressed: jump_edge,
        crouch: now.crouch,
        crouch_pressed: crouch_edge,
        sprint: now.sprint,
        fly,
        view,
        mode,
        interact,
        break_block: now.break_b,
        break_pressed: break_edge,
        place: now.place,
        place_pressed: place_edge,
        preview: now.preview,
        slot_next: rb || dpad_right,
        slot_prev: lb || dpad_left,
        start,
        select,
        dpad_up,
        dpad_down,
        dpad_left,
        dpad_right,
        lb,
        rb,
        stick_active,
        any_edge: break_edge || place_edge || fly || view || mode || interact || select || lb || rb
            || dpad_up || dpad_down || dpad_left || dpad_right || jump_edge || crouch_edge || edge(
            now.sprint,
            prev.sprint,
        ),
    }
}

/// The pads, as far as what was held last and whether one has been named.
pub struct Gamepads {
    pub prev: Digital,
    pub named: bool,
}

impl Gamepads {
    pub fn new() -> (g: Gamepads)
        ensures
            g.prev == idle(),
            !g.named,
    {
        Gamepads { prev: Digital::default(), named: false }
    }

    /// One frame: what the first connected pad holds, if there is one. Also
    /// says whether it is to be named now, which happens once a connection.
    pub fn poll(&mut self, held: Option<(Digital, bool)>) -> (r: (Pad, bool))
        ensures
            match held {
                Some((now, stick)) => {
                    &&& r.0 == seen(now, old(self).prev, stick)
                    &&& r.1 == !old(self).named
                    &&& final(self).prev == now
                    &&& final(self).named
                },
                None => {
                    &&& r.0 == absent()
                    &&& !r.1
                    &&& final(self).prev == idle()
                    &&& !final(self).named
                },
            },
    {
        match held {
            Some((now, stick)) => {
                let prev: Digital = self.prev;
                let pad = snapshot(&now, &prev, stick);
                self.prev = now;
                let name: bool = !self.named;
                self.named = true;
                (pad, name)
            },
            None => {
                self.prev = Digital::default();
                self.named = false;
                (Pad::default(), false)
            },
        }
    }
}

/// A button that stays down is pressed once: with nothing changed there is no
/// edge.
pub proof fn held_buttons_fire_once(held: Digital, stick: bool)
    ensures
        !seen(held, held, stick).any_edge,
        !seen(held, held, stick).start,
        !seen(held, held, stick).slot_next,
        !seen(held, held, stick).slot_prev,
{
}

/// After a pad is gone every button it comes back with counts as pressed.
pub proof fn reconnecting_presses_afresh(now: Digital, stick: bool)
    ensures
        seen(now, idle(), stick).jump_pressed == now.jump,
        seen(now, idle(), stick).start == now.start,
        seen(now, idle(), stick).any_edge ==> now != idle(),
{
}

/// What is told while held follows the button; what is told once follows its
/// going down, of the button's own and no other.
pub proof fn buttons_tell_their_own(now: Digital, prev: Digital, stick: bool)
    ensures
        ({
            let p = seen(now, prev, stick);
            &&& p.connected && p.stick_active == stick
            &&& p.jump == now.jump && p.crouch == now.crouch && p.sprint == now.sprint
                && p.break_block == now.break_b && p.place == now.place && p.preview == now.preview
            &&& p.jump_pressed <==> now.jump && !prev.jump
            &&& p.crouch_pressed <==> now.crouch && !prev.crouch
            &&& p.break_pressed <==> now.break_b && !prev.break_b
            &&& p.place_pressed <==> now.place && !prev.place
            &&& p.fly <==> now.fly && !prev.fly
            &&& p.view <==> now.view && !prev.view
            &&& p.mode <==> now.mode && !prev.mode
            &&& p.interact <==> now.interact && !prev.interact
            &&& p.start <==> now.start && !prev.start
            &&& p.select <==> now.select && !prev.select
            &&& p.lb <==> now.lb && !prev.lb
            &&& p.rb <==> now.rb && !prev.rb
            &&& p.dpad_up <==> now.up && !prev.up
            &&& p.dpad_down <==> now.down && !prev.down
            &&& p.dpad_left <==> now.left && !prev.left
            &&& p.dpad_right <==> now.right && !prev.right
        }),
{
}

/// The right shoulder and the pad's right go to the next slot, the left ones
/// to the one before; whatever is told once, but for the start button, is an
/// edge, and so is a sprint that begins.
pub proof fn edges_are_what_begins(now: Digital, prev: Digital, stick: bool)
    ensures
        ({
            let p = seen(now, prev, stick);
            &&& p.slot_next <==> p.rb || p.dpad_right
            &&& p.slot_prev <==> p.lb || p.dpad_left
            &&& p.any_edge <==> p.jump_pressed || p.crouch_pressed || p.break_pressed
                || p.place_pressed || p.fly || p.view || p.mode || p.interact || p.select || p.lb
                || p.rb || p.dpad_up || p.dpad_down || p.dpad_left || p.dpad_right || (now.sprint
                && !prev.sprint)
        }),
{
}

} // verus!
