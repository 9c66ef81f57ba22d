//! The pack: slots to move stacks between, and the screen to do it on.
//!
//! Left click picks a stack up or puts it down (swapping with what is there),
//! right click takes half or puts one, shift click moves a stack between
//! hotbar and pack. Recipes craftable now list first; click one to make it,
//! shift click to make up to eight.

use crate::item::Item;
use crate::key::Key;
use vstd::prelude::*;

verus! {

pub const HOTBAR_SLOTS: usize = 9;

pub const SLOTS: usize = 36;

/// Some of one item. `limit` is how many a slot holds, `life` how much use is
/// left in a tool.
#[derive(Clone, Copy, Debug, PartialEq, Eq, Structural)]
pub struct Stack {
    pub item: Item,
    pub count: u32,
    pub life: u32,
    pub limit: u32,
}

impl Stack {
    pub open spec fn sound(self) -> bool {
        0 < self.count <= self.limit
    }
}

pub struct Inventory {
    /// The hotbar first.
    pub slots: [Option<Stack>; 36],
    /// Nothing runs out.
    pub creative: bool,
}

/// How much of an item a slot or a hand holds.
pub open spec fn holding(s: Option<Stack>, item: Item) -> int {
    match s {
        Some(s) => if s.item == item {
            s.count as int
        } else {
            0
        },
        None => 0,
    }
}

/// How much of an item the first `n` slots hold.
pub open spec fn total(slots: Seq<Option<Stack>>, item: Item, n: int) -> int
    decreases n,
{
    if n <= 0 {
        0
    } else {
        total(slots, item, n - 1) + holding(slots[n - 1], item)
    }
}

pub open spec fn sound(s: Option<Stack>) -> bool {
    s matches Some(s) ==> s.sound()
}

impl Inventory {
    pub open spec fn wf(&self) -> bool {
        forall|i: int| 0 <= i < 36 ==> sound(#[trigger] self.slots@[i])
    }

    /// How much of an item the pack holds.
    pub open spec fn count_of(&self, item: Item) -> int {
        total(self.slots@, item, 36)
    }
}

proof fn lemma_total_update(
    a: Seq<Option<Stack>>,
    b: Seq<Option<Stack>>,
    i: int,
    item: Item,
    n: int,
)
    requires
        0 <= n <= a.len() == b.len(),
        0 <= i < a.len(),
        forall|j: int| 0 <= j < a.len() && j != i ==> a[j] == b[j],
    ensures
        total(b, item, n) == total(a, item, n) + if i < n {
            holding(b[i], item) - holding(a[i], item)
        } else {
            0
        },
    decreases n,
{
    if n > 0 {
        lemma_total_update(a, b, i, item, n - 1);
    }
}

/// What a click with `carried` leaves in a slot that holds `here`.
pub open spec fn slot_after(
    carried: Option<Stack>,
    here: Option<Stack>,
    one: bool,
) -> Option<Stack> {
    match (carried, here) {
        (None, None) => None,
        (None, Some(s)) => {
            let left = if one {
                s.count as int / 2
            } else {
                0
            };
            if left > 0 {
                Some(Stack { count: left as u32, ..s })
            } else {
                None
            }
        },
        (Some(c), None) => Some(
            Stack {
                count: if one {
                    1
                } else {
                    c.count
                },
                ..c
            },
        ),
        (Some(c), Some(s)) => if stacks_with(c, s) {
            Some(Stack { count: (s.count + put_down(c, s, one)) as u32, ..s })
        } else {
            Some(c)
        },
    }
}

/// What the cursor holds after it.
pub open spec fn hand_after(
    carried: Option<Stack>,
    here: Option<Stack>,
    one: bool,
) -> Option<Stack> {
    match (carried, here) {
        (None, None) => None,
        (None, Some(s)) => Some(
            Stack {
                count: if one {
                    (s.count - s.count as int / 2) as u32
                } else {
                    s.count
                },
                ..s
            },
        ),
        (Some(c), None) => if one && c.count > 1 {
            Some(Stack { count: (c.count - 1) as u32, ..c })
        } else {
            None
        },
        (Some(c), Some(s)) => if stacks_with(c, s) {
            if c.count > put_down(c, s, one) {
                Some(Stack { count: (c.count - put_down(c, s, one)) as u32, ..c })
            } else {
                None
            }
        } else {
            Some(s)
        },
    }
}

/// Two stacks become one: the same item, and no tool.
pub open spec fn stacks_with(c: Stack, s: Stack) -> bool {
    c.item == s.item && !(c.item is Tool)
}

/// How many of `c` go onto `s`: one or all, as far as there is room.
pub open spec fn put_down(c: Stack, s: Stack, one: bool) -> int {
    let room = s.limit - s.count;
    let want = if one {
        1int
    } else {
        c.count as int
    };
    if want < room {
        want
    } else {
        room
    }
}

/// Left or right click on slot `i` holding `carried`; returns what the
/// cursor holds afterwards.
pub fn slot_click(inv: &mut Inventory, i: usize, carried: Option<Stack>, one: bool) -> (r: Option<
    Stack,
>)
    requires
        old(inv).wf(),
        i < SLOTS,
        sound(carried),
    ensures
        final(inv).slots@ == old(inv).slots@.update(
            i as int,
            slot_after(carried, old(inv).slots@[i as int], one),
        ),
        final(inv).creative == old(inv).creative,
        r == hand_after(carried, old(inv).slots@[i as int], one),
{
    let here: Option<Stack> = inv.slots[i];
    let ghost was = inv.slots@;
    assert(sound(was[i as int]));
    match (carried, here) {
        (None, None) => {
            assert(was.update(i as int, None) =~= was);
            None
        },
        (None, Some(s)) => {
            let left: u32 = if one {
                s.count / 2
            } else {
                0
            };
            let take: u32 = s.count - left;
            inv.slots[i] = if left > 0 {
                Some(Stack { count: left, ..s })
            } else {
                None
            };
            Some(Stack { count: take, ..s })
        },
        (Some(c), None) => {
            let put: u32 = if one {
                1
            } else {
                c.count
            };
            inv.slots[i] = Some(Stack { count: put, ..c });
            if c.count > put {
                Some(Stack { count: c.count - put, ..c })
            } else {
                None
            }
        },
        (Some(c), Some(s)) => {
            if c.item == s.item && !c.item.is_tool() {
                let room: u32 = s.limit - s.count;
                let want: u32 = if one {
                    1
                } else {
                    c.count
                };
                let put: u32 = if want < room {
                    want
                } else {
                    room
                };
                inv.slots[i] = Some(Stack { count: s.count + put, ..s });
                if c.count > put {
                    Some(Stack { count: c.count - put, ..c })
                } else {
                    None
                }
            } else {
                inv.slots[i] = Some(c);
                Some(s)
            }
        },
    }
}

/// A click neither makes nor loses anything: pack and hand together hold as
/// much of every item as before, and no stack grows past its limit.
pub proof fn clicks_keep_every_item(
    before: Inventory,
    after: Inventory,
    i: int,
    carried: Option<Stack>,
    one: bool,
    item: Item,
)
    requires
        before.wf(),
        0 <= i < 36,
        sound(carried),
        after.slots@ == before.slots@.update(i, slot_after(carried, before.slots@[i], one)),
    ensures
        after.wf(),
        sound(hand_after(carried, before.slots@[i], one)),
        after.count_of(item) + holding(hand_after(carried, before.slots@[i], one), item)
            == before.count_of(item) + holding(carried, item),
{
    assert(sound(before.slots@[i]));
    lemma_total_update(before.slots@, after.slots@, i, item, 36);
    assert forall|j: int| 0 <= j < 36 implies sound(#[trigger] after.slots@[j]) by {
        assert(sound(before.slots@[j]));
    }
}

/// Picking a whole stack up and putting it down again changes nothing.
pub proof fn putting_back_restores(here: Stack)
    requires
        here.sound(),
    ensures
        slot_after(
            hand_after(None, Some(here), false),
            slot_after(None, Some(here), false),
            false,
        ) == Some(here),
        hand_after(
            hand_after(None, Some(here), false),
            slot_after(None, Some(here), false),
            false,
        ) is None,
{
}

/// Slot `t` can be topped up from `s`.
pub open spec fn takes(slot: Option<Stack>, s: Stack) -> bool {
    slot matches Some(o) && stacks_with(o, s)
}

/// How much a slot gains when `left` of `s` is offered to it.
pub open spec fn gain(slot: Option<Stack>, s: Stack, left: int) -> int {
    if takes(slot, s) {
        let room = slot->Some_0.limit - slot->Some_0.count;
        if room < left {
            room
        } else {
            left
        }
    } else {
        0
    }
}

/// How much of `s` is left after topping up the slots `from..to` in turn.
pub open spec fn left_after(slots: Seq<Option<Stack>>, s: Stack, from: int, to: int) -> int
    decreases to - from,
{
    if to <= from {
        s.count as int
    } else {
        let left = left_after(slots, s, from, to - 1);
        left - gain(slots[to - 1], s, left)
    }
}

/// How much of `s` slot `t` gains when the slots from `from` on are topped up
/// in turn.
pub open spec fn topped(slots: Seq<Option<Stack>>, s: Stack, from: int, t: int) -> int {
    gain(slots[t], s, left_after(slots, s, from, t))
}

/// Slot `t` with what it gains.
pub open spec fn top_up(slots: Seq<Option<Stack>>, s: Stack, from: int, t: int) -> Option<Stack> {
    match slots[t] {
        Some(o) => Some(Stack { count: (o.count + topped(slots, s, from, t)) as u32, ..o }),
        None => None,
    }
}

/// The first empty slot of `from..to`; `to` if there is none.
pub open spec fn first_empty(slots: Seq<Option<Stack>>, from: int, to: int) -> int
    decreases to - from,
{
    if from >= to {
        to
    } else if slots[from] is None {
        from
    } else {
        first_empty(slots, from + 1, to)
    }
}

/// Where a shift click sends slot `i`'s stack: the pack from the hotbar, the
/// hotbar from the pack.
pub open spec fn targets(i: int) -> (int, int) {
    if i < 9 {
        (9, 36)
    } else {
        (0, 9)
    }
}

/// The slots after a shift click on slot `i`, which holds `s`: matching stacks
/// topped up, what is left in the first empty slot, or back where it was.
pub open spec fn moved(slots: Seq<Option<Stack>>, s: Stack, i: int) -> Seq<Option<Stack>> {
    let (from, to) = targets(i);
    let left = left_after(slots, s, from, to);
    let e = first_empty(slots, from, to);
    Seq::new(
        36,
        |j: int|
            if from <= j < to && j == e && left > 0 {
                Some(Stack { count: left as u32, ..s })
            } else if from <= j < to {
                top_up(slots, s, from, j)
            } else if j == i {
                if left > 0 && e == to {
                    Some(Stack { count: left as u32, ..s })
                } else {
                    None
                }
            } else {
                slots[j]
            },
    )
}

proof fn lemma_left(slots: Seq<Option<Stack>>, s: Stack, from: int, to: int)
    requires
        0 <= from <= to <= slots.len(),
        forall|j: int| 0 <= j < slots.len() ==> sound(#[trigger] slots[j]),
    ensures
        0 <= left_after(slots, s, from, to) <= s.count,
        forall|j: int|
            from <= j < to ==> 0 <= #[trigger] topped(slots, s, from, j) && (takes(slots[j], s)
                ==> slots[j]->Some_0.count + topped(slots, s, from, j) <= slots[j]->Some_0.limit),
    decreases to - from,
{
    if from < to {
        lemma_left(slots, s, from, to - 1);
        assert(sound(slots[to - 1]));
    }
}

proof fn lemma_first_empty(slots: Seq<Option<Stack>>, from: int, to: int)
    requires
        0 <= from <= to <= slots.len(),
    ensures
        from <= first_empty(slots, from, to) <= to,
        first_empty(slots, from, to) < to ==> slots[first_empty(slots, from, to)] is None,
    decreases to - from,
{
    if from < to && slots[from] is Some {
        lemma_first_empty(slots, from + 1, to);
    }
}

/// Moves slot `i`'s stack between hotbar and pack.
pub fn quick_move(inv: &mut Inventory, i: usize)
    requires
        old(inv).wf(),
        i < SLOTS,
    ensures
        final(inv).slots@ == match old(inv).slots@[i as int] {
            Some(s) => moved(old(inv).slots@, s, i as int),
            None => old(inv).slots@,
        },
        final(inv).creative == old(inv).creative,
{
    let s: Stack = match inv.slots[i] {
        Some(s) => s,
        None => {
            return;
        },
    };
    let ghost was = inv.slots@;
    inv.slots[i] = None;
    let (from, to): (usize, usize) = if i < HOTBAR_SLOTS {
        (HOTBAR_SLOTS, SLOTS)
    } else {
        (0, HOTBAR_SLOTS)
    };
    let mut left: u32 = s.count;
    let mut t: usize = from;
    while t < to
        invariant
            from <= t <= to <= 36,
            i < 36,
            (from as int, to as int) == targets(i as int),
            was.len() == 36,
            was[i as int] == Some(s),
            forall|j: int| 0 <= j < 36 ==> sound(#[trigger] was[j]),
            inv.creative == old(inv).creative,
            left == left_after(was, s, from as int, t as int),
            forall|j: int|
                0 <= j < 36 ==> #[trigger] inv.slots@[j] == if j == i {
                    None
                } else if from <= j < t {
                    top_up(was, s, from as int, j)
                } else {
                    was[j]
                },
        decreases to - t,
    {
        proof {
            lemma_left(was, s, from as int, t + 1);
            assert(sound(was[t as int]));
        }
        if let Some(o) = inv.slots[t] {
            if o.item == s.item && !o.item.is_tool() {
                let room: u32 = o.limit - o.count;
                let put: u32 = if room < left {
                    room
                } else {
                    left
                };
                inv.slots[t] = Some(Stack { count: o.count + put, ..o });
                left -= put;
            }
        }
        t += 1;
    }
    let mut e: usize = from;
    proof {
        lemma_first_empty(was, from as int, to as int);
    }
    while e < to && inv.slots[e].is_some()
        invariant
            from <= e <= to <= 36,
            i < 36,
            (from as int, to as int) == targets(i as int),
            was.len() == 36,
            first_empty(was, from as int, to as int) == first_empty(was, e as int, to as int),
            forall|j: int|
                0 <= j < 36 ==> #[trigger] inv.slots@[j] == if j == i {
                    None
                } else if from <= j < to {
                    top_up(was, s, from as int, j)
                } else {
                    was[j]
                },
        decreases to - e,
    {
        assert(inv.slots@[e as int] == top_up(was, s, from as int, e as int));
        e += 1;
    }
    proof {
        if e < to {
            assert(inv.slots@[e as int] == top_up(was, s, from as int, e as int));
        }
        assert(e == first_empty(was, from as int, to as int));
    }
    if left > 0 && e < to {
        inv.slots[e] = Some(Stack { count: left, ..s });
        left = 0;
    }
    if left > 0 {
        inv.slots[i] = Some(Stack { count: left, ..s });
    }
    assert(inv.slots@ =~= moved(was, s, i as int));
}

/// How much of `s.item` the slots `from..to` hold once topped up.
proof fn lemma_topped_total(
    slots: Seq<Option<Stack>>,
    after: Seq<Option<Stack>>,
    s: Stack,
    from: int,
    to: int,
    item: Item,
    n: int,
)
    requires
        0 <= from <= to <= 36,
        slots.len() == 36 && after.len() == 36,
        0 <= n <= 36,
        forall|j: int| 0 <= j < 36 ==> sound(#[trigger] slots[j]),
        forall|j: int|
            0 <= j < 36 ==> #[trigger] after[j] == if from <= j < to {
                top_up(slots, s, from, j)
            } else {
                slots[j]
            },
    ensures
        total(after, item, n) == total(slots, item, n) + if item == s.item && n > from {
            s.count - left_after(
                slots,
                s,
                from,
                if n < to {
                    n
                } else {
                    to
                },
            )
        } else {
            0
        },
    decreases n,
{
    if n > 0 {
        lemma_topped_total(slots, after, s, from, to, item, n - 1);
        lemma_left(slots, s, from, to);
        let j = n - 1;
        assert(sound(slots[j]));
        if from <= j < to {
            assert(left_after(slots, s, from, n) == left_after(slots, s, from, j) - topped(
                slots,
                s,
                from,
                j,
            ));
            if takes(slots[j], s) {
                assert(0 <= topped(slots, s, from, j));
            }
        }
    }
}

/// A shift click neither makes nor loses anything, and no stack grows past
/// its limit.
pub proof fn quick_moves_keep_every_item(inv: Inventory, s: Stack, i: int, item: Item)
    requires
        inv.wf(),
        0 <= i < 36,
        inv.slots@[i] == Some(s),
    ensures
        total(moved(inv.slots@, s, i), item, 36) == inv.count_of(item),
        forall|j: int| 0 <= j < 36 ==> sound(#[trigger] moved(inv.slots@, s, i)[j]),
{
    let slots = inv.slots@;
    let (from, to) = targets(i);
    assert(slots.len() == 36);
    assert(sound(slots[i]));
    let topped_up = Seq::new(
        36,
        |j: int|
            if from <= j < to {
                top_up(slots, s, from, j)
            } else {
                slots[j]
            },
    );
    lemma_topped_total(slots, topped_up, s, from, to, item, 36);
    lemma_left(slots, s, from, to);
    lemma_first_empty(slots, from, to);
    let left = left_after(slots, s, from, to);
    let e = first_empty(slots, from, to);
    let after = moved(slots, s, i);
    let cleared = topped_up.update(
        i,
        if left > 0 && e == to {
            Some(Stack { count: left as u32, ..s })
        } else {
            None
        },
    );
    lemma_total_update(topped_up, cleared, i, item, 36);
    if e < to && left > 0 {
        lemma_total_update(cleared, after, e, item, 36);
    } else {
        assert(after =~= cleared);
    }
    assert forall|j: int| 0 <= j < 36 implies sound(#[trigger] after[j]) by {
        assert(sound(slots[j]));
        if from <= j < to {
            assert(0 <= topped(slots, s, from, j));
        }
    }
}

/// Recipes and places to use them.
#[derive(Clone, Copy, Debug, PartialEq, Eq, Structural)]
pub enum Station {
    Hand,
    Table,
    Furnace,
    /// A trader, by profession.
    Trade(u32),
}

/// Stations within reach of the player.
#[derive(Clone, Copy, Debug, PartialEq, Eq, Structural)]
pub struct Near {
    pub table: bool,
    pub furnace: bool,
    pub trader: Option<u32>,
}

impl Near {
    pub open spec fn reaches(self, s: Station) -> bool {
        match s {
            Station::Hand => true,
            Station::Table => self.table,
            Station::Furnace => self.furnace,
            Station::Trade(p) => self.trader == Some(p),
        }
    }

    pub fn has(self, s: Station) -> (b: bool)
        ensures
            b == self.reaches(s),
    {
        match s {
            Station::Hand => true,
            Station::Table => self.table,
            Station::Furnace => self.furnace,
            Station::Trade(p) => match self.trader {
                Some(t) => t == p,
                None => false,
            },
        }
    }
}

#[derive(Clone, Copy, Debug, PartialEq, Eq, Structural)]
pub enum Tab {
    All,
    At(Station),
    Catalogue,
}

/// The screen's tabs: every station's book, a trader's if one is near, and
/// the catalogue if nothing runs out.
pub open spec fn tab_list(near: Near, creative: bool) -> Seq<Tab> {
    seq![
        Tab::All,
        Tab::At(Station::Hand),
        Tab::At(Station::Table),
        Tab::At(Station::Furnace),
    ] + (match near.trader {
        Some(p) => seq![Tab::At(Station::Trade(p))],
        None => Seq::empty(),
    }) + (if creative {
        seq![Tab::Catalogue]
    } else {
        Seq::empty()
    })
}

pub fn tabs(near: Near, creative: bool) -> (r: Vec<Tab>)
    ensures
        r@ == tab_list(near, creative),
{
    let mut r: Vec<Tab> = Vec::new();
    r.push(Tab::All);
    r.push(Tab::At(Station::Hand));
    r.push(Tab::At(Station::Table));
    r.push(Tab::At(Station::Furnace));
    if let Some(p) = near.trader {
        r.push(Tab::At(Station::Trade(p)));
    }
    if creative {
        r.push(Tab::Catalogue);
    }
    assert(r@ =~= tab_list(near, creative));
    r
}

/// A recipe of the book: where it is made, and whether it can be made now.
#[derive(Clone, Copy, Debug, PartialEq, Eq, Structural)]
pub struct Entry {
    pub station: Station,
    pub craftable: bool,
}

/// Whether a tab shows a recipe. Trades belong to their traders, not the book.
pub open spec fn listed(e: Entry, tab: Tab, near: Near) -> bool {
    match tab {
        Tab::At(s) => e.station == s,
        _ => !(e.station is Trade) || near.reaches(e.station),
    }
}

/// The recipes of the first `n` that a tab shows and that can, or cannot, be
/// made now, in the book's order.
pub open spec fn picked(
    book: Seq<Entry>,
    tab: Tab,
    near: Near,
    craftable: bool,
    n: int,
) -> Seq<usize>
    decreases n,
{
    if n <= 0 {
        Seq::empty()
    } else if listed(book[n - 1], tab, near) && book[n - 1].craftable == craftable {
        picked(book, tab, near, craftable, n - 1).push((n - 1) as usize)
    } else {
        picked(book, tab, near, craftable, n - 1)
    }
}

fn pick_into(out: &mut Vec<usize>, book: &Vec<Entry>, tab: Tab, near: Near, craftable: bool)
    ensures
        final(out)@ == old(out)@ + picked(book@, tab, near, craftable, book@.len() as int),
{
    let mut n: usize = 0;
    assert(out@ =~= old(out)@ + picked(book@, tab, near, craftable, 0));
    while n < book.len()
        invariant
            n <= book@.len(),
            out@ == old(out)@ + picked(book@, tab, near, craftable, n as int),
        decreases book@.len() - n,
    {
        let e: Entry = book[n];
        let shown: bool = match tab {
            Tab::At(s) => e.station == s,
            _ => !matches!(e.station, Station::Trade(_)) || near.has(e.station),
        };
        let ghost before = out@;
        if shown && e.craftable == craftable {
            out.push(n);
            assert(out@ =~= old(out)@ + picked(book@, tab, near, craftable, n + 1));
        }
        n += 1;
    }
}

/// The recipes a tab shows: craftable first, then the book's order.
pub fn shown(book: &Vec<Entry>, tab: Tab, near: Near) -> (r: Vec<usize>)
    ensures
        r@ == picked(book@, tab, near, true, book@.len() as int) + picked(
            book@,
            tab,
            near,
            false,
            book@.len() as int,
        ),
{
    let mut r: Vec<usize> = Vec::new();
    pick_into(&mut r, book, tab, near, true);
    assert(r@ =~= picked(book@, tab, near, true, book@.len() as int));
    pick_into(&mut r, book, tab, near, false);
    r
}

/// A rectangle of the screen, from its first corner up to, not with, its last.
#[derive(Clone, Copy, Debug, PartialEq, Eq, Structural)]
pub struct Rect {
    pub x0: Key,
    pub y0: Key,
    pub x1: Key,
    pub y1: Key,
}

impl Rect {
    pub open spec fn holds(self, x: Key, y: Key) -> bool {
        self.x0 <= x < self.x1 && self.y0 <= y < self.y1
    }

    pub fn contains(&self, x: Key, y: Key) -> (b: bool)
        ensures
            b == self.holds(x, y),
    {
        x >= self.x0 && y >= self.y0 && x < self.x1 && y < self.y1
    }
}

/// What is under the cursor.
#[derive(Clone, Copy, Debug, PartialEq, Eq, Structural)]
pub enum Hit {
    Slot(usize),
    Recipe(usize),
    Tab(Tab),
    Catalogue(Item),
    Panel,
}

/// What of the first `n` things drawn is under a point: later wins.
pub open spec fn on_top(hits: Seq<(Rect, Hit)>, n: int, x: Key, y: Key) -> Option<Hit>
    decreases n,
{
    if n <= 0 {
        None
    } else if hits[n - 1].0.holds(x, y) {
        Some(hits[n - 1].1)
    } else {
        on_top(hits, n - 1, x, y)
    }
}

pub fn hit(hits: &Vec<(Rect, Hit)>, x: Key, y: Key) -> (r: Option<Hit>)
    ensures
        r == on_top(hits@, hits@.len() as int, x, y),
{
    let mut n: usize = hits.len();
    while n > 0
        invariant
            n <= hits@.len(),
            on_top(hits@, hits@.len() as int, x, y) == on_top(hits@, n as int, x, y),
        decreases n,
    {
        if hits[n - 1].0.contains(x, y) {
            return Some(hits[n - 1].1);
        }
        n -= 1;
    }
    None
}

/// The inventory screen.
pub struct Screen {
    pub open: bool,
    /// A stack picked up, following the cursor.
    pub carried: Option<Stack>,
    pub tab: Tab,
    /// The list is back at its top.
    pub top: bool,
}

/// What a click asks for beyond the slots.
#[derive(Clone, Copy, Debug, PartialEq, Eq, Structural)]
pub enum Asked {
    Nothing,
    /// Make a recipe up to so many times.
    Craft { recipe: usize, times: u32 },
    /// Put a stack back into the pack.
    GiveBack(Stack),
}

impl Default for Screen {
    fn default() -> (s: Screen)
        ensures
            !s.open && s.carried is None && s.tab is All && s.top,
    {
        Screen { open: false, carried: None, tab: Tab::All, top: true }
    }
}

impl Screen {
    /// Opens at a station's recipes (None: all of them).
    pub fn open_at(&mut self, station: Option<Station>)
        ensures
            final(self).open,
            final(self).top,
            final(self).carried == old(self).carried,
            final(self).tab == match station {
                Some(s) => Tab::At(s),
                None => Tab::All,
            },
    {
        self.open = true;
        self.tab = match station {
            Some(s) => Tab::At(s),
            None => Tab::All,
        };
        self.top = true;
    }

    /// Closes; whatever the cursor carries goes back into the pack.
    pub fn close(&mut self, creative: bool) -> (r: Option<Stack>)
        ensures
            !final(self).open,
            final(self).carried is None,
            final(self).tab == old(self).tab,
            final(self).top == old(self).top,
            r == if creative {
                None
            } else {
                old(self).carried
            },
    {
        self.open = false;
        let s: Option<Stack> = self.carried;
        self.carried = None;
        if creative {
            None
        } else {
            s
        }
    }

    /// A click on `hit`: `secondary` for the right button. `limit` is how many
    /// of an item a slot holds, for one taken from the catalogue.
    pub fn click(
        &mut self,
        inv: &mut Inventory,
        hit: Option<Hit>,
        secondary: bool,
        shift: bool,
        limit: u32,
        life: u32,
    ) -> (r: Asked)
        requires
            old(inv).wf(),
            sound(old(self).carried),
            hit matches Some(Hit::Slot(i)) ==> i < 36,
            limit > 0,
        ensures
            final(inv).wf(),
            sound(final(self).carried),
            final(inv).creative == old(inv).creative,
            final(self).open == old(self).open,
            match hit {
                Some(Hit::Slot(i)) => {
                    let here = old(inv).slots@[i as int];
                    &&& r is Nothing
                    &&& final(self).tab == old(self).tab
                    &&& final(self).top == old(self).top
                    &&& if shift && !secondary {
                        &&& final(self).carried == old(self).carried
                        &&& final(inv).slots@ == match here {
                            Some(s) => moved(old(inv).slots@, s, i as int),
                            None => old(inv).slots@,
                        }
                    } else {
                        &&& final(self).carried == hand_after(old(self).carried, here, secondary)
                        &&& final(inv).slots@ == old(inv).slots@.update(
                            i as int,
                            slot_after(old(self).carried, here, secondary),
                        )
                    }
                },
                Some(Hit::Recipe(n)) => {
                    &&& *final(inv) == *old(inv)
                    &&& *final(self) == *old(self)
                    &&& r == (Asked::Craft {
                        recipe: n,
                        times: if shift {
                            8
                        } else {
                            1
                        },
                    })
                },
                Some(Hit::Tab(t)) => {
                    &&& *final(inv) == *old(inv)
                    &&& final(self).tab == t && final(self).top
                    &&& final(self).carried == old(self).carried
                    &&& r is Nothing
                },
                Some(Hit::Catalogue(item)) => {
                    &&& *final(inv) == *old(inv)
                    &&& final(self).carried == Some(Stack { item, count: limit, life, limit })
                    &&& final(self).tab == old(self).tab
                    &&& final(self).top == old(self).top
                    &&& r is Nothing
                },
                Some(Hit::Panel) => {
                    &&& *final(inv) == *old(inv)
                    &&& *final(self) == *old(self)
                    &&& r is Nothing
                },
                None => {
                    &&& *final(inv) == *old(inv)
                    &&& final(self).carried is None
                    &&& final(self).tab == old(self).tab
                    &&& final(self).top == old(self).top
                    &&& r == match old(self).carried {
                        Some(s) => if old(inv).creative {
                            Asked::Nothing
                        } else {
                            Asked::GiveBack(s)
                        },
                        None => Asked::Nothing,
                    }
                },
            },
            r is Craft <==> hit is Some && hit->Some_0 is Recipe,
            r is Craft && shift ==> r->times == 8,
            r is Craft && !shift ==> r->times == 1,
            r is GiveBack <==> hit is None && old(self).carried is Some && !old(inv).creative,
            hit is None ==> final(self).carried is None,
            !(hit is Some && hit->Some_0 is Slot) ==> final(inv).slots@ == old(inv).slots@,
    {
        match hit {
            Some(Hit::Slot(i)) => {
                let ghost before = *inv;
                if shift && !secondary {
                    quick_move(inv, i);
                    proof {
                        if let Some(s) = before.slots@[i as int] {
                            quick_moves_keep_every_item(before, s, i as int, s.item);
                        }
                    }
                } else {
                    let carried: Option<Stack> = self.carried;
                    self.carried = slot_click(inv, i, carried, secondary);
                    proof {
                        clicks_keep_every_item(
                            before,
                            *inv,
                            i as int,
                            carried,
                            secondary,
                            Item::Stick,
                        );
                    }
                }
                Asked::Nothing
            },
            Some(Hit::Recipe(n)) => Asked::Craft {
                recipe: n,
                times: if shift {
                    8
                } else {
                    1
                },
            },
            Some(Hit::Tab(t)) => {
                self.tab = t;
                self.top = true;
                Asked::Nothing
            },
            Some(Hit::Catalogue(item)) => {
                self.carried = Some(Stack { item, count: limit, life, limit });
                Asked::Nothing
            },
            Some(Hit::Panel) => Asked::Nothing,
            None => {
                let s: Option<Stack> = self.carried;
                self.carried = None;
                match s {
                    Some(s) => if inv.creative {
                        Asked::Nothing
                    } else {
                        Asked::GiveBack(s)
                    },
                    None => Asked::Nothing,
                }
            },
        }
    }
}

/// How many things the first `n` slots hold in all.
pub open spec fn all_held(slots: Seq<Option<Stack>>, n: int) -> int
    decreases n,
{
    if n <= 0 {
        0
    } else {
        all_held(slots, n - 1) + match slots[n - 1] {
            Some(s) => s.count as int,
            None => 0,
        }
    }
}

/// How many things the pack holds.
pub fn carried(inv: &Inventory) -> (n: u64)
    ensures
        n == all_held(inv.slots@, 36),
{
    let mut n: u64 = 0;
    let mut i: usize = 0;
    while i < SLOTS
        invariant
            i <= 36,
            n == all_held(inv.slots@, i as int),
            n <= i * 0x1_0000_0000,
        decreases 36 - i,
    {
        if let Some(s) = inv.slots[i] {
            n += s.count as u64;
        }
        i += 1;
    }
    n
}

/// A number key while the screen is open: swaps the slot under the cursor
/// with that hotbar slot.
pub fn number(inv: &mut Inventory, hit: Option<Hit>, n: usize)
    requires
        hit matches Some(Hit::Slot(i)) ==> i < 36,
    ensures
        final(inv).creative == old(inv).creative,
        final(inv).slots@ == match hit {
            Some(Hit::Slot(i)) => if n < 9 {
                old(inv).slots@.update(i as int, old(inv).slots@[n as int]).update(
                    n as int,
                    old(inv).slots@[i as int],
                )
            } else {
                old(inv).slots@
            },
            _ => old(inv).slots@,
        },
{
    if let Some(Hit::Slot(i)) = hit {
        if n < HOTBAR_SLOTS {
            let a: Option<Stack> = inv.slots[i];
            let b: Option<Stack> = inv.slots[n];
            inv.slots[i] = b;
            inv.slots[n] = a;
        }
    }
}

/// Where slot `i` is drawn: its row and column, the pack's three rows over the
/// hotbar.
pub fn slot_place(i: usize) -> (r: (usize, usize))
    requires
        i < SLOTS,
    ensures
        i < 9 ==> r == (3usize, i),
        i >= 9 ==> r.0 * 9 + r.1 == i - 9 && r.1 < 9 && r.0 < 3,
{
    if i < HOTBAR_SLOTS {
        (3, i)
    } else {
        let k: usize = i - HOTBAR_SLOTS;
        (k / 9, k % 9)
    }
}

/// No two slots are drawn in one place.
pub proof fn slots_do_not_overlap(i: int, j: int)
    requires
        9 <= i < 36,
        9 <= j < 36,
        (i - 9) / 9 == (j - 9) / 9,
        (i - 9) % 9 == (j - 9) % 9,
    ensures
        i == j,
{
}

/// Rows that a catalogue of `items` takes at `cols` a row.
pub fn catalogue_rows(items: usize, cols: usize) -> (r: usize)
    requires
        cols > 0,
    ensures
        r == (if items as int % cols as int == 0 {
            items as int / cols as int
        } else {
            items as int / cols as int + 1
        }),
{
    let q: usize = items / cols;
    if items % cols == 0 {
        q
    } else {
        proof {
            assert(q + 1 <= usize::MAX) by {
                if cols == 1 {
                    assert(items % 1 == 0);
                }
                assert(q <= usize::MAX / 2) by (nonlinear_arith)
                    requires
                        q == items as int / cols as int,
                        cols >= 2,
                        items <= usize::MAX,
                ;
            }
        }
        q + 1
    }
}

/// Row and column of catalogue item `k`, none where it is scrolled away.
pub fn catalogue_place(k: usize, cols: usize, first_row: usize, visible: usize) -> (r: Option<
    (usize, usize),
>)
    requires
        cols > 0,
    ensures
        r == (if first_row <= k as int / cols as int && k as int / cols as int - first_row < visible {
            Some(((k as int / cols as int - first_row) as usize, (k as int % cols as int) as usize))
        } else {
            None
        }),
{
    let row: usize = k / cols;
    if row < first_row || row - first_row >= visible {
        return None;
    }
    Some((row - first_row, k % cols))
}

/// A right click with a stack puts exactly one down where it fits: on an empty
/// slot, or on the same item, no tool, with room left. On a full slot it moves
/// nothing.
pub proof fn right_clicks_put_one_down(c: Stack, s: Stack)
    requires
        c.sound(),
        s.sound(),
        c.item == s.item,
        !(c.item is Tool),
    ensures
        slot_after(Some(c), None, true) == Some(Stack { count: 1, ..c }),
        s.count < s.limit ==> slot_after(Some(c), Some(s), true) == Some(
            Stack { count: (s.count + 1) as u32, ..s },
        ),
        s.count == s.limit ==> slot_after(Some(c), Some(s), true) == Some(s) && hand_after(
            Some(c),
            Some(s),
            true,
        ) == Some(c),
        c.count == 1 ==> hand_after(Some(c), None, true) is None && (s.count < s.limit
            ==> hand_after(Some(c), Some(s), true) is None),
        c.count > 1 ==> hand_after(Some(c), None, true) == Some(
            Stack { count: (c.count - 1) as u32, ..c },
        ),
        c.count > 1 && s.count < s.limit ==> hand_after(Some(c), Some(s), true) == Some(
            Stack { count: (c.count - 1) as u32, ..c },
        ),
{
}

/// A right click with an empty hand takes half of a stack, the odd one with
/// it, and leaves the rest; a left click takes it all.
pub proof fn right_clicks_take_half(s: Stack)
    requires
        s.sound(),
    ensures
        hand_after(None, Some(s), true) matches Some(h) && h == (Stack { count: h.count, ..s }) && (
        2 * h.count == s.count || 2 * h.count == s.count + 1),
        s.count == 1 ==> slot_after(None, Some(s), true) is None,
        s.count > 1 ==> (slot_after(None, Some(s), true) matches Some(l) && l == (Stack {
            count: l.count,
            ..s
        }) && (2 * l.count == s.count || 2 * l.count == s.count - 1)),
        hand_after(None, Some(s), false) == Some(s),
        slot_after(None, Some(s), false) is None,
{
}

/// A left click puts a whole stack down: all of it on an empty slot, as much
/// as there is room for on the same item, and the rest stays in hand.
pub proof fn left_clicks_put_all_down(c: Stack, s: Stack)
    requires
        c.sound(),
        s.sound(),
        c.item == s.item,
        !(c.item is Tool),
    ensures
        slot_after(Some(c), None, false) == Some(c),
        hand_after(Some(c), None, false) is None,
        s.count + c.count <= s.limit ==> slot_after(Some(c), Some(s), false) == Some(
            Stack { count: (s.count + c.count) as u32, ..s },
        ) && hand_after(Some(c), Some(s), false) is None,
        s.count + c.count > s.limit ==> slot_after(Some(c), Some(s), false) == Some(
            Stack { count: s.limit, ..s },
        ) && hand_after(Some(c), Some(s), false) == Some(
            Stack { count: (s.count + c.count - s.limit) as u32, ..c },
        ),
{
}

/// A click with one thing on another, or with a tool on any, changes them
/// over, whichever button; with nothing on nothing it does nothing.
pub proof fn other_clicks_swap(c: Stack, s: Stack, one: bool)
    requires
        c.item != s.item || c.item is Tool,
    ensures
        slot_after(Some(c), Some(s), one) == Some(c),
        hand_after(Some(c), Some(s), one) == Some(s),
        slot_after(None, None, one) is None,
        hand_after(None, None, one) is None,
{
}

/// A shift click moves between hotbar and pack only: of the side it comes
/// from just the slot itself changes, and slots of the other side change
/// only if they were empty or held the same item, by gaining of it.
pub proof fn shift_clicks_cross_over(slots: Seq<Option<Stack>>, s: Stack, i: int, j: int)
    requires
        slots.len() == 36,
        forall|k: int| 0 <= k < 36 ==> sound(#[trigger] slots[k]),
        0 <= i < 36,
        0 <= j < 36,
        slots[i] == Some(s),
    ensures
        (i < 9) == (j < 9) && j != i ==> moved(slots, s, i)[j] == slots[j],
        (i < 9) != (j < 9) && slots[j] is Some ==> {
            &&& moved(slots, s, i)[j] is Some
            &&& moved(slots, s, i)[j]->Some_0.item == slots[j]->Some_0.item
            &&& moved(slots, s, i)[j]->Some_0.count >= slots[j]->Some_0.count
            &&& slots[j]->Some_0.item != s.item || s.item is Tool ==> moved(slots, s, i)[j]
                == slots[j]
        },
        (i < 9) != (j < 9) && slots[j] is None && moved(slots, s, i)[j] is Some ==> moved(
            slots,
            s,
            i,
        )[j]->Some_0.item == s.item,
{
    let (from, to) = targets(i);
    lemma_left(slots, s, from, to);
    lemma_first_empty(slots, from, to);
    assert(sound(slots[j]));
    if from <= j < to {
        lemma_left(slots, s, from, j);
        assert(topped(slots, s, from, j) >= 0);
    }
}

/// What is left after topping up means that there was no room.
proof fn lemma_left_full(slots: Seq<Option<Stack>>, s: Stack, from: int, to: int, j: int)
    requires
        0 <= from <= j < to <= slots.len(),
        forall|k: int| 0 <= k < slots.len() ==> sound(#[trigger] slots[k]),
        takes(slots[j], s),
        left_after(slots, s, from, to) > 0,
    ensures
        slots[j]->Some_0.count + topped(slots, s, from, j) == slots[j]->Some_0.limit,
    decreases to - from,
{
    lemma_left(slots, s, from, to - 1);
    assert(sound(slots[to - 1]));
    if j < to - 1 {
        lemma_left_full(slots, s, from, to - 1, j);
    }
}

proof fn lemma_none_before(slots: Seq<Option<Stack>>, from: int, to: int, j: int)
    requires
        0 <= from <= j < to <= slots.len(),
        slots[j] is None,
    ensures
        first_empty(slots, from, to) <= j,
    decreases to - from,
{
    if slots[from] is Some {
        lemma_none_before(slots, from + 1, to, j);
    }
}

/// A shift click tops up before it opens a new stack, in the first empty slot,
/// and leaves something behind only where the other side has no room for it.
pub proof fn shift_clicks_top_up_first(slots: Seq<Option<Stack>>, s: Stack, i: int, j: int, e: int)
    requires
        slots.len() == 36,
        forall|k: int| 0 <= k < 36 ==> sound(#[trigger] slots[k]),
        0 <= i < 36,
        0 <= j < 36,
        0 <= e < 36,
        slots[i] == Some(s),
        (i < 9) != (j < 9),
        (i < 9) != (e < 9),
    ensures
        slots[e] is None && moved(slots, s, i)[e] is Some ==> {
            &&& slots[j] is Some && slots[j]->Some_0.item == s.item && !(s.item is Tool) ==> moved(
                slots,
                s,
                i,
            )[j]->Some_0.count == slots[j]->Some_0.limit
            &&& slots[j] is None ==> e <= j
            &&& moved(slots, s, i)[i] is None
        },
        moved(slots, s, i)[i] is Some ==> {
            &&& slots[j] is Some
            &&& slots[j]->Some_0.item == s.item && !(s.item is Tool) ==> moved(
                slots,
                s,
                i,
            )[j]->Some_0.count == slots[j]->Some_0.limit
            &&& moved(slots, s, i)[i]->Some_0.item == s.item
        },
{
    let (from, to) = targets(i);
    lemma_left(slots, s, from, to);
    lemma_first_empty(slots, from, to);
    assert(sound(slots[j]));
    if slots[j] is None {
        lemma_none_before(slots, from, to, j);
    } else if takes(slots[j], s) && left_after(slots, s, from, to) > 0 {
        lemma_left_full(slots, s, from, to, j);
        lemma_left(slots, s, from, j);
    }
}

/// The screen always has the whole book and the three stations' books; a
/// trader's comes only with that trader near, the catalogue only where nothing
/// runs out, and last.
pub proof fn tabs_follow_what_is_near(near: Near, creative: bool)
    ensures
        ({
            let t = tab_list(near, creative);
            &&& t[0] is All && t[1] == Tab::At(Station::Hand) && t[2] == Tab::At(Station::Table)
                && t[3] == Tab::At(Station::Furnace)
            &&& t.len() == 4 + (if near.trader is Some {
                1int
            } else {
                0
            }) + (if creative {
                1int
            } else {
                0
            })
            &&& near.trader matches Some(p) ==> t[4] == Tab::At(Station::Trade(p))
            &&& t.last() is Catalogue <==> creative
        }),
{
}

/// A hand needs nothing, a table and a furnace have to be near, and a trade
/// its own trader. The whole book leaves out only the trades that are not
/// near; a station's own tab shows its recipes and no others.
pub proof fn books_show_their_recipes(e: Entry, s: Station, near: Near)
    ensures
        near.reaches(Station::Hand),
        near.reaches(Station::Table) <==> near.table,
        near.reaches(Station::Furnace) <==> near.furnace,
        s matches Station::Trade(p) ==> (near.reaches(s) <==> near.trader == Some(p)),
        listed(e, Tab::At(s), near) <==> e.station == s,
        listed(e, Tab::All, near) <==> (e.station matches Station::Trade(p) ==> near.trader == Some(
            p,
        )),
{
}

/// What is picked of a book: each recipe that the tab shows and that can, or
/// cannot, be made, once, in the book's order.
pub proof fn recipes_are_picked_in_order(
    book: Seq<Entry>,
    tab: Tab,
    near: Near,
    craftable: bool,
    n: int,
    k: int,
)
    requires
        0 <= k < n <= book.len() <= usize::MAX,
    ensures
        picked(book, tab, near, craftable, n).contains(k as usize) <==> listed(book[k], tab, near)
            && book[k].craftable == craftable,
        forall|i: int, j: int|
            0 <= i < j < picked(book, tab, near, craftable, n).len() ==> #[trigger] picked(
                book,
                tab,
                near,
                craftable,
                n,
            )[i] < #[trigger] picked(book, tab, near, craftable, n)[j],
{
    lemma_picked(book, tab, near, craftable, n, k);
}

proof fn lemma_picked(
    book: Seq<Entry>,
    tab: Tab,
    near: Near,
    craftable: bool,
    n: int,
    k: int,
)
    requires
        0 <= n <= book.len() <= usize::MAX,
        0 <= k < book.len(),
    ensures
        picked(book, tab, near, craftable, n).contains(k as usize) <==> k < n && listed(
            book[k],
            tab,
            near,
        ) && book[k].craftable == craftable,
        forall|i: int|
            0 <= i < picked(book, tab, near, craftable, n).len() ==> #[trigger] picked(
                book,
                tab,
                near,
                craftable,
                n,
            )[i] < n,
        forall|i: int, j: int|
            0 <= i < j < picked(book, tab, near, craftable, n).len() ==> #[trigger] picked(
                book,
                tab,
                near,
                craftable,
                n,
            )[i] < #[trigger] picked(book, tab, near, craftable, n)[j],
    decreases n,
{
    if n > 0 {
        lemma_picked(book, tab, near, craftable, n - 1, k);
        let before = picked(book, tab, near, craftable, n - 1);
        let now = picked(book, tab, near, craftable, n);
        if listed(book[n - 1], tab, near) && book[n - 1].craftable == craftable {
            assert(now == before.push((n - 1) as usize));
            assert(now[before.len() as int] == (n - 1) as usize);
            if before.contains(k as usize) {
                let i = choose|i: int| 0 <= i < before.len() && before[i] == k as usize;
                assert(now[i] == k as usize);
            }
            if now.contains(k as usize) && k != n - 1 {
                let i = choose|i: int| 0 <= i < now.len() && now[i] == k as usize;
                assert(before[i] == k as usize);
            }
        }
    }
}

/// What was drawn last is what is hit: nothing drawn after it is under the
/// point, and a point that nothing covers hits nothing.
pub proof fn the_topmost_is_hit(hits: Seq<(Rect, Hit)>, n: int, i: int, x: Key, y: Key)
    requires
        0 <= i < n <= hits.len(),
    ensures
        hits[i].0.holds(x, y) && (forall|j: int|
            i < j < n ==> !(#[trigger] hits[j]).0.holds(x, y)) ==> on_top(hits, n, x, y) == Some(
            hits[i].1,
        ),
        on_top(hits, n, x, y) is None ==> !hits[i].0.holds(x, y),
        hits[i].0.holds(x, y) <==> hits[i].0.x0 <= x && x < hits[i].0.x1 && hits[i].0.y0 <= y && y
            < hits[i].0.y1,
    decreases n,
{
    if n - 1 > i {
        the_topmost_is_hit(hits, n - 1, i, x, y);
    }
}

} // verus!
