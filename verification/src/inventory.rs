//! Slot-based player inventory, shared by client and server.
//!
//! An inventory is a flat list of `TOTAL_SLOTS` slots: the first
//! `HOTBAR_SLOTS` are the hotbar, the remaining `STORAGE_SLOTS` are backpack
//! storage. Each slot is either empty or a stack of one block type.

use vstd::prelude::*;

use crate::block::{max_stack, spec_max_stack};
use crate::protocol::BlockId;

verus! {

/// Number of hotbar slots (selectable with keys 1–9, used for placing).
pub const HOTBAR_SLOTS: usize = 9;
/// Number of backpack storage slots (visible on the inventory screen).
pub const STORAGE_SLOTS: usize = 27;
/// Total slots in an inventory: hotbar followed by storage.
pub const TOTAL_SLOTS: usize = HOTBAR_SLOTS + STORAGE_SLOTS;
/// Maximum number of identical blocks that fit in one slot.
pub const STACK_MAX: u32 = 64;

/// One inventory slot: a `(block, count)` stack, or `None` when empty.
pub type Slot = Option<(BlockId, u32)>;

// --- The model --------------------------------------------------------------

/// How many of `item` the slot `s` holds.
pub open spec fn slot_amount(s: Slot, item: BlockId) -> nat {
    match s {
        Some((b, n)) => if b == item { n as nat } else { 0 },
        None => 0,
    }
}

/// How many of `item` the slots `s` hold altogether.
pub open spec fn total(s: Seq<Slot>, item: BlockId) -> nat
    decreases s.len(),
{
    if s.len() == 0 {
        0
    } else {
        total(s.drop_last(), item) + slot_amount(s.last(), item)
    }
}

/// The smaller of two naturals.
pub open spec fn min_nat(a: nat, b: nat) -> nat {
    if a <= b { a } else { b }
}

/// Free space for `block` in slot `s` that topping up may use: the headroom of a
/// matching, not-yet-full stack.
pub open spec fn top_up_room(s: Slot, block: BlockId, cap: u32) -> nat {
    match s {
        Some((b, n)) => if b == block && n < cap { (cap - n) as nat } else { 0 },
        None => 0,
    }
}

/// Tops up slot `s` with up to `c` of `block`; returns the new slot and what is left.
pub open spec fn top_up_slot(s: Slot, block: BlockId, c: nat, cap: u32) -> (Slot, nat) {
    match s {
        Some((b, n)) => if b == block && n < cap {
            let moved = min_nat((cap - n) as nat, c);
            (Some((b, (n + moved) as u32)), (c - moved) as nat)
        } else {
            (s, c)
        },
        None => (s, c),
    }
}

/// Tops up every matching stack in slot order.
pub open spec fn top_up(s: Seq<Slot>, block: BlockId, c: nat, cap: u32) -> (Seq<Slot>, nat)
    decreases s.len(),
{
    if s.len() == 0 {
        (s, c)
    } else {
        let pre = top_up(s.drop_last(), block, c, cap);
        let last = top_up_slot(s.last(), block, pre.1, cap);
        (pre.0.push(last.0), last.1)
    }
}

/// Room an empty slot offers to a stack of capacity `cap`.
pub open spec fn empty_room(s: Slot, cap: u32) -> nat {
    if s is None { cap as nat } else { 0 }
}

/// Puts up to one stack of `block` into slot `s` if it is empty and `c > 0`.
pub open spec fn fill_slot(s: Slot, block: BlockId, c: nat, cap: u32) -> (Slot, nat) {
    if s is None && c > 0 {
        let moved = min_nat(c, cap as nat);
        (Some((block, moved as u32)), (c - moved) as nat)
    } else {
        (s, c)
    }
}

/// Fills empty slots in slot order.
pub open spec fn fill(s: Seq<Slot>, block: BlockId, c: nat, cap: u32) -> (Seq<Slot>, nat)
    decreases s.len(),
{
    if s.len() == 0 {
        (s, c)
    } else {
        let pre = fill(s.drop_last(), block, c, cap);
        let last = fill_slot(s.last(), block, pre.1, cap);
        (pre.0.push(last.0), last.1)
    }
}

/// The slots after adding `count` of `block`, and the amount that did not fit:
/// matching stacks are topped up first, in slot order, then empty slots filled.
pub open spec fn spec_add(s: Seq<Slot>, block: BlockId, count: u32) -> (Seq<Slot>, nat) {
    let cap = spec_max_stack(block);
    let t = top_up(s, block, count as nat, cap);
    fill(t.0, block, t.1, cap)
}

/// Takes up to `c` of `item` from slot `s`, emptying it when it reaches zero.
pub open spec fn draw_slot(s: Slot, item: BlockId, c: nat) -> (Slot, nat) {
    match s {
        Some((b, n)) => if b == item && c > 0 {
            let taken = min_nat(n as nat, c);
            let left = (n - taken) as u32;
            (if left == 0 { None } else { Some((b, left)) }, (c - taken) as nat)
        } else {
            (s, c)
        },
        None => (s, c),
    }
}

/// Draws up to `c` of `item` from the matching stacks in slot order.
pub open spec fn draw(s: Seq<Slot>, item: BlockId, c: nat) -> (Seq<Slot>, nat)
    decreases s.len(),
{
    if s.len() == 0 {
        (s, c)
    } else {
        let pre = draw(s.drop_last(), item, c);
        let last = draw_slot(s.last(), item, pre.1);
        (pre.0.push(last.0), last.1)
    }
}

/// A slot list brought to exactly `TOTAL_SLOTS` entries: truncated, or padded
/// with empty slots.
pub open spec fn normalized(s: Seq<Slot>) -> Seq<Slot> {
    if s.len() >= TOTAL_SLOTS {
        s.take(TOTAL_SLOTS as int)
    } else {
        s + Seq::new((TOTAL_SLOTS - s.len()) as nat, |i: int| None)
    }
}

/// The slots after moving the stack in `from` onto `to`: same-block stacks merge
/// up to the block's cap (the rest stays in `from`), an empty `to` receives the
/// whole stack, and otherwise the two slots swap. Equal or out-of-range indices
/// and an empty source leave the slots as they are.
pub open spec fn spec_move(s: Seq<Slot>, from: int, to: int) -> Seq<Slot> {
    if from == to || !(0 <= from < s.len()) || !(0 <= to < s.len()) {
        s
    } else {
        match s[from] {
            None => s,
            Some((fb, fc)) => match s[to] {
                None => s.update(to, Some((fb, fc))).update(from, None),
                Some((tb, tc)) => if tb == fb {
                    let cap = spec_max_stack(tb);
                    let room: nat = if tc <= cap { (cap - tc) as nat } else { 0 };
                    let moved = min_nat(room, fc as nat);
                    let left = (fc - moved) as u32;
                    s.update(to, Some((tb, (tc + moved) as u32))).update(
                        from,
                        if left == 0 { None } else { Some((fb, left)) },
                    )
                } else {
                    s.update(from, s[to]).update(to, s[from])
                },
            },
        }
    }
}

/// The slots after taking one item from `slot`, and the item taken.
pub open spec fn spec_take_one(s: Seq<Slot>, slot: int) -> (Seq<Slot>, Option<BlockId>) {
    if !(0 <= slot < s.len()) {
        (s, None)
    } else {
        match s[slot] {
            None => (s, None),
            Some((b, n)) => (
                s.update(slot, if n == 1 { None } else { Some((b, (n - 1) as u32)) }),
                Some(b),
            ),
        }
    }
}

/// Whether taking one item from `slot` is defined: the slot, if it is in range
/// and holds a stack, holds at least one item.
pub open spec fn take_one_defined(s: Seq<Slot>, slot: int) -> bool {
    (0 <= slot < s.len() && s[slot] is Some) ==> s[slot]->Some_0.1 >= 1
}

/// Whether slot `x` is empty or holds a stack of at least one and at most its
/// block's capacity.
pub open spec fn stack_in_bounds(x: Slot) -> bool {
    match x {
        Some((b, n)) => 1 <= n && n <= spec_max_stack(b),
        None => true,
    }
}

/// Whether every slot of `s` is empty or holds a stack within its bounds.
pub open spec fn stacks_in_bounds(s: Seq<Slot>) -> bool {
    forall|i: int| 0 <= i < s.len() ==> stack_in_bounds(#[trigger] s[i])
}

// --- Lemmas -------------------------------------------------------------------

proof fn lemma_total_push(s: Seq<Slot>, x: Slot, item: BlockId)
    ensures
        total(s.push(x), item) == total(s, item) + slot_amount(x, item),
{
    assert(s.push(x).drop_last() =~= s);
}

proof fn lemma_total_update(s: Seq<Slot>, i: int, x: Slot, item: BlockId)
    requires
        0 <= i < s.len(),
    ensures
        total(s.update(i, x), item) + slot_amount(s[i], item) == total(s, item) + slot_amount(
            x,
            item,
        ),
    decreases s.len(),
{
    let u = s.update(i, x);
    if i == s.len() - 1 {
        assert(u.drop_last() =~= s.drop_last());
    } else {
        lemma_total_update(s.drop_last(), i, x, item);
        assert(u.drop_last() =~= s.drop_last().update(i, x));
    }
}

proof fn lemma_total_prefix(s: Seq<Slot>, i: int, item: BlockId)
    requires
        0 <= i <= s.len(),
    ensures
        total(s.take(i), item) <= total(s, item),
    decreases s.len(),
{
    if i < s.len() {
        assert(s.take(i) =~= s.drop_last().take(i));
        lemma_total_prefix(s.drop_last(), i, item);
    } else {
        assert(s.take(i) =~= s);
    }
}

proof fn lemma_top_up(s: Seq<Slot>, block: BlockId, c: nat, cap: u32)
    ensures
        top_up(s, block, c, cap).0.len() == s.len(),
        total(top_up(s, block, c, cap).0, block) + top_up(s, block, c, cap).1 == total(s, block)
            + c,
        forall|x: BlockId| x != block ==> total(#[trigger] top_up(s, block, c, cap).0, x) == total(s, x),
        top_up(s, block, c, cap).1 == (if c <= room_top(s, block, cap) { 0 } else { c - room_top(s, block, cap) }),
        room_fill(top_up(s, block, c, cap).0, cap) == room_fill(s, cap),
    decreases s.len(),
{
    if s.len() > 0 {
        let pre = top_up(s.drop_last(), block, c, cap);
        lemma_top_up(s.drop_last(), block, c, cap);
        let last = top_up_slot(s.last(), block, pre.1, cap);
        assert forall|x: BlockId| x != block implies total(#[trigger] top_up(s, block, c, cap).0, x) == total(s, x) by {
            lemma_total_push(pre.0, last.0, x);
            assert(total(top_up(s.drop_last(), block, c, cap).0, x) == total(s.drop_last(), x));
            assert(slot_amount(last.0, x) == slot_amount(s.last(), x));
        }
        lemma_total_push(pre.0, last.0, block);
        assert(pre.0.push(last.0).drop_last() =~= pre.0);
    }
}

/// Headroom of the matching, not-yet-full stacks.
pub open spec fn room_top(s: Seq<Slot>, block: BlockId, cap: u32) -> nat
    decreases s.len(),
{
    if s.len() == 0 {
        0
    } else {
        room_top(s.drop_last(), block, cap) + top_up_room(s.last(), block, cap)
    }
}

/// Room the empty slots offer to stacks of capacity `cap`.
pub open spec fn room_fill(s: Seq<Slot>, cap: u32) -> nat
    decreases s.len(),
{
    if s.len() == 0 {
        0
    } else {
        room_fill(s.drop_last(), cap) + empty_room(s.last(), cap)
    }
}

proof fn lemma_fill(s: Seq<Slot>, block: BlockId, c: nat, cap: u32)
    requires
        cap >= 1,
    ensures
        fill(s, block, c, cap).0.len() == s.len(),
        total(fill(s, block, c, cap).0, block) + fill(s, block, c, cap).1 == total(s, block) + c,
        forall|x: BlockId|
            x != block ==> total(#[trigger] fill(s, block, c, cap).0, x) == total(s, x),
        fill(s, block, c, cap).1 == (if c <= room_fill(s, cap) {
            0
        } else {
            c - room_fill(s, cap)
        }),
    decreases s.len(),
{
    if s.len() > 0 {
        let pre = fill(s.drop_last(), block, c, cap);
        lemma_fill(s.drop_last(), block, c, cap);
        let last = fill_slot(s.last(), block, pre.1, cap);
        assert forall|x: BlockId| x != block implies total(#[trigger] fill(s, block, c, cap).0, x)
            == total(s, x) by {
            lemma_total_push(pre.0, last.0, x);
            assert(total(fill(s.drop_last(), block, c, cap).0, x) == total(s.drop_last(), x));
            assert(slot_amount(last.0, x) == slot_amount(s.last(), x));
        }
        lemma_total_push(pre.0, last.0, block);
    }
}

proof fn lemma_draw(s: Seq<Slot>, item: BlockId, c: nat)
    ensures
        draw(s, item, c).0.len() == s.len(),
        total(draw(s, item, c).0, item) + c == total(s, item) + draw(s, item, c).1,
        forall|x: BlockId| x != item ==> total(#[trigger] draw(s, item, c).0, x) == total(s, x),
        draw(s, item, c).1 == (if c <= total(s, item) { 0 } else { c - total(s, item) }),
    decreases s.len(),
{
    if s.len() > 0 {
        let pre = draw(s.drop_last(), item, c);
        lemma_draw(s.drop_last(), item, c);
        let last = draw_slot(s.last(), item, pre.1);
        assert forall|x: BlockId| x != item implies total(#[trigger] draw(s, item, c).0, x) == total(
            s,
            x,
        ) by {
            lemma_total_push(pre.0, last.0, x);
            assert(total(draw(s.drop_last(), item, c).0, x) == total(s.drop_last(), x));
            assert(slot_amount(last.0, x) == slot_amount(s.last(), x));
        }
        lemma_total_push(pre.0, last.0, item);
    }
}

proof fn lemma_push_in_bounds(s: Seq<Slot>, x: Slot)
    requires
        stacks_in_bounds(s),
        stack_in_bounds(x),
    ensures
        stacks_in_bounds(s.push(x)),
{
    assert forall|i: int| 0 <= i < s.push(x).len() implies stack_in_bounds(#[trigger] s.push(x)[i]) by {
        if i < s.len() {
            assert(s.push(x)[i] == s[i]);
        }
    }
}

proof fn lemma_top_up_in_bounds(s: Seq<Slot>, block: BlockId, c: nat)
    requires
        stacks_in_bounds(s),
    ensures
        stacks_in_bounds(top_up(s, block, c, spec_max_stack(block)).0),
    decreases s.len(),
{
    if s.len() > 0 {
        let cap = spec_max_stack(block);
        assert(stack_in_bounds(s[s.len() - 1]));
        assert forall|i: int| 0 <= i < s.drop_last().len() implies stack_in_bounds(#[trigger] s.drop_last()[i]) by {
            assert(stack_in_bounds(s[i]));
        }
        lemma_top_up_in_bounds(s.drop_last(), block, c);
        let pre = top_up(s.drop_last(), block, c, cap);
        lemma_push_in_bounds(pre.0, top_up_slot(s.last(), block, pre.1, cap).0);
    }
}

proof fn lemma_fill_in_bounds(s: Seq<Slot>, block: BlockId, c: nat)
    requires
        stacks_in_bounds(s),
    ensures
        stacks_in_bounds(fill(s, block, c, spec_max_stack(block)).0),
    decreases s.len(),
{
    if s.len() > 0 {
        let cap = spec_max_stack(block);
        assert(stack_in_bounds(s[s.len() - 1]));
        assert forall|i: int| 0 <= i < s.drop_last().len() implies stack_in_bounds(#[trigger] s.drop_last()[i]) by {
            assert(stack_in_bounds(s[i]));
        }
        lemma_fill_in_bounds(s.drop_last(), block, c);
        let pre = fill(s.drop_last(), block, c, cap);
        lemma_push_in_bounds(pre.0, fill_slot(s.last(), block, pre.1, cap).0);
    }
}

proof fn lemma_draw_in_bounds(s: Seq<Slot>, item: BlockId, c: nat)
    requires
        stacks_in_bounds(s),
    ensures
        stacks_in_bounds(draw(s, item, c).0),
    decreases s.len(),
{
    if s.len() > 0 {
        assert(stack_in_bounds(s[s.len() - 1]));
        assert forall|i: int| 0 <= i < s.drop_last().len() implies stack_in_bounds(#[trigger] s.drop_last()[i]) by {
            assert(stack_in_bounds(s[i]));
        }
        lemma_draw_in_bounds(s.drop_last(), item, c);
        let pre = draw(s.drop_last(), item, c);
        lemma_push_in_bounds(pre.0, draw_slot(s.last(), item, pre.1).0);
    }
}

// --- Laws ---------------------------------------------------------------------

/// Adding keeps every item: what was stored plus what came back equals what was
/// held plus what was offered, other items are untouched, and the amount that
/// comes back is exactly the part of `count` beyond the room the slots offered
/// (the headroom of matching stacks plus a full stack per empty slot).
pub proof fn law_add_conserves_items(s: Seq<Slot>, block: BlockId, count: u32)
    ensures
        spec_add(s, block, count).0.len() == s.len(),
        total(spec_add(s, block, count).0, block) + spec_add(s, block, count).1 == total(s, block)
            + count,
        forall|x: BlockId|
            x != block ==> total(#[trigger] spec_add(s, block, count).0, x) == total(s, x),
        ({
            let room = room_top(s, block, spec_max_stack(block)) + room_fill(
                s,
                spec_max_stack(block),
            );
            spec_add(s, block, count).1 == if count <= room {
                0
            } else {
                count - room
            }
        }),
{
    let cap = spec_max_stack(block);
    let t = top_up(s, block, count as nat, cap);
    lemma_top_up(s, block, count as nat, cap);
    lemma_fill(t.0, block, t.1, cap);
    assert forall|x: BlockId| x != block implies total(#[trigger] spec_add(s, block, count).0, x)
        == total(s, x) by {
        assert(total(top_up(s, block, count as nat, cap).0, x) == total(s, x));
        assert(total(fill(t.0, block, t.1, cap).0, x) == total(t.0, x));
    }
}

/// Removing `count` of an item held at least `count` times leaves exactly
/// `count` fewer of it and every other item as it was.
pub proof fn law_remove_takes_exactly(s: Seq<Slot>, item: BlockId, count: u32)
    requires
        count <= total(s, item),
    ensures
        draw(s, item, count as nat).1 == 0,
        total(draw(s, item, count as nat).0, item) == total(s, item) - count,
        forall|x: BlockId|
            x != item ==> total(#[trigger] draw(s, item, count as nat).0, x) == total(s, x),
{
    lemma_draw(s, item, count as nat);
}

/// Moving a stack never creates or destroys items: every item's total is the
/// same before and after.
pub proof fn law_move_conserves_items(s: Seq<Slot>, from: int, to: int, item: BlockId)
    ensures
        spec_move(s, from, to).len() == s.len(),
        total(spec_move(s, from, to), item) == total(s, item),
{
    if from == to || !(0 <= from < s.len()) || !(0 <= to < s.len()) {
    } else {
        match s[from] {
            None => {},
            Some((fb, fc)) => match s[to] {
                None => {
                    let u = s.update(to, Some((fb, fc)));
                    lemma_total_update(s, to, Some((fb, fc)), item);
                    lemma_total_update(u, from, None, item);
                },
                Some((tb, tc)) => if tb == fb {
                    let cap = spec_max_stack(tb);
                    let room: nat = if tc <= cap { (cap - tc) as nat } else { 0 };
                    let moved = min_nat(room, fc as nat);
                    let left = (fc - moved) as u32;
                    let x1: Slot = Some((tb, (tc + moved) as u32));
                    let x2: Slot = if left == 0 { None } else { Some((fb, left)) };
                    let u = s.update(to, x1);
                    lemma_total_update(s, to, x1, item);
                    lemma_total_update(u, from, x2, item);
                } else {
                    let u = s.update(from, s[to]);
                    lemma_total_update(s, from, s[to], item);
                    lemma_total_update(u, to, s[from], item);
                },
            },
        }
    }
}

/// Normalizing a full-length slot list changes nothing, so rebuilding an
/// inventory from its own snapshot gives back the same inventory.
pub proof fn law_snapshot_round_trips(s: Seq<Slot>)
    requires
        s.len() == TOTAL_SLOTS,
    ensures
        normalized(s) == s,
        normalized(normalized(s)) == normalized(s),
{
    assert(s.take(TOTAL_SLOTS as int) =~= s);
}

/// Taking one item from a stack leaves exactly one fewer of that item and every
/// other item as it was.
pub proof fn law_take_one_takes_one(s: Seq<Slot>, slot: int, item: BlockId)
    requires
        take_one_defined(s, slot),
    ensures
        spec_take_one(s, slot).0.len() == s.len(),
        spec_take_one(s, slot).1 == Some(item) ==> total(spec_take_one(s, slot).0, item) + 1
            == total(s, item),
        spec_take_one(s, slot).1 != Some(item) ==> total(spec_take_one(s, slot).0, item) == total(
            s,
            item,
        ),
{
    if 0 <= slot < s.len() {
        match s[slot] {
            None => {},
            Some((b, n)) => {
                lemma_total_update(
                    s,
                    slot,
                    if n == 1 { None } else { Some((b, (n - 1) as u32)) },
                    item,
                );
            },
        }
    }
}

/// Every operation keeps stacks within bounds: when each slot is empty or holds
/// between one item and its block's capacity, the same holds after adding,
/// removing, moving a stack or taking one item.
pub proof fn law_stacks_stay_in_bounds(
    s: Seq<Slot>,
    block: BlockId,
    count: u32,
    from: int,
    to: int,
    slot: int,
)
    requires
        stacks_in_bounds(s),
    ensures
        stacks_in_bounds(spec_add(s, block, count).0),
        stacks_in_bounds(draw(s, block, count as nat).0),
        stacks_in_bounds(spec_move(s, from, to)),
        take_one_defined(s, slot),
        stacks_in_bounds(spec_take_one(s, slot).0),
{
    let cap = spec_max_stack(block);
    lemma_top_up_in_bounds(s, block, count as nat);
    let t = top_up(s, block, count as nat, cap);
    lemma_fill_in_bounds(t.0, block, t.1);
    lemma_draw_in_bounds(s, block, count as nat);
    if 0 <= slot < s.len() {
        assert(stack_in_bounds(s[slot]));
    }
    if !(from == to || !(0 <= from < s.len()) || !(0 <= to < s.len())) {
        assert(stack_in_bounds(s[from]));
        assert(stack_in_bounds(s[to]));
        let m = spec_move(s, from, to);
        assert forall|i: int| 0 <= i < m.len() implies stack_in_bounds(#[trigger] m[i]) by {
            if i != from && i != to {
                assert(stack_in_bounds(s[i]));
            }
        }
    }
    let u = spec_take_one(s, slot).0;
    assert forall|i: int| 0 <= i < u.len() implies stack_in_bounds(#[trigger] u[i]) by {
        assert(stack_in_bounds(s[i]));
    }
}

/// What topping up does slot by slot: empty slots stay empty, other blocks'
/// stacks are untouched, a stack keeps its block, and when anything is left
/// over every stack of `block` is full.
proof fn lemma_top_up_slots(s: Seq<Slot>, block: BlockId, c: nat)
    requires
        stacks_in_bounds(s),
    ensures
        top_up(s, block, c, spec_max_stack(block)).0.len() == s.len(),
        top_up(s, block, c, spec_max_stack(block)).1 <= c,
        forall|i: int| 0 <= i < s.len() ==> (s[i] is None <==> (#[trigger] top_up(s, block, c, spec_max_stack(block)).0[i]) is None),
        forall|i: int| 0 <= i < s.len() && s[i] is Some ==>
            (#[trigger] top_up(s, block, c, spec_max_stack(block)).0[i])->Some_0.0 == s[i]->Some_0.0,
        forall|i: int| 0 <= i < s.len() && s[i] is Some && s[i]->Some_0.0 != block ==>
            #[trigger] top_up(s, block, c, spec_max_stack(block)).0[i] == s[i],
        top_up(s, block, c, spec_max_stack(block)).1 > 0 ==> forall|i: int| 0 <= i < s.len()
            && (#[trigger] top_up(s, block, c, spec_max_stack(block)).0[i]) is Some
            && top_up(s, block, c, spec_max_stack(block)).0[i]->Some_0.0 == block
            ==> top_up(s, block, c, spec_max_stack(block)).0[i]->Some_0.1 == spec_max_stack(block),
    decreases s.len(),
{
    let cap = spec_max_stack(block);
    lemma_top_up(s, block, c, cap);
    if s.len() > 0 {
        let pre = s.drop_last();
        assert forall|i: int| 0 <= i < pre.len() implies stack_in_bounds(#[trigger] pre[i]) by {
            assert(stack_in_bounds(s[i]));
        }
        lemma_top_up_slots(pre, block, c);
        let p = top_up(pre, block, c, cap);
        let last = top_up_slot(s.last(), block, p.1, cap);
        let u = top_up(s, block, c, cap).0;
        assert(u == p.0.push(last.0));
        assert(stack_in_bounds(s[s.len() - 1]));
        assert forall|i: int| 0 <= i < s.len() implies (s[i] is None <==> (#[trigger] u[i]) is None) by {
            if i < pre.len() {
                assert(u[i] == p.0[i] && s[i] == pre[i]);
            }
        }
        assert forall|i: int| 0 <= i < s.len() && s[i] is Some implies (#[trigger] u[i])->Some_0.0 == s[i]->Some_0.0 by {
            if i < pre.len() {
                assert(u[i] == p.0[i] && s[i] == pre[i]);
            }
        }
        assert forall|i: int| 0 <= i < s.len() && s[i] is Some && s[i]->Some_0.0 != block implies #[trigger] u[i] == s[i] by {
            if i < pre.len() {
                assert(u[i] == p.0[i] && s[i] == pre[i]);
            }
        }
        if last.1 > 0 {
            assert forall|i: int| 0 <= i < s.len() && (#[trigger] u[i]) is Some && u[i]->Some_0.0 == block
                implies u[i]->Some_0.1 == cap by {
                if i < pre.len() {
                    assert(u[i] == p.0[i]);
                }
            }
        }
    }
}

/// What filling does slot by slot: stacks already there stay; a slot is newly
/// filled only when something was left to place and every earlier empty slot
/// was filled; a newly filled slot holds `block`; and when anything is left
/// over, every slot holds a stack and each newly filled one is full.
proof fn lemma_fill_slots(u: Seq<Slot>, block: BlockId, c: nat)
    ensures
        fill(u, block, c, spec_max_stack(block)).0.len() == u.len(),
        fill(u, block, c, spec_max_stack(block)).1 <= c,
        forall|i: int| 0 <= i < u.len() && u[i] is Some ==> #[trigger] fill(u, block, c, spec_max_stack(block)).0[i] == u[i],
        forall|i: int| 0 <= i < u.len() && u[i] is None && (#[trigger] fill(u, block, c, spec_max_stack(block)).0[i]) is Some ==> ({
            &&& c > 0
            &&& fill(u, block, c, spec_max_stack(block)).0[i]->Some_0.0 == block
            &&& forall|j: int| 0 <= j < i && u[j] is None ==> (#[trigger] fill(u, block, c, spec_max_stack(block)).0[j]) is Some
        }),
        fill(u, block, c, spec_max_stack(block)).1 > 0 ==> forall|i: int| 0 <= i < u.len() ==> ({
            &&& (#[trigger] fill(u, block, c, spec_max_stack(block)).0[i]) is Some
            &&& u[i] is None ==> fill(u, block, c, spec_max_stack(block)).0[i]->Some_0.1 == spec_max_stack(block)
        }),
    decreases u.len(),
{
    let cap = spec_max_stack(block);
    if u.len() > 0 {
        let pre = u.drop_last();
        lemma_fill_slots(pre, block, c);
        let p = fill(pre, block, c, cap);
        let last = fill_slot(u.last(), block, p.1, cap);
        let t = fill(u, block, c, cap).0;
        assert(t == p.0.push(last.0));
        let n = u.len() - 1;
        assert(u[n] == u.last());
        assert forall|i: int| 0 <= i < u.len() && u[i] is Some implies #[trigger] t[i] == u[i] by {
            if i < pre.len() {
                assert(t[i] == p.0[i] && u[i] == pre[i]);
            }
        }
        assert forall|i: int| 0 <= i < u.len() && u[i] is None && (#[trigger] t[i]) is Some implies ({
            &&& c > 0
            &&& t[i]->Some_0.0 == block
            &&& forall|j: int| 0 <= j < i && u[j] is None ==> (#[trigger] t[j]) is Some
        }) by {
            if i < pre.len() {
                assert(t[i] == p.0[i] && u[i] == pre[i]);
                assert forall|j: int| 0 <= j < i && u[j] is None implies (#[trigger] t[j]) is Some by {
                    assert(t[j] == p.0[j] && u[j] == pre[j]);
                }
            } else {
                assert(p.1 > 0);
                assert forall|j: int| 0 <= j < i && u[j] is None implies (#[trigger] t[j]) is Some by {
                    assert(t[j] == p.0[j] && u[j] == pre[j]);
                    assert(p.0[j] is Some);
                }
            }
        }
        if last.1 > 0 {
            assert forall|i: int| 0 <= i < u.len() implies ({
                &&& (#[trigger] t[i]) is Some
                &&& u[i] is None ==> t[i]->Some_0.1 == cap
            }) by {
                if i < pre.len() {
                    assert(t[i] == p.0[i] && u[i] == pre[i]);
                }
            }
        }
    }
}

/// What drawing does slot by slot: no stack is left holding zero, other items'
/// slots are untouched, a slot of `item` changes only once every earlier slot
/// of `item` is emptied, and while something is still owed every slot of
/// `item` is emptied.
proof fn lemma_draw_slots(s: Seq<Slot>, item: BlockId, c: nat)
    requires
        forall|i: int| 0 <= i < s.len() && (#[trigger] s[i]) is Some ==> s[i]->Some_0.1 >= 1,
    ensures
        draw(s, item, c).0.len() == s.len(),
        forall|i: int| 0 <= i < s.len() && (#[trigger] draw(s, item, c).0[i]) is Some
            ==> draw(s, item, c).0[i]->Some_0.1 >= 1,
        forall|i: int| 0 <= i < s.len() && !(s[i] is Some && s[i]->Some_0.0 == item) ==> #[trigger] draw(s, item, c).0[i] == s[i],
        draw(s, item, c).1 > 0 ==> forall|i: int| 0 <= i < s.len() && s[i] is Some && s[i]->Some_0.0 == item
            ==> (#[trigger] draw(s, item, c).0[i]) is None,
        forall|i: int, j: int| 0 <= j < i < s.len() && s[j] is Some && s[j]->Some_0.0 == item
            && #[trigger] draw(s, item, c).0[i] != s[i] ==> (#[trigger] draw(s, item, c).0[j]) is None,
    decreases s.len(),
{
    if s.len() > 0 {
        let pre = s.drop_last();
        assert forall|i: int| 0 <= i < pre.len() && (#[trigger] pre[i]) is Some implies pre[i]->Some_0.1 >= 1 by {
            assert(pre[i] == s[i]);
        }
        lemma_draw_slots(pre, item, c);
        let p = draw(pre, item, c);
        let last = draw_slot(s.last(), item, p.1);
        let t = draw(s, item, c).0;
        assert(t == p.0.push(last.0));
        let n = s.len() - 1;
        assert(s[n] == s.last());
        assert forall|i: int| 0 <= i < s.len() && (#[trigger] t[i]) is Some implies t[i]->Some_0.1 >= 1 by {
            if i < pre.len() {
                assert(t[i] == p.0[i]);
            }
        }
        assert forall|i: int| 0 <= i < s.len() && !(s[i] is Some && s[i]->Some_0.0 == item) implies #[trigger] t[i] == s[i] by {
            if i < pre.len() {
                assert(t[i] == p.0[i] && s[i] == pre[i]);
            }
        }
        if last.1 > 0 {
            assert forall|i: int| 0 <= i < s.len() && s[i] is Some && s[i]->Some_0.0 == item implies (#[trigger] t[i]) is None by {
                if i < pre.len() {
                    assert(t[i] == p.0[i] && s[i] == pre[i]);
                }
            }
        }
        assert forall|i: int, j: int| 0 <= j < i < s.len() && s[j] is Some && s[j]->Some_0.0 == item
            && #[trigger] t[i] != s[i] implies (#[trigger] t[j]) is None by {
            assert(t[j] == p.0[j] && s[j] == pre[j]);
            if i < pre.len() {
                assert(t[i] == p.0[i] && s[i] == pre[i]);
            } else {
                assert(p.1 > 0);
            }
        }
    }
}

// --- Laws on slot order ------------------------------------------------------------

/// Adding fills slots in order: other blocks' stacks are untouched; an empty
/// slot receives `block` only once every stack of `block` that was there is
/// full and every earlier empty slot is filled; and something comes back only
/// when every slot holds a stack and every stack of `block` is full.
pub proof fn law_add_fills_in_order(s: Seq<Slot>, block: BlockId, count: u32)
    requires
        stacks_in_bounds(s),
    ensures
        spec_add(s, block, count).1 <= count,
        forall|i: int| 0 <= i < s.len() && s[i] is Some && s[i]->Some_0.0 != block
            ==> #[trigger] spec_add(s, block, count).0[i] == s[i],
        forall|i: int| 0 <= i < s.len() && s[i] is None && (#[trigger] spec_add(s, block, count).0[i]) is Some ==> ({
            &&& spec_add(s, block, count).0[i]->Some_0.0 == block
            &&& forall|j: int| 0 <= j < s.len() && s[j] is Some && s[j]->Some_0.0 == block
                ==> #[trigger] spec_add(s, block, count).0[j] == Some((block, spec_max_stack(block)))
            &&& forall|j: int| 0 <= j < i && s[j] is None ==> (#[trigger] spec_add(s, block, count).0[j]) is Some
        }),
        spec_add(s, block, count).1 > 0 ==> forall|i: int| 0 <= i < s.len() ==> ({
            &&& (#[trigger] spec_add(s, block, count).0[i]) is Some
            &&& spec_add(s, block, count).0[i]->Some_0.0 == block
                ==> spec_add(s, block, count).0[i]->Some_0.1 == spec_max_stack(block)
        }),
{
    let cap = spec_max_stack(block);
    lemma_top_up_slots(s, block, count as nat);
    let tu = top_up(s, block, count as nat, cap);
    let u = tu.0;
    let c1 = tu.1;
    lemma_fill_slots(u, block, c1);
    let t = spec_add(s, block, count).0;
    assert(t == fill(u, block, c1, cap).0);
    assert forall|i: int| 0 <= i < s.len() && s[i] is Some && s[i]->Some_0.0 != block implies #[trigger] t[i] == s[i] by {
        assert(u[i] == s[i]);
    }
    assert forall|i: int| 0 <= i < s.len() && s[i] is None && (#[trigger] t[i]) is Some implies ({
        &&& t[i]->Some_0.0 == block
        &&& forall|j: int| 0 <= j < s.len() && s[j] is Some && s[j]->Some_0.0 == block ==> #[trigger] t[j] == Some((block, cap))
        &&& forall|j: int| 0 <= j < i && s[j] is None ==> (#[trigger] t[j]) is Some
    }) by {
        assert(u[i] is None);
        assert forall|j: int| 0 <= j < s.len() && s[j] is Some && s[j]->Some_0.0 == block implies #[trigger] t[j] == Some((block, cap)) by {
            assert(u[j] is Some && u[j]->Some_0.0 == block);
            assert(u[j]->Some_0.1 == cap);
            assert(t[j] == u[j]);
        }
        assert forall|j: int| 0 <= j < i && s[j] is None implies (#[trigger] t[j]) is Some by {
            assert(u[j] is None);
        }
    }
    if spec_add(s, block, count).1 > 0 {
        assert forall|i: int| 0 <= i < s.len() implies ({
            &&& (#[trigger] t[i]) is Some
            &&& t[i]->Some_0.0 == block ==> t[i]->Some_0.1 == cap
        }) by {
            if u[i] is Some {
                assert(t[i] == u[i]);
            }
        }
    }
}

/// Removing draws from stacks in slot order: no stack is left holding zero,
/// slots of other items are untouched, and a slot changes only once every
/// earlier slot of `item` is emptied.
pub proof fn law_remove_draws_in_order(s: Seq<Slot>, item: BlockId, count: u32)
    requires
        forall|i: int| 0 <= i < s.len() && (#[trigger] s[i]) is Some ==> s[i]->Some_0.1 >= 1,
    ensures
        forall|i: int| 0 <= i < s.len() && (#[trigger] draw(s, item, count as nat).0[i]) is Some
            ==> draw(s, item, count as nat).0[i]->Some_0.1 >= 1,
        forall|i: int| 0 <= i < s.len() && !(s[i] is Some && s[i]->Some_0.0 == item)
            ==> #[trigger] draw(s, item, count as nat).0[i] == s[i],
        forall|i: int, j: int| 0 <= j < i < s.len() && s[j] is Some && s[j]->Some_0.0 == item
            && #[trigger] draw(s, item, count as nat).0[i] != s[i] ==> (#[trigger] draw(s, item, count as nat).0[j]) is None,
{
    lemma_draw_slots(s, item, count as nat);
}

/// What moving a stack between two different in-range slots does, with a stack
/// in `from` (of `fc` items of block `b`):
/// - onto an empty slot, the whole stack moves and `from` empties;
/// - onto a stack of `tc` of the same block (within its cap), the stacks merge,
///   never swap: `to` holds `min(cap, tc + fc)` and `from` keeps the rest, or
///   empties when nothing is left;
/// - onto a stack of another block, the two slots swap.
/// No other slot changes; equal or out-of-range indices and an empty source
/// leave every slot as it was.
pub proof fn law_move_merges_relocates_or_swaps(
    s: Seq<Slot>,
    from: int,
    to: int,
    b: BlockId,
    fc: u32,
    tc: u32,
)
    ensures
        spec_move(s, from, to).len() == s.len(),
        (from == to || !(0 <= from < s.len()) || !(0 <= to < s.len()) || s[from] is None)
            ==> spec_move(s, from, to) == s,
        from != to && 0 <= from < s.len() && 0 <= to < s.len() ==> forall|i: int|
            0 <= i < s.len() && i != from && i != to ==> #[trigger] spec_move(s, from, to)[i]
                == s[i],
        from != to && 0 <= from < s.len() && 0 <= to < s.len() && s[from] == Some((b, fc))
            && s[to] is None ==> spec_move(s, from, to)[to] == Some((b, fc)) && spec_move(
            s,
            from,
            to,
        )[from] is None,
        from != to && 0 <= from < s.len() && 0 <= to < s.len() && s[from] == Some((b, fc))
            && s[to] == Some((b, tc)) && tc <= spec_max_stack(b) ==> {
            &&& spec_move(s, from, to)[to] == Some(
                (b, if tc + fc <= spec_max_stack(b) { (tc + fc) as u32 } else { spec_max_stack(b) }),
            )
            &&& spec_move(s, from, to)[from] == if tc + fc <= spec_max_stack(b) {
                None
            } else {
                Some((b, (tc + fc - spec_max_stack(b)) as u32))
            }
        },
        from != to && 0 <= from < s.len() && 0 <= to < s.len() && s[from] is Some && s[to] is Some
            && s[from]->Some_0.0 != s[to]->Some_0.0 ==> spec_move(s, from, to)[to] == s[from]
            && spec_move(s, from, to)[from] == s[to],
{
}

/// Taking one item from a slot takes it from that slot and no other: an
/// in-range slot holding `n >= 1` of block `b` answers `b` and is left with
/// `n - 1` (emptied at zero), every other slot is unchanged; an empty or
/// out-of-range slot answers nothing and changes nothing.
pub proof fn law_take_one_from_that_slot(s: Seq<Slot>, slot: int, b: BlockId, n: u32)
    ensures
        spec_take_one(s, slot).0.len() == s.len(),
        !(0 <= slot < s.len()) || s[slot] is None ==> spec_take_one(s, slot) == (s, None::<BlockId>),
        0 <= slot < s.len() && s[slot] == Some((b, n)) && n >= 1 ==> {
            &&& spec_take_one(s, slot).1 == Some(b)
            &&& spec_take_one(s, slot).0[slot] == if n == 1 {
                None
            } else {
                Some((b, (n - 1) as u32))
            }
            &&& forall|i: int|
                0 <= i < s.len() && i != slot ==> #[trigger] spec_take_one(s, slot).0[i] == s[i]
        },
{
}

// --- The inventory ------------------------------------------------------------

/// A player's full inventory: a fixed-length list of slots.
pub struct Inventory {
    slots: Vec<Slot>,
}

impl View for Inventory {
    type V = Seq<Slot>;

    closed spec fn view(&self) -> Seq<Slot> {
        self.slots@
    }
}

impl Inventory {
    /// An inventory always has exactly `TOTAL_SLOTS` slots.
    #[verifier::type_invariant]
    spec fn standard_size(self) -> bool {
        self.slots@.len() == TOTAL_SLOTS
    }

    /// An empty inventory of the standard size.
    pub fn new() -> (r: Self)
        ensures
            r@ == Seq::new(TOTAL_SLOTS as nat, |i: int| None::<(BlockId, u32)>),
    {
        let mut slots: Vec<Slot> = Vec::new();
        while slots.len() < TOTAL_SLOTS
            invariant
                slots.len() <= TOTAL_SLOTS,
                forall|j: int| 0 <= j < slots.len() ==> slots@[j] is None,
            decreases TOTAL_SLOTS - slots.len(),
        {
            slots.push(None);
        }
        assert(slots@ =~= Seq::new(TOTAL_SLOTS as nat, |i: int| None::<(BlockId, u32)>));
        Inventory { slots }
    }

    /// Build from a wire/disk slot list, normalizing to exactly `TOTAL_SLOTS`
    /// (padding with empties or truncating) so corrupt or outdated data is safe.
    pub fn from_slots(slots: Vec<Slot>) -> (r: Self)
        ensures
            r@ == normalized(slots@),
            r@.len() == TOTAL_SLOTS,
            slots@.len() == TOTAL_SLOTS ==> r@ == slots@,
    {
        proof {
            if slots@.len() == TOTAL_SLOTS {
                law_snapshot_round_trips(slots@);
            }
        }
        let ghost orig = slots@;
        let mut slots = slots;
        slots.truncate(TOTAL_SLOTS);
        let ghost kept = slots@;
        while slots.len() < TOTAL_SLOTS
            invariant
                slots.len() <= TOTAL_SLOTS,
                kept.len() <= slots.len(),
                slots@.take(kept.len() as int) == kept,
                forall|j: int| kept.len() <= j < slots.len() ==> slots@[j] is None,
            decreases TOTAL_SLOTS - slots.len(),
        {
            slots.push(None);
            assert(slots@.take(kept.len() as int) =~= kept);
        }
        assert(slots@ =~= normalized(orig));
        Inventory { slots }
    }

    /// The slots, hotbar first then storage.
    pub fn slots(&self) -> (r: &[Slot])
        ensures
            r@ == self@,
            r@.len() == TOTAL_SLOTS,
    {
        proof {
            use_type_invariant(self);
        }
        self.slots.as_slice()
    }

    /// A snapshot of the slots for the wire or disk.
    pub fn to_slots(&self) -> (r: Vec<Slot>)
        ensures
            r@ == self@,
            r@.len() == TOTAL_SLOTS,
    {
        proof {
            use_type_invariant(self);
        }
        let mut out: Vec<Slot> = Vec::new();
        let mut i: usize = 0;
        while i < self.slots.len()
            invariant
                i <= self.slots.len(),
                out@ == self.slots@.take(i as int),
            decreases self.slots.len() - i,
        {
            out.push(self.slots[i]);
            i += 1;
            assert(out@ =~= self.slots@.take(i as int));
        }
        assert(out@ =~= self.slots@);
        out
    }

    /// Contents of `slot`, or `None` if empty or out of range.
    pub fn get(&self, slot: usize) -> (r: Slot)
        ensures
            r == (if slot < self@.len() { self@[slot as int] } else { None }),
    {
        if slot < self.slots.len() {
            self.slots[slot]
        } else {
            None
        }
    }

    /// Add `count` of `block`, topping up existing matching stacks first (in slot
    /// order) and then filling empty slots. Returns the amount that did *not*
    /// fit (0 when everything was stored).
    pub fn add(&mut self, block: BlockId, count: u32) -> (left: u32)
        ensures
            final(self)@ == spec_add(old(self)@, block, count).0,
            left as nat == spec_add(old(self)@, block, count).1,
    {
        proof {
            use_type_invariant(&*self);
        }
        let cap = max_stack(block);
        let ghost orig = self.slots@;
        let mut rest = count;
        let mut i: usize = 0;
        while i < self.slots.len()
            invariant
                self.slots.len() == orig.len(),
                orig.len() == TOTAL_SLOTS,
                i <= orig.len(),
                cap == spec_max_stack(block),
                top_up(orig.take(i as int), block, count as nat, cap).0 == self.slots@.take(i as int),
                top_up(orig.take(i as int), block, count as nat, cap).1 == rest as nat,
                forall|j: int| i <= j < orig.len() ==> self.slots@[j] == orig[j],
            decreases self.slots.len() - i,
        {
            let ghost before = self.slots@;
            if let Some((b, n)) = self.slots[i] {
                if b == block && n < cap {
                    let room = cap - n;
                    let moved = if room < rest { room } else { rest };
                    self.slots[i] = Some((b, n + moved));
                    rest = rest - moved;
                }
            }
            proof {
                assert(orig.take(i + 1).drop_last() =~= orig.take(i as int));
                assert(before.take(i as int) =~= self.slots@.take(i as int));
                assert(self.slots@.take(i + 1) =~= self.slots@.take(i as int).push(self.slots@[i as int]));
            }
            i += 1;
        }
        proof {
            assert(orig.take(orig.len() as int) =~= orig);
            assert(self.slots@.take(self.slots@.len() as int) =~= self.slots@);
        }
        let ghost mid = self.slots@;
        let ghost mid_rest = rest as nat;
        let mut i: usize = 0;
        while i < self.slots.len()
            invariant
                self.slots.len() == mid.len(),
                mid.len() == TOTAL_SLOTS,
                i <= mid.len(),
                cap == spec_max_stack(block),
                1 <= cap,
                fill(mid.take(i as int), block, mid_rest, cap).0 == self.slots@.take(i as int),
                fill(mid.take(i as int), block, mid_rest, cap).1 == rest as nat,
                forall|j: int| i <= j < mid.len() ==> self.slots@[j] == mid[j],
            decreases self.slots.len() - i,
        {
            let ghost before = self.slots@;
            if self.slots[i].is_none() && rest > 0 {
                let moved = if rest < cap { rest } else { cap };
                self.slots[i] = Some((block, moved));
                rest = rest - moved;
            }
            proof {
                assert(mid.take(i + 1).drop_last() =~= mid.take(i as int));
                assert(before.take(i as int) =~= self.slots@.take(i as int));
                assert(self.slots@.take(i + 1) =~= self.slots@.take(i as int).push(self.slots@[i as int]));
            }
            i += 1;
        }
        proof {
            assert(mid.take(mid.len() as int) =~= mid);
            assert(self.slots@.take(self.slots@.len() as int) =~= self.slots@);
        }
        rest
    }

    /// Total number of `item` held across every slot.
    pub fn count(&self, item: BlockId) -> (r: u32)
        requires
            total(self@, item) <= u32::MAX,
        ensures
            r == total(self@, item),
    {
        let mut sum: u32 = 0;
        let mut i: usize = 0;
        while i < self.slots.len()
            invariant
                i <= self.slots.len(),
                total(self.slots@, item) <= u32::MAX,
                sum == total(self.slots@.take(i as int), item),
            decreases self.slots.len() - i,
        {
            proof {
                assert(self.slots@.take(i + 1).drop_last() =~= self.slots@.take(i as int));
                lemma_total_prefix(self.slots@, i + 1, item);
            }
            if let Some((b, n)) = self.slots[i] {
                if b == item {
                    sum = sum + n;
                }
            }
            i += 1;
        }
        proof {
            assert(self.slots@.take(i as int) =~= self.slots@);
        }
        sum
    }

    /// Remove `count` of `item`, drawing from matching stacks in slot order.
    /// Removes nothing and returns `false` if fewer than `count` are held.
    pub fn remove(&mut self, item: BlockId, count: u32) -> (ok: bool)
        requires
            total(old(self)@, item) <= u32::MAX,
        ensures
            ok == (count <= total(old(self)@, item)),
            ok ==> final(self)@ == draw(old(self)@, item, count as nat).0,
            !ok ==> final(self)@ == old(self)@,
    {
        if self.count(item) < count {
            return false;
        }
        proof {
            use_type_invariant(&*self);
        }
        let ghost orig = self.slots@;
        let mut rest = count;
        let mut i: usize = 0;
        while i < self.slots.len()
            invariant
                self.slots.len() == orig.len(),
                orig.len() == TOTAL_SLOTS,
                i <= orig.len(),
                draw(orig.take(i as int), item, count as nat).0 == self.slots@.take(i as int),
                draw(orig.take(i as int), item, count as nat).1 == rest as nat,
                forall|j: int| i <= j < orig.len() ==> self.slots@[j] == orig[j],
            decreases self.slots.len() - i,
        {
            let ghost before = self.slots@;
            if let Some((b, n)) = self.slots[i] {
                if b == item && rest > 0 {
                    let taken = if n < rest { n } else { rest };
                    let left = n - taken;
                    rest = rest - taken;
                    self.slots[i] = if left == 0 { None } else { Some((b, left)) };
                }
            }
            proof {
                assert(orig.take(i + 1).drop_last() =~= orig.take(i as int));
                assert(before.take(i as int) =~= self.slots@.take(i as int));
                assert(self.slots@.take(i + 1) =~= self.slots@.take(i as int).push(self.slots@[i as int]));
            }
            i += 1;
        }
        proof {
            assert(orig.take(orig.len() as int) =~= orig);
            assert(self.slots@.take(self.slots@.len() as int) =~= self.slots@);
        }
        true
    }

    /// Remove one item from `slot`, returning its block id (or `None` if the slot
    /// was empty / out of range). Empties the slot when its last item is taken.
    pub fn take_one(&mut self, slot: usize) -> (r: Option<BlockId>)
        requires
            take_one_defined(old(self)@, slot as int),
        ensures
            final(self)@ == spec_take_one(old(self)@, slot as int).0,
            r == spec_take_one(old(self)@, slot as int).1,
    {
        proof {
            use_type_invariant(&*self);
        }
        if slot >= self.slots.len() {
            return None;
        }
        match self.slots[slot] {
            None => None,
            Some((block, n)) => {
                let n = n - 1;
                if n == 0 {
                    self.slots[slot] = None;
                } else {
                    self.slots[slot] = Some((block, n));
                }
                Some(block)
            },
        }
    }

    /// Move the stack in `from` onto `to`. Same-block stacks merge up to the
    /// block's cap (any remainder stays in `from`); an empty `to` receives the
    /// whole stack; otherwise the two slots swap. No-op for equal/out-of-range
    /// indices or an empty source.
    pub fn move_stack(&mut self, from: usize, to: usize)
        ensures
            final(self)@ == spec_move(old(self)@, from as int, to as int),
    {
        proof {
            use_type_invariant(&*self);
        }
        if from == to || from >= self.slots.len() || to >= self.slots.len() {
            return;
        }
        let source = self.slots[from];
        let target = self.slots[to];
        match source {
            None => {},
            Some((fb, fcount)) => match target {
                None => {
                    self.slots[to] = Some((fb, fcount));
                    self.slots[from] = None;
                },
                Some((tb, tcount)) => {
                    if tb == fb {
                        let room = max_stack(tb).saturating_sub(tcount);
                        let moved = if room < fcount { room } else { fcount };
                        self.slots[to] = Some((tb, tcount + moved));
                        let left = fcount - moved;
                        self.slots[from] = if left == 0 { None } else { Some((fb, left)) };
                    } else {
                        self.slots[from] = target;
                        self.slots[to] = source;
                    }
                },
            },
        }
    }
}

impl Default for Inventory {
    fn default() -> (r: Self)
        ensures
            r@ == Seq::new(TOTAL_SLOTS as nat, |i: int| None::<(BlockId, u32)>),
    {
        Self::new()
    }
}

} // verus!
