use survival_cubed::block::{PICKAXE, STICK};
use survival_cubed::inventory::{Inventory, STACK_MAX, TOTAL_SLOTS};
use survival_cubed::protocol::BlockId;

const STONE: BlockId = 1;
const DIRT: BlockId = 2;

#[test]
fn tools_stack_to_one_per_slot() {
    let mut inv = Inventory::new();
    // Three pickaxes can't merge; each takes its own slot.
    assert_eq!(inv.add(PICKAXE, 3), 0);
    assert_eq!(inv.get(0), Some((PICKAXE, 1)));
    assert_eq!(inv.get(1), Some((PICKAXE, 1)));
    assert_eq!(inv.get(2), Some((PICKAXE, 1)));
    assert_eq!(inv.count(PICKAXE), 3);
}

#[test]
fn remove_draws_across_stacks_or_fails() {
    let mut inv = Inventory::new();
    inv.add(STONE, 70); // 64 + 6 across two slots
    assert!(!inv.remove(STONE, 80)); // not enough: no-op
    assert_eq!(inv.count(STONE), 70);
    assert!(inv.remove(STONE, 66)); // drains slot 0, dips into slot 1
    assert_eq!(inv.count(STONE), 4);
    assert_eq!(inv.get(0), None);
    assert_eq!(inv.get(1), Some((STONE, 4)));
}

#[test]
fn add_stacks_then_fills_empty_slots() {
    let mut inv = Inventory::new();
    assert_eq!(inv.add(STONE, 70), 0);
    // 70 stone: 64 in slot 0, 6 in slot 1.
    assert_eq!(inv.get(0), Some((STONE, 64)));
    assert_eq!(inv.get(1), Some((STONE, 6)));
    // Topping up fills slot 1 to 64 before opening a new slot.
    assert_eq!(inv.add(STONE, 60), 0);
    assert_eq!(inv.get(1), Some((STONE, 64)));
    assert_eq!(inv.get(2), Some((STONE, 2)));
}

#[test]
fn add_reports_overflow_when_full() {
    let mut inv = Inventory::new();
    let total = STACK_MAX * TOTAL_SLOTS as u32;
    assert_eq!(inv.add(STONE, total), 0);
    assert_eq!(inv.add(STONE, 5), 5); // full: nothing fits
}

#[test]
fn move_merges_swaps_and_relocates() {
    let mut inv = Inventory::new();
    inv.add(STONE, 50);
    // Relocate into an empty slot.
    inv.move_stack(0, 10);
    assert_eq!(inv.get(0), None);
    assert_eq!(inv.get(10), Some((STONE, 50)));
    // Merge with cap, leaving a remainder behind.
    inv.add(STONE, 30); // lands in slot 0
    inv.move_stack(0, 10);
    assert_eq!(inv.get(10), Some((STONE, 64)));
    assert_eq!(inv.get(0), Some((STONE, 16)));
    // Swap different blocks.
    inv.add(DIRT, 5); // slot 1
    inv.move_stack(0, 1);
    assert_eq!(inv.get(0), Some((DIRT, 5)));
    assert_eq!(inv.get(1), Some((STONE, 16)));
}

#[test]
fn take_one_empties_slot_at_zero() {
    let mut inv = Inventory::new();
    inv.add(DIRT, 1);
    assert_eq!(inv.take_one(0), Some(DIRT));
    assert_eq!(inv.get(0), None);
    assert_eq!(inv.take_one(0), None);
}

#[test]
fn new_inventory_has_every_slot_empty() {
    let inv = Inventory::new();
    assert_eq!(inv.slots().len(), TOTAL_SLOTS);
    for i in 0..TOTAL_SLOTS {
        assert_eq!(inv.get(i), None);
    }
    assert_eq!(inv.get(TOTAL_SLOTS), None);
    assert_eq!(inv.get(1000), None);
    assert_eq!(inv.count(STONE), 0);
}

#[test]
fn add_keeps_the_total_of_what_went_in() {
    let mut inv = Inventory::new();
    inv.add(DIRT, 3);
    inv.add(STONE, 100);
    let left = inv.add(STONE, 5000);
    // What stayed plus what came back is what was offered.
    assert_eq!(inv.count(STONE) + left, 5100);
    assert_eq!(inv.count(DIRT), 3);
}

#[test]
fn remove_of_zero_always_succeeds_and_changes_nothing() {
    let mut inv = Inventory::new();
    inv.add(STONE, 10);
    let before = inv.to_slots();
    assert!(inv.remove(STONE, 0));
    assert_eq!(inv.to_slots(), before);
    assert!(inv.remove(DIRT, 0));
}

#[test]
fn remove_exactly_what_is_there_leaves_none() {
    let mut inv = Inventory::new();
    inv.add(STONE, 130);
    assert!(inv.remove(STONE, 130));
    assert_eq!(inv.count(STONE), 0);
    assert_eq!(inv.get(0), None);
    assert_eq!(inv.get(1), None);
    assert_eq!(inv.get(2), None);
}

#[test]
fn move_onto_itself_or_out_of_range_is_a_no_op() {
    let mut inv = Inventory::new();
    inv.add(STONE, 12);
    let before = inv.to_slots();
    inv.move_stack(0, 0);
    assert_eq!(inv.to_slots(), before);
    inv.move_stack(0, TOTAL_SLOTS);
    assert_eq!(inv.to_slots(), before);
    inv.move_stack(TOTAL_SLOTS + 3, 0);
    assert_eq!(inv.to_slots(), before);
}

#[test]
fn move_of_a_tool_onto_the_same_tool_changes_nothing() {
    let mut inv = Inventory::new();
    inv.add(PICKAXE, 2);
    inv.add(STICK, 1);
    // Both slots hold one pickaxe each: same item, but tools stack to one,
    // so nothing merges.
    inv.move_stack(0, 1);
    assert_eq!(inv.get(0), Some((PICKAXE, 1)));
    assert_eq!(inv.get(1), Some((PICKAXE, 1)));
    assert_eq!(inv.get(2), Some((STICK, 1)));
}

#[test]
fn snapshot_round_trips_through_from_slots() {
    let mut inv = Inventory::new();
    inv.add(STONE, 70);
    inv.add(DIRT, 9);
    let snap = inv.to_slots();
    let back = Inventory::from_slots(snap.clone());
    assert_eq!(back.to_slots(), snap);
    assert_eq!(back.get(1), Some((STONE, 6)));
    assert_eq!(back.count(DIRT), 9);
}

#[test]
fn take_one_decrements_a_larger_stack() {
    let mut inv = Inventory::new();
    inv.add(DIRT, 3);
    assert_eq!(inv.take_one(0), Some(DIRT));
    assert_eq!(inv.get(0), Some((DIRT, 2)));
    assert_eq!(inv.take_one(TOTAL_SLOTS + 1), None);
}

#[test]
fn default_inventory_is_empty() {
    let inv = Inventory::default();
    assert_eq!(inv.to_slots(), Inventory::new().to_slots());
}

#[test]
fn stacks_stay_within_bounds_through_a_session() {
    let mut inv = Inventory::new();
    inv.add(STONE, 200);
    inv.add(PICKAXE, 2);
    inv.add(DIRT, 63);
    inv.move_stack(0, 5);
    inv.move_stack(5, 1);
    inv.remove(STONE, 77);
    inv.take_one(3);
    inv.add(DIRT, 70);
    inv.move_stack(6, 7);
    for slot in inv.slots() {
        if let Some((b, n)) = slot {
            let cap = if *b == PICKAXE { 1 } else { STACK_MAX };
            assert!(*n >= 1 && *n <= cap, "slot {slot:?} out of bounds");
        }
    }
    assert_eq!(inv.count(STONE), 122);
    assert_eq!(inv.count(DIRT), 133);
}

#[test]
fn add_tops_up_every_stack_before_opening_a_slot() {
    let mut inv = Inventory::new();
    inv.add(STONE, 10); // slot 0
    inv.add(DIRT, 5); // slot 1
    inv.add(STONE, 60); // tops slot 0 to 64, then 6 into slot 2
    assert_eq!(inv.get(0), Some((STONE, 64)));
    assert_eq!(inv.get(1), Some((DIRT, 5)));
    assert_eq!(inv.get(2), Some((STONE, 6)));
    assert_eq!(inv.get(3), None);
}

#[test]
fn remove_empties_earlier_stacks_first() {
    let mut inv = Inventory::new();
    inv.add(STONE, 64);
    inv.add(DIRT, 3);
    inv.add(STONE, 64); // slot 0: 64, slot 1: dirt, slot 2: 64
    assert!(inv.remove(STONE, 70));
    assert_eq!(inv.get(0), None);
    assert_eq!(inv.get(1), Some((DIRT, 3)));
    assert_eq!(inv.get(2), Some((STONE, 58)));
}

#[test]
fn every_inventory_has_the_standard_size_and_round_trips() {
    let mut inv = Inventory::from_slots(vec![Some((STONE, 3)); 50]);
    assert_eq!(inv.slots().len(), TOTAL_SLOTS);
    inv.add(DIRT, 7);
    inv.move_stack(0, 35);
    assert_eq!(inv.to_slots().len(), TOTAL_SLOTS);
    let back = Inventory::from_slots(inv.to_slots());
    assert_eq!(back.to_slots(), inv.to_slots());
    assert_eq!(Inventory::from_slots(vec![]).slots().len(), TOTAL_SLOTS);
}
