//! Block and item definitions, the block registry, and the per-item rules for
//! tools, mining, durability and food.
//!
//! Every id names an *item*; the ones whose `BlockDef` is placeable are also
//! *blocks*. An item's id is its index in the registry, so registration order
//! defines ids.

use vstd::prelude::*;
use vstd::std_specs::iter::IteratorSpec;

use crate::inventory::STACK_MAX;
pub use crate::protocol::BlockId;

verus! {

/// Pixel size of one block sprite, in texels.
pub const TILE_TEX: u32 = 16;

pub const AIR: BlockId = 0;
pub const STONE: BlockId = 1;
pub const DIRT: BlockId = 2;
pub const GRASS: BlockId = 3;
pub const LOG: BlockId = 4;
pub const LEAVES: BlockId = 5;
/// Planks split from a log. A placeable block.
pub const WOOD: BlockId = 6;
/// Bark stripped from a log. An item (not placeable).
pub const BARK: BlockId = 7;
/// A stick, dropped by leaves and used to craft tools. An item.
pub const STICK: BlockId = 8;
/// A wooden pickaxe. A tool item; stacks to one.
pub const PICKAXE: BlockId = 9;
/// A stone pickaxe. A tool item; stacks to one.
pub const STONE_PICKAXE: BlockId = 10;
/// Iron ore; mined with a stone or iron pickaxe it drops `RAW_IRON`.
pub const IRON_ORE: BlockId = 11;
/// Raw iron, smelted at a `FORGE` into an `IRON_INGOT`.
pub const RAW_IRON: BlockId = 12;
/// A refined iron ingot.
pub const IRON_INGOT: BlockId = 13;
/// A forge: a placeable block for smelting.
pub const FORGE: BlockId = 14;
/// An iron pickaxe. The fastest pickaxe.
pub const IRON_PICKAXE: BlockId = 15;
/// A wooden sword.
pub const WOOD_SWORD: BlockId = 16;
/// A stone sword.
pub const STONE_SWORD: BlockId = 17;
/// An iron sword. The deadliest melee weapon.
pub const IRON_SWORD: BlockId = 18;
/// A ladder: a placeable, non-solid, climbable block.
pub const LADDER: BlockId = 19;
/// An apple, occasionally shed by `LEAVES`; restores health when eaten.
pub const APPLE: BlockId = 20;
/// Raw animal meat; eating it raw costs health.
pub const RAW_MEAT: BlockId = 21;
/// Cooked meat, a hearty meal.
pub const COOKED_MEAT: BlockId = 22;
/// An unlit campfire.
pub const CAMPFIRE: BlockId = 23;
/// A lit campfire, the burning state of a `CAMPFIRE`.
pub const CAMPFIRE_LIT: BlockId = 24;
/// A wooden axe.
pub const WOOD_AXE: BlockId = 25;
/// A stone axe.
pub const STONE_AXE: BlockId = 26;
/// An iron axe.
pub const IRON_AXE: BlockId = 27;
// The four ids below are numbered on from the built-in items. They have no
// definition in `BlockRegistry::new`, so looking one up gives air's definition.

/// A length of rope twisted from bark.
pub const ROPE: BlockId = 28;
/// A rope ladder knotted from rope, for descending caves.
pub const ROPE_LADDER: BlockId = 29;
/// A sign that carries one note of player-written text.
pub const SIGN: BlockId = 30;
/// A quest board that carries several notes of player-written text.
pub const QUEST_BOARD: BlockId = 31;

// --- Definitions and the registry ------------------------------------------------

/// Definition of a single block type.
pub struct BlockDef {
    pub id: BlockId,
    pub name: &'static str,
    /// Whether the player collides with this block.
    pub solid: bool,
    /// Whether the item has a tile in the texture atlas (air is not).
    pub visible: bool,
    /// Whether this item can be placed in the world as a block.
    pub placeable: bool,
    /// Milliseconds of sustained mining needed to break this block; air is `0`.
    pub break_millis: u32,
}

/// The definition `register` records for the item with id `id`.
pub open spec fn def_of(
    id: BlockId,
    name: &'static str,
    solid: bool,
    visible: bool,
    placeable: bool,
    break_millis: u32,
) -> BlockDef {
    BlockDef { id, name, solid, visible, placeable, break_millis }
}

/// Number of built-in items.
pub const BUILTIN_COUNT: usize = 28;

/// The built-in definition with id `i`: name, solidity, visibility,
/// placeability and breaking time.
pub open spec fn builtin_def(i: int) -> BlockDef {
    let id = i as u16;
    if i == 0 { def_of(id, "air", false, false, false, 0) }
    else if i == 1 { def_of(id, "stone", true, true, true, 1200) }
    else if i == 2 { def_of(id, "dirt", true, true, true, 500) }
    else if i == 3 { def_of(id, "grass", true, true, true, 500) }
    else if i == 4 { def_of(id, "log", true, true, true, 1000) }
    else if i == 5 { def_of(id, "leaves", true, true, true, 300) }
    else if i == 6 { def_of(id, "wood", true, true, true, 800) }
    else if i == 7 { def_of(id, "bark", false, true, false, 0) }
    else if i == 8 { def_of(id, "stick", false, true, false, 0) }
    else if i == 9 { def_of(id, "pickaxe", false, true, false, 0) }
    else if i == 10 { def_of(id, "stone_pickaxe", false, true, false, 0) }
    else if i == 11 { def_of(id, "iron_ore", true, true, true, 2000) }
    else if i == 12 { def_of(id, "raw_iron", false, true, false, 0) }
    else if i == 13 { def_of(id, "iron_ingot", false, true, false, 0) }
    else if i == 14 { def_of(id, "forge", true, true, true, 1500) }
    else if i == 15 { def_of(id, "iron_pickaxe", false, true, false, 0) }
    else if i == 16 { def_of(id, "wood_sword", false, true, false, 0) }
    else if i == 17 { def_of(id, "stone_sword", false, true, false, 0) }
    else if i == 18 { def_of(id, "iron_sword", false, true, false, 0) }
    else if i == 19 { def_of(id, "ladder", false, true, true, 400) }
    else if i == 20 { def_of(id, "apple", false, true, false, 0) }
    else if i == 21 { def_of(id, "raw_meat", false, true, false, 0) }
    else if i == 22 { def_of(id, "cooked_meat", false, true, false, 0) }
    else if i == 23 { def_of(id, "campfire", false, true, true, 600) }
    else if i == 24 { def_of(id, "campfire_lit", false, true, false, 600) }
    else if i == 25 { def_of(id, "wood_axe", false, true, false, 0) }
    else if i == 26 { def_of(id, "stone_axe", false, true, false, 0) }
    else { def_of(id, "iron_axe", false, true, false, 0) }
}

/// Registry of all known block types, in id order.
pub struct BlockRegistry {
    defs: Vec<BlockDef>,
}

impl BlockRegistry {
    /// Air comes first, and every definition's id is its index.
    #[verifier::type_invariant]
    spec fn well_formed(self) -> bool {
        &&& self.defs@.len() >= 1
        &&& self.defs@[0] == builtin_def(0)
        &&& forall|i: int| 0 <= i < self.defs@.len() ==> (#[trigger] self.defs@[i]).id == i as u16
    }
}

impl View for BlockRegistry {
    type V = Seq<BlockDef>;

    closed spec fn view(&self) -> Seq<BlockDef> {
        self.defs@
    }
}

/// The definition `get` returns for `id`: the registered one, or air's for an
/// unknown id.
pub open spec fn spec_get(defs: Seq<BlockDef>, id: BlockId) -> BlockDef {
    if (id as int) < defs.len() {
        defs[id as int]
    } else {
        defs[0]
    }
}

impl BlockRegistry {
    /// Create a registry pre-populated with the built-in blocks, whose ids are
    /// the constants declared above.
    pub fn new() -> (r: Self)
        ensures
            r@.len() == BUILTIN_COUNT,
            forall|i: int| 0 <= i < BUILTIN_COUNT ==> #[trigger] r@[i] == builtin_def(i),
    {
        let mut r = BlockRegistry {
            defs: vec![BlockDef { id: AIR, name: "air", solid: false, visible: false, placeable: false, break_millis: 0 }],
        };
        r.register("stone", true, true, true, 1200);
        r.register("dirt", true, true, true, 500);
        r.register("grass", true, true, true, 500);
        r.register("log", true, true, true, 1000);
        r.register("leaves", true, true, true, 300);
        r.register("wood", true, true, true, 800);
        r.register("bark", false, true, false, 0);
        r.register("stick", false, true, false, 0);
        r.register("pickaxe", false, true, false, 0);
        r.register("stone_pickaxe", false, true, false, 0);
        r.register("iron_ore", true, true, true, 2000);
        r.register("raw_iron", false, true, false, 0);
        r.register("iron_ingot", false, true, false, 0);
        r.register("forge", true, true, true, 1500);
        r.register("iron_pickaxe", false, true, false, 0);
        r.register("wood_sword", false, true, false, 0);
        r.register("stone_sword", false, true, false, 0);
        r.register("iron_sword", false, true, false, 0);
        r.register("ladder", false, true, true, 400);
        r.register("apple", false, true, false, 0);
        r.register("raw_meat", false, true, false, 0);
        r.register("cooked_meat", false, true, false, 0);
        r.register("campfire", false, true, true, 600);
        r.register("campfire_lit", false, true, false, 600);
        r.register("wood_axe", false, true, false, 0);
        r.register("stone_axe", false, true, false, 0);
        r.register("iron_axe", false, true, false, 0);
        r
    }

    /// Register a new item and return its assigned id (its index, as a
    /// `BlockId`). A `placeable` item is a block; the rest are inventory-only.
    pub fn register(
        &mut self,
        name: &'static str,
        solid: bool,
        visible: bool,
        placeable: bool,
        break_millis: u32,
    ) -> (id: BlockId)
        ensures
            id == old(self)@.len() as u16,
            final(self)@ == old(self)@.push(def_of(id, name, solid, visible, placeable, break_millis)),
    {
        proof {
            use_type_invariant(&*self);
        }
        let id = self.defs.len() as BlockId;
        // Build the longer list aside and put it in place whole, so the
        // registry's invariant holds at every step.
        let mut defs: Vec<BlockDef> = Vec::new();
        let mut i: usize = 0;
        while i < self.defs.len()
            invariant
                i <= self.defs@.len(),
                defs@ == self.defs@.take(i as int),
            decreases self.defs@.len() - i,
        {
            let d = &self.defs[i];
            defs.push(BlockDef {
                id: d.id,
                name: d.name,
                solid: d.solid,
                visible: d.visible,
                placeable: d.placeable,
                break_millis: d.break_millis,
            });
            i += 1;
            assert(defs@ =~= self.defs@.take(i as int));
        }
        assert(self.defs@.take(i as int) =~= self.defs@);
        defs.push(BlockDef { id, name, solid, visible, placeable, break_millis });
        self.defs = defs;
        id
    }

    /// The definition of `id`; unknown ids fall back to air so corrupt data can't
    /// derail the game.
    pub fn get(&self, id: BlockId) -> (r: &BlockDef)
        ensures
            *r == spec_get(self@, id),
            (id as int) < self@.len() ==> r.id == id,
            (id as int) >= self@.len() ==> *r == builtin_def(0),
    {
        proof {
            use_type_invariant(self);
        }
        if (id as usize) < self.defs.len() {
            &self.defs[id as usize]
        } else {
            &self.defs[0]
        }
    }

    pub fn is_solid(&self, id: BlockId) -> (r: bool)
        ensures
            r == spec_get(self@, id).solid,
    {
        self.get(id).solid
    }

    /// Whether `id` is a block that can be placed into the world.
    pub fn is_placeable(&self, id: BlockId) -> (r: bool)
        ensures
            r == spec_get(self@, id).placeable,
    {
        self.get(id).placeable
    }

    /// The definitions in id order, as a slice.
    pub(crate) fn defs(&self) -> (r: &[BlockDef])
        ensures
            r@ == self@,
    {
        self.defs.as_slice()
    }

    pub fn len(&self) -> (r: usize)
        ensures
            r == self@.len(),
            r >= 1,
    {
        proof {
            use_type_invariant(self);
        }
        self.defs.len()
    }

    /// The definitions in id order.
    pub fn iter(&self) -> (r: std::slice::Iter<'_, BlockDef>)
        ensures
            r.remaining().unref() == self@,
    {
        let defs: &[BlockDef] = self.defs.as_slice();
        let it = defs.iter();
        proof {
            vstd::std_specs::slice::axiom_spec_slice_iter(defs);
        }
        it
    }
}

impl Default for BlockRegistry {
    fn default() -> (r: Self)
        ensures
            r@.len() == BUILTIN_COUNT,
            forall|i: int| 0 <= i < BUILTIN_COUNT ==> #[trigger] r@[i] == builtin_def(i),
    {
        Self::new()
    }
}

// --- Tool families ------------------------------------------------------------

pub open spec fn spec_is_pickaxe(item: BlockId) -> bool {
    item == PICKAXE || item == STONE_PICKAXE || item == IRON_PICKAXE
}

pub open spec fn spec_is_sword(item: BlockId) -> bool {
    item == WOOD_SWORD || item == STONE_SWORD || item == IRON_SWORD
}

pub open spec fn spec_is_axe(item: BlockId) -> bool {
    item == WOOD_AXE || item == STONE_AXE || item == IRON_AXE
}

/// Whether `item` is a tool: a pickaxe, sword or axe of any tier.
pub open spec fn spec_is_tool(item: BlockId) -> bool {
    spec_is_pickaxe(item) || spec_is_sword(item) || spec_is_axe(item)
}

/// Slot capacity of `id`: tools stack to one, everything else to `STACK_MAX`.
pub open spec fn spec_max_stack(id: BlockId) -> u32 {
    if spec_is_tool(id) {
        1
    } else {
        STACK_MAX
    }
}

/// Maximum number of `id` that fit in one inventory slot. Tools stack to one;
/// everything else uses `STACK_MAX`.
pub fn max_stack(id: BlockId) -> (r: u32)
    ensures
        r == spec_max_stack(id),
        1 <= r <= STACK_MAX,
{
    match id {
        PICKAXE | STONE_PICKAXE | IRON_PICKAXE | WOOD_SWORD | STONE_SWORD | IRON_SWORD
        | WOOD_AXE | STONE_AXE | IRON_AXE => 1,
        _ => STACK_MAX,
    }
}

/// Whether `item` is a pickaxe (mining is its intended use).
pub fn is_pickaxe(item: BlockId) -> (r: bool)
    ensures
        r == spec_is_pickaxe(item),
{
    matches!(item, PICKAXE | STONE_PICKAXE | IRON_PICKAXE)
}

/// Whether `item` is a sword (attacking is its intended use).
pub fn is_sword(item: BlockId) -> (r: bool)
    ensures
        r == spec_is_sword(item),
{
    matches!(item, WOOD_SWORD | STONE_SWORD | IRON_SWORD)
}

/// Whether `item` is an axe (felling trees and fighting are its uses).
pub fn is_axe(item: BlockId) -> (r: bool)
    ensures
        r == spec_is_axe(item),
{
    matches!(item, WOOD_AXE | STONE_AXE | IRON_AXE)
}

// --- Tools & mining -------------------------------------------------------------

/// Mining tier of a held item: wood `1` < stone `2` < iron `3`, `0` otherwise.
pub open spec fn spec_pickaxe_tier(item: BlockId) -> u8 {
    if item == PICKAXE {
        1
    } else if item == STONE_PICKAXE {
        2
    } else if item == IRON_PICKAXE {
        3
    } else {
        0
    }
}

/// Mining tier of a held item: the strength of a pickaxe, or `0` for bare hands
/// and anything that isn't a pickaxe.
pub fn pickaxe_tier(item: BlockId) -> (r: u8)
    ensures
        r == spec_pickaxe_tier(item),
{
    match item {
        PICKAXE => 1,
        STONE_PICKAXE => 2,
        IRON_PICKAXE => 3,
        _ => 0,
    }
}

/// Minimum pickaxe tier to mine `block` quickly and have it drop.
pub open spec fn spec_required_tier(block: BlockId) -> u8 {
    if block == STONE {
        1
    } else if block == IRON_ORE {
        2
    } else {
        0
    }
}

/// Minimum `pickaxe_tier` needed to mine `block` quickly and have it drop.
/// `0` means no pickaxe is required.
pub fn required_tier(block: BlockId) -> (r: u8)
    ensures
        r == spec_required_tier(block),
{
    match block {
        STONE => 1,
        IRON_ORE => 2,
        _ => 0,
    }
}

/// The mining-time multiplier for `block` held with `held`, in hundredths.
pub open spec fn spec_mine_speed_hundredths(block: BlockId, held: BlockId) -> u32 {
    if block == LOG && spec_is_axe(held) {
        40
    } else if spec_required_tier(block) == 0 {
        100
    } else if spec_pickaxe_tier(held) < spec_required_tier(block) {
        500
    } else if spec_pickaxe_tier(held) == 1 {
        60
    } else if spec_pickaxe_tier(held) == 2 {
        30
    } else {
        18
    }
}

/// Multiplier, in hundredths, applied to a block's breaking time given the item
/// the player holds (`AIR` for bare hands). Smaller is faster: an axe bites
/// through logs, a tool-gated block mined with too weak a tool is punishingly
/// slow, and the right pickaxe speeds it up, more so at higher tiers.
pub fn mine_speed_hundredths(block: BlockId, held: BlockId) -> (r: u32)
    ensures
        r == spec_mine_speed_hundredths(block, held),
{
    if block == LOG && is_axe(held) {
        return 40;
    }
    let req = required_tier(block);
    if req == 0 {
        return 100;
    }
    let tier = pickaxe_tier(held);
    if tier < req {
        return 500;
    }
    match tier {
        1 => 60,
        2 => 30,
        _ => 18,
    }
}

/// Whether breaking `block` while holding `held` yields a dropped item. A
/// tool-gated block only drops when mined with a pickaxe of at least its
/// required tier.
pub fn drops_when_mined(block: BlockId, held: BlockId) -> (r: bool)
    ensures
        r == (spec_pickaxe_tier(held) >= spec_required_tier(block)),
{
    pickaxe_tier(held) >= required_tier(block)
}

// --- Durability -------------------------------------------------------------------

pub open spec fn spec_max_durability(item: BlockId) -> u16 {
    if item == PICKAXE || item == WOOD_SWORD || item == WOOD_AXE {
        60
    } else if item == STONE_PICKAXE || item == STONE_SWORD || item == STONE_AXE {
        132
    } else if item == IRON_PICKAXE || item == IRON_SWORD || item == IRON_AXE {
        251
    } else {
        0
    }
}

/// Maximum durability (uses before it breaks) of a tool, or `0` for anything
/// without durability. Higher tiers last longer.
pub fn max_durability(item: BlockId) -> (r: u16)
    ensures
        r == spec_max_durability(item),
{
    match item {
        PICKAXE | WOOD_SWORD | WOOD_AXE => 60,
        STONE_PICKAXE | STONE_SWORD | STONE_AXE => 132,
        IRON_PICKAXE | IRON_SWORD | IRON_AXE => 251,
        _ => 0,
    }
}

/// Whether `block` can be climbed — a ladder.
pub fn is_climbable(block: BlockId) -> (r: bool)
    ensures
        r == (block == LADDER),
{
    block == LADDER
}

pub open spec fn spec_attack_wear(item: BlockId) -> u16 {
    if spec_is_sword(item) {
        1
    } else if spec_is_pickaxe(item) || spec_is_axe(item) {
        2
    } else {
        0
    }
}

/// Durability spent attacking with `item`: a sword's intended use costs `1`, a
/// pickaxe or axe wears twice as fast, anything else costs nothing.
pub fn attack_wear(item: BlockId) -> (r: u16)
    ensures
        r == spec_attack_wear(item),
{
    if is_sword(item) {
        1
    } else if is_pickaxe(item) || is_axe(item) {
        2
    } else {
        0
    }
}

pub open spec fn spec_mine_wear(item: BlockId) -> u16 {
    if spec_is_pickaxe(item) {
        1
    } else if spec_is_sword(item) || spec_is_axe(item) {
        2
    } else {
        0
    }
}

/// Durability spent mining with `item`: a pickaxe's intended use costs `1`, a
/// sword or axe wears twice as fast, anything else costs nothing.
pub fn mine_wear(item: BlockId) -> (r: u16)
    ensures
        r == spec_mine_wear(item),
{
    if is_pickaxe(item) {
        1
    } else if is_sword(item) || is_axe(item) {
        2
    } else {
        0
    }
}

pub open spec fn spec_repair_material(item: BlockId) -> Option<BlockId> {
    if item == PICKAXE {
        Some(STICK)
    } else if item == WOOD_SWORD || item == WOOD_AXE {
        Some(WOOD)
    } else if item == STONE_PICKAXE || item == STONE_SWORD || item == STONE_AXE {
        Some(STONE)
    } else if item == IRON_PICKAXE || item == IRON_SWORD || item == IRON_AXE {
        Some(IRON_INGOT)
    } else {
        None
    }
}

/// The material that repairs `item` at a forge — the same material it is
/// crafted from — or `None` if `item` has no durability to repair.
pub fn repair_material(item: BlockId) -> (r: Option<BlockId>)
    ensures
        r == spec_repair_material(item),
{
    match item {
        // The wooden pickaxe is crafted from sticks alone.
        PICKAXE => Some(STICK),
        WOOD_SWORD | WOOD_AXE => Some(WOOD),
        STONE_PICKAXE | STONE_SWORD | STONE_AXE => Some(STONE),
        IRON_PICKAXE | IRON_SWORD | IRON_AXE => Some(IRON_INGOT),
        _ => None,
    }
}

/// Durability restored per unit of material spent repairing `item`: a quarter
/// of its maximum, rounded up.
pub fn repair_step(item: BlockId) -> (r: u16)
    ensures
        r as int == (spec_max_durability(item) + 3) / 4,
        4 * r >= spec_max_durability(item),
{
    let m = max_durability(item);
    m / 4 + if m % 4 == 0 { 0 } else { 1 }
}

pub open spec fn spec_attack_damage(item: BlockId) -> i32 {
    if item == WOOD_AXE {
        10
    } else if item == STONE_AXE {
        13
    } else if item == IRON_AXE {
        16
    } else if item == WOOD_SWORD {
        8
    } else if item == STONE_SWORD {
        11
    } else if item == IRON_SWORD {
        14
    } else if item == PICKAXE {
        4
    } else if item == STONE_PICKAXE {
        5
    } else if item == IRON_PICKAXE {
        6
    } else {
        3
    }
}

/// Melee damage dealt by a swing while holding `item` (`AIR` for bare hands).
pub fn attack_damage(item: BlockId) -> (r: i32)
    ensures
        r == spec_attack_damage(item),
{
    match item {
        WOOD_AXE => 10,
        STONE_AXE => 13,
        IRON_AXE => 16,
        WOOD_SWORD => 8,
        STONE_SWORD => 11,
        IRON_SWORD => 14,
        PICKAXE => 4,
        STONE_PICKAXE => 5,
        IRON_PICKAXE => 6,
        _ => 3,
    }
}

pub open spec fn spec_mined_drop(block: BlockId) -> BlockId {
    if block == IRON_ORE {
        RAW_IRON
    } else if block == CAMPFIRE_LIT {
        CAMPFIRE
    } else {
        block
    }
}

/// The item a broken `block` drops: most blocks drop themselves; iron ore
/// yields raw iron and a lit campfire drops the plain campfire.
pub fn mined_drop(block: BlockId) -> (r: BlockId)
    ensures
        r == spec_mined_drop(block),
{
    match block {
        IRON_ORE => RAW_IRON,
        CAMPFIRE_LIT => CAMPFIRE,
        other => other,
    }
}

// --- Food & cooking ----------------------------------------------------------------

pub open spec fn spec_food_heal(item: BlockId) -> Option<i32> {
    if item == APPLE {
        Some(4i32)
    } else if item == COOKED_MEAT {
        Some(8i32)
    } else if item == RAW_MEAT {
        Some(-3i32)
    } else {
        None
    }
}

/// Health restored by eating `item`, or `None` if it isn't food. A negative
/// value costs health: raw meat makes you sick.
pub fn food_heal(item: BlockId) -> (r: Option<i32>)
    ensures
        r == spec_food_heal(item),
{
    match item {
        APPLE => Some(4),
        COOKED_MEAT => Some(8),
        RAW_MEAT => Some(-3),
        _ => None,
    }
}

/// Whether `item` can be eaten (has a food effect).
pub fn is_food(item: BlockId) -> (r: bool)
    ensures
        r == spec_food_heal(item) is Some,
{
    food_heal(item).is_some()
}

/// Whether `block` is a campfire in either state (unlit or lit).
pub fn is_campfire(block: BlockId) -> (r: bool)
    ensures
        r == (block == CAMPFIRE || block == CAMPFIRE_LIT),
{
    matches!(block, CAMPFIRE | CAMPFIRE_LIT)
}

pub open spec fn spec_fuel_burn_secs(item: BlockId) -> Option<u32> {
    if item == WOOD {
        Some(45)
    } else if item == BARK {
        Some(12)
    } else {
        None
    }
}

/// Whole seconds of burn time one unit of `item` adds to a campfire, or `None`
/// if it isn't fuel. Wood burns long; bark gives a smaller boost.
pub fn fuel_burn_secs(item: BlockId) -> (r: Option<u32>)
    ensures
        r == spec_fuel_burn_secs(item),
{
    match item {
        WOOD => Some(45),
        BARK => Some(12),
        _ => None,
    }
}

/// Whether `block` is a sign.
pub fn is_sign(block: BlockId) -> (r: bool)
    ensures
        r == (block == SIGN),
{
    block == SIGN
}

/// Whether `block` is a quest board.
pub fn is_quest_board(block: BlockId) -> (r: bool)
    ensures
        r == (block == QUEST_BOARD),
{
    block == QUEST_BOARD
}

// --- Laws of mining and wear ------------------------------------------------------

/// Only stone and iron ore are gated behind a pickaxe: stone needs any pickaxe
/// (tier 1), iron ore a stone or iron one (tier 2). Every other block needs no
/// pickaxe at all, so it drops whatever the player holds, bare hands included,
/// and by hand it breaks at the normal speed.
pub proof fn law_only_stone_and_iron_ore_need_a_pickaxe(block: BlockId, held: BlockId)
    ensures
        spec_required_tier(STONE) == 1,
        spec_required_tier(IRON_ORE) == 2,
        block != STONE && block != IRON_ORE ==> spec_required_tier(block) == 0,
        block != STONE && block != IRON_ORE ==> spec_pickaxe_tier(held) >= spec_required_tier(
            block,
        ),
        block != STONE && block != IRON_ORE ==> spec_mine_speed_hundredths(block, AIR) == 100,
        !(spec_pickaxe_tier(AIR) >= spec_required_tier(STONE)),
        !(spec_pickaxe_tier(PICKAXE) >= spec_required_tier(IRON_ORE)),
        spec_pickaxe_tier(STONE_PICKAXE) >= spec_required_tier(IRON_ORE),
{
}

/// Pickaxe tiers order wood < stone < iron, and nothing else is a pickaxe.
/// An axe fells logs faster than anything else; a gated block mined with too
/// weak a tool is five times slower than normal; mined with a strong enough
/// pickaxe it is faster than normal, and a stronger pickaxe is never slower.
pub proof fn law_mining_speed(block: BlockId, held: BlockId, better: BlockId)
    ensures
        spec_pickaxe_tier(PICKAXE) == 1,
        spec_pickaxe_tier(STONE_PICKAXE) == 2,
        spec_pickaxe_tier(IRON_PICKAXE) == 3,
        !(held == PICKAXE || held == STONE_PICKAXE || held == IRON_PICKAXE) ==> spec_pickaxe_tier(
            held,
        ) == 0,
        (held == WOOD_AXE || held == STONE_AXE || held == IRON_AXE) ==> spec_mine_speed_hundredths(
            LOG,
            held,
        ) == 40,
        (held == WOOD_AXE || held == STONE_AXE || held == IRON_AXE) && !(better == WOOD_AXE
            || better == STONE_AXE || better == IRON_AXE) ==> spec_mine_speed_hundredths(LOG, held)
            < spec_mine_speed_hundredths(LOG, better),
        spec_required_tier(block) > 0 && spec_pickaxe_tier(held) < spec_required_tier(block)
            ==> spec_mine_speed_hundredths(block, held) == 500,
        spec_required_tier(block) > 0 && spec_pickaxe_tier(held) >= spec_required_tier(block)
            ==> spec_mine_speed_hundredths(block, held) < 100,
        spec_required_tier(block) > 0 && spec_pickaxe_tier(held) >= spec_required_tier(block)
            && spec_pickaxe_tier(better) >= spec_pickaxe_tier(held) ==> spec_mine_speed_hundredths(
            block,
            better,
        ) <= spec_mine_speed_hundredths(block, held),
{
}

/// Each tool wears least at its own job. Mining costs a pickaxe `1` and a sword
/// or axe `2`; attacking costs a sword `1` and a pickaxe or axe `2`; using
/// anything that is not a tool costs nothing. So mining with a pickaxe never
/// wears it faster than mining with any other tool, and likewise for a sword
/// in a fight.
pub proof fn law_each_tool_wears_least_at_its_job(item: BlockId, other: BlockId)
    ensures
        (item == PICKAXE || item == STONE_PICKAXE || item == IRON_PICKAXE) ==> spec_mine_wear(
            item,
        ) == 1 && spec_attack_wear(item) == 2,
        (item == WOOD_SWORD || item == STONE_SWORD || item == IRON_SWORD) ==> spec_mine_wear(item)
            == 2 && spec_attack_wear(item) == 1,
        (item == WOOD_AXE || item == STONE_AXE || item == IRON_AXE) ==> spec_mine_wear(item) == 2
            && spec_attack_wear(item) == 2,
        !spec_is_tool(item) ==> spec_mine_wear(item) == 0 && spec_attack_wear(item) == 0,
        (item == PICKAXE || item == STONE_PICKAXE || item == IRON_PICKAXE) && spec_is_tool(other)
            ==> spec_mine_wear(item) <= spec_mine_wear(other),
        (item == WOOD_SWORD || item == STONE_SWORD || item == IRON_SWORD) && spec_is_tool(other)
            ==> spec_attack_wear(item) <= spec_attack_wear(other),
{
}

/// Within each tool family a higher tier lasts longer: wood < stone < iron.
/// Tools wear out; nothing else has durability.
pub proof fn law_higher_tiers_last_longer(item: BlockId)
    ensures
        spec_max_durability(PICKAXE) < spec_max_durability(STONE_PICKAXE) < spec_max_durability(
            IRON_PICKAXE,
        ),
        spec_max_durability(WOOD_SWORD) < spec_max_durability(STONE_SWORD) < spec_max_durability(
            IRON_SWORD,
        ),
        spec_max_durability(WOOD_AXE) < spec_max_durability(STONE_AXE) < spec_max_durability(
            IRON_AXE,
        ),
        spec_is_tool(item) <==> spec_max_durability(item) > 0,
        spec_is_tool(item) <==> spec_repair_material(item) is Some,
{
}

/// Swords and axes are the weapons: within each family wood < stone < iron, an
/// axe out-hits the sword of its tier, a sword out-hits any pickaxe, and every
/// tool hits harder than bare hands, which deal the base damage like any other
/// item.
pub proof fn law_weapons_hit_harder(item: BlockId)
    ensures
        spec_attack_damage(WOOD_SWORD) < spec_attack_damage(STONE_SWORD) < spec_attack_damage(
            IRON_SWORD,
        ),
        spec_attack_damage(WOOD_AXE) < spec_attack_damage(STONE_AXE) < spec_attack_damage(
            IRON_AXE,
        ),
        spec_attack_damage(PICKAXE) < spec_attack_damage(STONE_PICKAXE) < spec_attack_damage(
            IRON_PICKAXE,
        ),
        spec_attack_damage(WOOD_SWORD) < spec_attack_damage(WOOD_AXE),
        spec_attack_damage(STONE_SWORD) < spec_attack_damage(STONE_AXE),
        spec_attack_damage(IRON_SWORD) < spec_attack_damage(IRON_AXE),
        (item == PICKAXE || item == STONE_PICKAXE || item == IRON_PICKAXE) ==> spec_attack_damage(
            item,
        ) < spec_attack_damage(WOOD_SWORD),
        spec_is_tool(item) ==> spec_attack_damage(item) > spec_attack_damage(AIR),
        !spec_is_tool(item) ==> spec_attack_damage(item) == spec_attack_damage(AIR),
{
}

/// A fully worn tool is mended by four units of its repair material and not
/// by three: each unit restores a quarter of the maximum, rounded up.
pub proof fn law_four_materials_mend_a_tool(item: BlockId)
    requires
        spec_is_tool(item),
    ensures
        4 * ((spec_max_durability(item) + 3) / 4) >= spec_max_durability(item),
        3 * ((spec_max_durability(item) + 3) / 4) < spec_max_durability(item),
{
}

/// Most blocks drop themselves when broken; only iron ore (raw iron) and a lit
/// campfire (the plain campfire) transform.
pub proof fn law_most_blocks_drop_themselves(block: BlockId)
    ensures
        block != IRON_ORE && block != CAMPFIRE_LIT ==> spec_mined_drop(block) == block,
        spec_mined_drop(IRON_ORE) == RAW_IRON,
        spec_mined_drop(CAMPFIRE_LIT) == CAMPFIRE,
{
}

/// Cooking pays: raw meat costs health, cooked meat heals more than an apple,
/// and only these three are food. Wood burns longer than bark, and only these
/// two are fuel.
pub proof fn law_cooking_and_fuel(item: BlockId)
    ensures
        spec_food_heal(RAW_MEAT) matches Some(h) && h < 0,
        spec_food_heal(APPLE) matches Some(h) && h > 0,
        spec_food_heal(COOKED_MEAT) matches Some(h) && h > spec_food_heal(APPLE)->Some_0,
        spec_food_heal(item) is Some <==> (item == APPLE || item == COOKED_MEAT || item == RAW_MEAT),
        spec_fuel_burn_secs(WOOD) matches Some(w) && w > spec_fuel_burn_secs(BARK)->Some_0,
        spec_fuel_burn_secs(BARK) matches Some(b) && b > 0,
        spec_fuel_burn_secs(item) is Some <==> (item == WOOD || item == BARK),
{
}

} // verus!
