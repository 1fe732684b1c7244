//! Crafting recipes, shared by client and server.
//!
//! Every recipe is shapeless: it consumes a set of input items in any
//! arrangement and yields a set of outputs, both of which may name multiple
//! item types and quantities. A recipe is identified on the wire by its index
//! in its table.

use vstd::prelude::*;

use crate::block::{
    BARK, CAMPFIRE, COOKED_MEAT, FORGE, IRON_AXE, IRON_INGOT, IRON_PICKAXE, IRON_SWORD, LADDER,
    LOG, PICKAXE, RAW_IRON, RAW_MEAT, ROPE, ROPE_LADDER, STICK, STONE, STONE_AXE, STONE_PICKAXE, STONE_SWORD, WOOD,
    WOOD_AXE, WOOD_SWORD,
};
use crate::inventory::{total, Inventory};
use crate::protocol::BlockId;

verus! {

/// One shapeless crafting recipe: `inputs` consumed, `outputs` produced.
pub struct Recipe {
    /// Player-facing name, shown on the crafting panel.
    pub name: &'static str,
    /// Items consumed, as `(item, count)` pairs.
    pub inputs: &'static [(BlockId, u32)],
    /// Items produced, as `(item, count)` pairs.
    pub outputs: &'static [(BlockId, u32)],
}

/// Number of plain crafting recipes.
pub const RECIPE_COUNT: usize = 15;

/// Inputs and outputs of plain crafting recipe `i`.
pub open spec fn recipe_io(i: int) -> (Seq<(BlockId, u32)>, Seq<(BlockId, u32)>) {
    if i == 0 { (seq![(LOG, 1u32)], seq![(WOOD, 1u32), (BARK, 4u32)]) }
    else if i == 1 { (seq![(STICK, 3u32)], seq![(PICKAXE, 1u32)]) }
    else if i == 2 { (seq![(STONE, 3u32), (STICK, 2u32)], seq![(STONE_PICKAXE, 1u32)]) }
    else if i == 3 { (seq![(IRON_INGOT, 3u32), (STICK, 2u32)], seq![(IRON_PICKAXE, 1u32)]) }
    else if i == 4 { (seq![(WOOD, 2u32), (STICK, 1u32)], seq![(WOOD_SWORD, 1u32)]) }
    else if i == 5 { (seq![(STONE, 2u32), (STICK, 1u32)], seq![(STONE_SWORD, 1u32)]) }
    else if i == 6 { (seq![(IRON_INGOT, 2u32), (STICK, 1u32)], seq![(IRON_SWORD, 1u32)]) }
    else if i == 7 { (seq![(STONE, 8u32)], seq![(FORGE, 1u32)]) }
    else if i == 8 { (seq![(WOOD, 1u32), (STICK, 2u32)], seq![(LADDER, 3u32)]) }
    else if i == 9 { (seq![(STONE, 1u32), (BARK, 5u32)], seq![(CAMPFIRE, 1u32)]) }
    else if i == 10 { (seq![(WOOD, 3u32), (STICK, 2u32)], seq![(WOOD_AXE, 1u32)]) }
    else if i == 11 { (seq![(STONE, 3u32), (STICK, 2u32)], seq![(STONE_AXE, 1u32)]) }
    else if i == 12 { (seq![(IRON_INGOT, 3u32), (STICK, 2u32)], seq![(IRON_AXE, 1u32)]) }
    else if i == 13 { (seq![(BARK, 2u32)], seq![(ROPE, 1u32)]) }
    else { (seq![(ROPE, 3u32)], seq![(ROPE_LADDER, 1u32)]) }
}

/// Player-facing name of plain crafting recipe `i`.
pub open spec fn recipe_name(i: int) -> Seq<char> {
    if i == 0 { "Wood + Bark"@ }
    else if i == 1 { "Wooden Pickaxe"@ }
    else if i == 2 { "Stone Pickaxe"@ }
    else if i == 3 { "Iron Pickaxe"@ }
    else if i == 4 { "Wood Sword"@ }
    else if i == 5 { "Stone Sword"@ }
    else if i == 6 { "Iron Sword"@ }
    else if i == 7 { "Forge"@ }
    else if i == 8 { "Ladder"@ }
    else if i == 9 { "Campfire"@ }
    else if i == 10 { "Wood Axe"@ }
    else if i == 11 { "Stone Axe"@ }
    else if i == 12 { "Iron Axe"@ }
    else if i == 13 { "Rope"@ }
    else { "Rope Ladder"@ }
}

/// The name a tool goes by on the crafting panel.
pub open spec fn tool_name(tool: BlockId) -> Seq<char> {
    if tool == PICKAXE { "Wooden Pickaxe"@ }
    else if tool == STONE_PICKAXE { "Stone Pickaxe"@ }
    else if tool == IRON_PICKAXE { "Iron Pickaxe"@ }
    else if tool == WOOD_SWORD { "Wood Sword"@ }
    else if tool == STONE_SWORD { "Stone Sword"@ }
    else if tool == IRON_SWORD { "Iron Sword"@ }
    else if tool == WOOD_AXE { "Wood Axe"@ }
    else if tool == STONE_AXE { "Stone Axe"@ }
    else if tool == IRON_AXE { "Iron Axe"@ }
    else { Seq::empty() }
}

/// All plain crafting recipes; a recipe's index here is its wire id.
pub fn recipes() -> (r: Vec<Recipe>)
    ensures
        r@.len() == RECIPE_COUNT,
        forall|i: int|
            0 <= i < RECIPE_COUNT ==> (#[trigger] r@[i]).inputs@ == recipe_io(i).0
                && r@[i].outputs@ == recipe_io(i).1 && r@[i].name@ == recipe_name(i),
{
    let r = vec![
        // A log splits into one plank of wood plus four strips of bark.
        Recipe { name: "Wood + Bark", inputs: &[(LOG, 1)], outputs: &[(WOOD, 1), (BARK, 4)] },
        // Sticks (dropped by leaves) bind into a wooden pickaxe.
        Recipe { name: "Wooden Pickaxe", inputs: &[(STICK, 3)], outputs: &[(PICKAXE, 1)] },
        // Mined stone lashed to sticks makes a sturdier pickaxe.
        Recipe {
            name: "Stone Pickaxe",
            inputs: &[(STONE, 3), (STICK, 2)],
            outputs: &[(STONE_PICKAXE, 1)],
        },
        // Iron ingots bound to sticks make the fastest pickaxe.
        Recipe {
            name: "Iron Pickaxe",
            inputs: &[(IRON_INGOT, 3), (STICK, 2)],
            outputs: &[(IRON_PICKAXE, 1)],
        },
        // A plank edge bound to a stick makes a crude wooden sword.
        Recipe { name: "Wood Sword", inputs: &[(WOOD, 2), (STICK, 1)], outputs: &[(WOOD_SWORD, 1)] },
        // Sharpened stone on a stick: a sturdier blade.
        Recipe {
            name: "Stone Sword",
            inputs: &[(STONE, 2), (STICK, 1)],
            outputs: &[(STONE_SWORD, 1)],
        },
        // Forged iron on a stick: the deadliest blade.
        Recipe {
            name: "Iron Sword",
            inputs: &[(IRON_INGOT, 2), (STICK, 1)],
            outputs: &[(IRON_SWORD, 1)],
        },
        // Stacked stone builds a forge for smelting.
        Recipe { name: "Forge", inputs: &[(STONE, 8)], outputs: &[(FORGE, 1)] },
        // Planks and sticks lash together into a run of climbable ladders.
        Recipe { name: "Ladder", inputs: &[(WOOD, 1), (STICK, 2)], outputs: &[(LADDER, 3)] },
        // A ring of stone cradling a pile of bark: a campfire to cook on.
        Recipe { name: "Campfire", inputs: &[(STONE, 1), (BARK, 5)], outputs: &[(CAMPFIRE, 1)] },
        // Planks and sticks bound into a heavy wood-felling axe.
        Recipe { name: "Wood Axe", inputs: &[(WOOD, 3), (STICK, 2)], outputs: &[(WOOD_AXE, 1)] },
        // Stone heads make a sturdier axe.
        Recipe { name: "Stone Axe", inputs: &[(STONE, 3), (STICK, 2)], outputs: &[(STONE_AXE, 1)] },
        // Forged iron makes the deadliest axe.
        Recipe {
            name: "Iron Axe",
            inputs: &[(IRON_INGOT, 3), (STICK, 2)],
            outputs: &[(IRON_AXE, 1)],
        },
        // Strips of bark twist into a length of rope.
        Recipe { name: "Rope", inputs: &[(BARK, 2)], outputs: &[(ROPE, 1)] },
        // Coils of rope knot into a rope ladder for descending caves.
        Recipe { name: "Rope Ladder", inputs: &[(ROPE, 3)], outputs: &[(ROPE_LADDER, 1)] },
    ];
    proof {
        assert forall|i: int| 0 <= i < RECIPE_COUNT implies (#[trigger] r@[i]).inputs@
            == recipe_io(i).0 && r@[i].outputs@ == recipe_io(i).1 && r@[i].name@
            == recipe_name(i) by {
            assert(r@[i].inputs@ =~= recipe_io(i).0);
            assert(r@[i].outputs@ =~= recipe_io(i).1);
        }
    }
    r
}

/// Cooking recipes, available only at a lit campfire; a recipe's index here is
/// its wire id.
pub fn cook_recipes() -> (r: Vec<Recipe>)
    ensures
        r@.len() == 1,
        r@[0].inputs@ == seq![(RAW_MEAT, 1u32)],
        r@[0].outputs@ == seq![(COOKED_MEAT, 1u32)],
{
    let r = vec![
        // Raw meat sizzles into a safe, hearty cooked meal.
        Recipe { name: "Cooked Meat", inputs: &[(RAW_MEAT, 1)], outputs: &[(COOKED_MEAT, 1)] },
    ];
    proof {
        assert(r@[0].inputs@ =~= seq![(RAW_MEAT, 1u32)]);
        assert(r@[0].outputs@ =~= seq![(COOKED_MEAT, 1u32)]);
    }
    r
}

/// Smelting recipes, available only at a forge; a recipe's index here is its
/// wire id.
pub fn smelt_recipes() -> (r: Vec<Recipe>)
    ensures
        r@.len() == 1,
        r@[0].inputs@ == seq![(RAW_IRON, 1u32)],
        r@[0].outputs@ == seq![(IRON_INGOT, 1u32)],
{
    let r = vec![
        // Raw iron smelts into a refined ingot (one charge of fuel per smelt).
        Recipe { name: "Iron Ingot", inputs: &[(RAW_IRON, 1)], outputs: &[(IRON_INGOT, 1)] },
    ];
    proof {
        assert(r@[0].inputs@ =~= seq![(RAW_IRON, 1u32)]);
        assert(r@[0].outputs@ =~= seq![(IRON_INGOT, 1u32)]);
    }
    r
}

/// Whether every input's total in `slots` fits in a `u32`.
pub open spec fn inputs_countable(inputs: Seq<(BlockId, u32)>, slots: Seq<crate::inventory::Slot>) -> bool {
    forall|k: int| 0 <= k < inputs.len() ==> total(slots, #[trigger] inputs[k].0) <= u32::MAX
}

/// Whether `slots` hold enough of every input to craft once.
pub open spec fn spec_craftable(inputs: Seq<(BlockId, u32)>, slots: Seq<crate::inventory::Slot>) -> bool {
    forall|k: int| 0 <= k < inputs.len() ==> total(slots, #[trigger] inputs[k].0) >= inputs[k].1
}

/// `m` is the number of back-to-back crafts `slots` allow: the smallest
/// `held / needed` over the inputs, or `0` for a recipe without inputs.
pub open spec fn is_max_crafts(inputs: Seq<(BlockId, u32)>, slots: Seq<crate::inventory::Slot>, m: nat) -> bool {
    if inputs.len() == 0 {
        m == 0
    } else {
        &&& forall|k: int| 0 <= k < inputs.len() ==> m <= total(slots, #[trigger] inputs[k].0) / (inputs[k].1 as nat)
        &&& exists|k: int| 0 <= k < inputs.len() && m == total(slots, #[trigger] inputs[k].0) / (inputs[k].1 as nat)
    }
}

impl Recipe {
    /// Whether `inv` holds enough of every input to craft this recipe once.
    pub fn craftable(&self, inv: &Inventory) -> (r: bool)
        requires
            inputs_countable(self.inputs@, inv@),
        ensures
            r == spec_craftable(self.inputs@, inv@),
    {
        let mut i: usize = 0;
        while i < self.inputs.len()
            invariant
                i <= self.inputs@.len(),
                inputs_countable(self.inputs@, inv@),
                forall|k: int| 0 <= k < i ==> total(inv@, #[trigger] self.inputs@[k].0) >= self.inputs@[k].1,
            decreases self.inputs@.len() - i,
        {
            let (item, n) = self.inputs[i];
            if inv.count(item) < n {
                return false;
            }
            i += 1;
        }
        true
    }

    /// How many times this recipe could be crafted back-to-back from `inv`,
    /// limited by the scarcest input.
    pub fn max_crafts(&self, inv: &Inventory) -> (r: u32)
        requires
            inputs_countable(self.inputs@, inv@),
            forall|k: int| 0 <= k < self.inputs@.len() ==> (#[trigger] self.inputs@[k]).1 > 0,
        ensures
            is_max_crafts(self.inputs@, inv@, r as nat),
    {
        if self.inputs.len() == 0 {
            return 0;
        }
        let (item0, n0) = self.inputs[0];
        let mut best: u32 = inv.count(item0) / n0;
        let ghost mut at: int = 0;
        let mut i: usize = 1;
        while i < self.inputs.len()
            invariant
                1 <= i <= self.inputs@.len(),
                inputs_countable(self.inputs@, inv@),
                forall|k: int| 0 <= k < self.inputs@.len() ==> (#[trigger] self.inputs@[k]).1 > 0,
                forall|k: int| 0 <= k < i ==> best <= total(inv@, #[trigger] self.inputs@[k].0) / (self.inputs@[k].1 as nat),
                0 <= at < i,
                best == total(inv@, self.inputs@[at].0) / (self.inputs@[at].1 as nat),
            decreases self.inputs@.len() - i,
        {
            let (item, n) = self.inputs[i];
            let c = inv.count(item) / n;
            if c < best {
                best = c;
                proof {
                    at = i as int;
                }
            }
            i += 1;
        }
        best
    }
}

/// A recipe is craftable exactly when it can be crafted at least once back to
/// back: for a recipe with inputs, `craftable` holds iff `max_crafts >= 1`.
pub proof fn law_craftable_iff_one_craft(
    inputs: Seq<(BlockId, u32)>,
    slots: Seq<crate::inventory::Slot>,
    m: nat,
)
    requires
        inputs.len() > 0,
        forall|k: int| 0 <= k < inputs.len() ==> (#[trigger] inputs[k]).1 > 0,
        is_max_crafts(inputs, slots, m),
    ensures
        spec_craftable(inputs, slots) <==> m >= 1,
{
    assert forall|k: int| 0 <= k < inputs.len() implies (total(slots, #[trigger] inputs[k].0) >= inputs[k].1
        <==> total(slots, inputs[k].0) / (inputs[k].1 as nat) >= 1) by {
        let t = total(slots, inputs[k].0);
        let n = inputs[k].1 as nat;
        assert(t >= n <==> t / n >= 1) by (nonlinear_arith)
            requires
                n > 0,
        ;
    }
    if m >= 1 {
        assert forall|k: int| 0 <= k < inputs.len() implies total(slots, #[trigger] inputs[k].0) >= inputs[k].1 by {
            assert(m <= total(slots, inputs[k].0) / (inputs[k].1 as nat));
        }
    } else {
        let k = choose|k: int| 0 <= k < inputs.len() && m == total(slots, #[trigger] inputs[k].0) / (inputs[k].1 as nat);
        assert(!(total(slots, inputs[k].0) >= inputs[k].1));
    }
}

/// `max_crafts` is the most back-to-back crafts the slots allow: `k` crafts fit
/// (every input held at least `k` times its count) exactly when `k` is at most
/// `max_crafts`.
pub proof fn law_max_crafts_is_most(
    inputs: Seq<(BlockId, u32)>,
    slots: Seq<crate::inventory::Slot>,
    m: nat,
    k: nat,
)
    requires
        inputs.len() > 0,
        forall|j: int| 0 <= j < inputs.len() ==> (#[trigger] inputs[j]).1 > 0,
        is_max_crafts(inputs, slots, m),
    ensures
        k <= m <==> forall|j: int| 0 <= j < inputs.len() ==> k * (#[trigger] inputs[j]).1 <= total(slots, inputs[j].0),
{
    assert forall|j: int| 0 <= j < inputs.len() implies (k * (#[trigger] inputs[j]).1 <= total(slots, inputs[j].0)
        <==> k <= total(slots, inputs[j].0) / (inputs[j].1 as nat)) by {
        let t = total(slots, inputs[j].0);
        let n = inputs[j].1 as nat;
        assert(k * n <= t <==> k <= t / n) by (nonlinear_arith)
            requires
                n > 0,
        ;
    }
    if k <= m {
        assert forall|j: int| 0 <= j < inputs.len() implies k * (#[trigger] inputs[j]).1 <= total(slots, inputs[j].0) by {
            assert(m <= total(slots, inputs[j].0) / (inputs[j].1 as nat));
        }
    } else {
        let j = choose|j: int| 0 <= j < inputs.len() && m == total(slots, #[trigger] inputs[j].0) / (inputs[j].1 as nat);
        assert(!(k * inputs[j].1 <= total(slots, inputs[j].0)));
    }
}

/// The index of the plain recipe that crafts `tool`.
pub open spec fn tool_recipe(tool: BlockId) -> int {
    if tool == PICKAXE { 1 }
    else if tool == STONE_PICKAXE { 2 }
    else if tool == IRON_PICKAXE { 3 }
    else if tool == WOOD_SWORD { 4 }
    else if tool == STONE_SWORD { 5 }
    else if tool == IRON_SWORD { 6 }
    else if tool == WOOD_AXE { 10 }
    else if tool == STONE_AXE { 11 }
    else { 12 }
}

/// A recipe whose outputs include a tool yields exactly one of that tool, and
/// it is the recipe `tool_recipe` names.
proof fn lemma_tool_output(i: int, k: int)
    requires
        0 <= i < RECIPE_COUNT,
        0 <= k < recipe_io(i).1.len(),
        crate::block::spec_is_tool(recipe_io(i).1[k].0),
    ensures
        recipe_io(i).1 == seq![(recipe_io(i).1[k].0, 1u32)],
        i == tool_recipe(recipe_io(i).1[k].0),
{
    assert(recipe_io(i).1 =~= seq![(recipe_io(i).1[k].0, 1u32)]);
}

/// Every tool (each pickaxe, sword and axe) is crafted by exactly one plain
/// recipe. That recipe yields one of the tool and nothing else, carries the
/// tool's name, and consumes the material that repairs the tool; and any
/// recipe whose outputs include the tool is that recipe.
pub proof fn law_every_tool_has_its_own_recipe(tool: BlockId, i: int, j: int)
    requires
        crate::block::spec_is_tool(tool),
    ensures
        exists|k: int| 0 <= k < RECIPE_COUNT && (#[trigger] recipe_io(k)).1 == seq![(tool, 1u32)],
        0 <= i < RECIPE_COUNT && 0 <= j < RECIPE_COUNT && recipe_io(i).1 == seq![(tool, 1u32)]
            && recipe_io(j).1 == seq![(tool, 1u32)] ==> i == j,
        0 <= i < RECIPE_COUNT && recipe_io(i).1 == seq![(tool, 1u32)] ==> recipe_name(i)
            == tool_name(tool),
        0 <= i < RECIPE_COUNT && recipe_io(i).1 == seq![(tool, 1u32)] ==> exists|k: int|
            0 <= k < recipe_io(i).0.len() && Some((#[trigger] recipe_io(i).0[k]).0)
                == crate::block::spec_repair_material(tool),
        forall|k: int|
            0 <= i < RECIPE_COUNT && 0 <= k < recipe_io(i).1.len() && (#[trigger] recipe_io(i).1[k]).0
                == tool ==> recipe_io(i).1 == seq![(tool, 1u32)],
{
    let w = tool_recipe(tool);
    assert(recipe_io(w).1 =~= seq![(tool, 1u32)]);
    if 0 <= i < RECIPE_COUNT && recipe_io(i).1 == seq![(tool, 1u32)] {
        assert(recipe_io(i).1[0].0 == tool);
        lemma_tool_output(i, 0);
        if tool == PICKAXE {
            assert(recipe_io(i).0[0].0 == STICK);
        } else if tool == WOOD_SWORD || tool == STONE_SWORD || tool == IRON_SWORD
            || tool == STONE_PICKAXE || tool == IRON_PICKAXE || tool == WOOD_AXE
            || tool == STONE_AXE || tool == IRON_AXE {
            assert(Some(recipe_io(i).0[0].0) == crate::block::spec_repair_material(tool));
        }
    }
    if 0 <= j < RECIPE_COUNT && recipe_io(j).1 == seq![(tool, 1u32)] {
        assert(recipe_io(j).1[0].0 == tool);
        lemma_tool_output(j, 0);
    }
    assert forall|k: int|
        0 <= i < RECIPE_COUNT && 0 <= k < recipe_io(i).1.len() && (#[trigger] recipe_io(i).1[k]).0
            == tool implies recipe_io(i).1 == seq![(tool, 1u32)] by {
        lemma_tool_output(i, k);
    }
}

} // verus!
