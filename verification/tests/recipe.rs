use survival_cubed::block::{
    BARK, COOKED_MEAT, IRON_INGOT, LOG, PICKAXE, RAW_IRON, RAW_MEAT, ROPE, ROPE_LADDER, STICK,
    STONE, STONE_PICKAXE, WOOD,
};
use survival_cubed::inventory::Inventory;
use survival_cubed::recipe::{cook_recipes, recipes, smelt_recipes, Recipe, RECIPE_COUNT};

#[test]
fn recipe_tables_have_their_wire_order() {
    let r = recipes();
    assert_eq!(r.len(), RECIPE_COUNT);
    assert_eq!(r[0].name, "Wood + Bark");
    assert_eq!(r[0].inputs, &[(LOG, 1)]);
    assert_eq!(r[0].outputs, &[(WOOD, 1), (BARK, 4)]);
    assert_eq!(r[1].outputs, &[(PICKAXE, 1)]);
    assert_eq!(r[2].inputs, &[(STONE, 3), (STICK, 2)]);
    assert_eq!(r[2].outputs, &[(STONE_PICKAXE, 1)]);
    assert_eq!(r[14].inputs, &[(ROPE, 3)]);
    assert_eq!(r[14].outputs, &[(ROPE_LADDER, 1)]);
    assert_eq!(cook_recipes()[0].inputs, &[(RAW_MEAT, 1)]);
    assert_eq!(cook_recipes()[0].outputs, &[(COOKED_MEAT, 1)]);
    assert_eq!(smelt_recipes()[0].inputs, &[(RAW_IRON, 1)]);
    assert_eq!(smelt_recipes()[0].outputs, &[(IRON_INGOT, 1)]);
}

#[test]
fn craftable_needs_every_input() {
    let stone_pick = &recipes()[2];
    let mut inv = Inventory::new();
    assert!(!stone_pick.craftable(&inv));
    inv.add(STONE, 3);
    assert!(!stone_pick.craftable(&inv));
    inv.add(STICK, 1);
    assert!(!stone_pick.craftable(&inv));
    inv.add(STICK, 1);
    assert!(stone_pick.craftable(&inv));
}

#[test]
fn max_crafts_is_limited_by_the_scarcest_input() {
    let stone_pick = &recipes()[2];
    let mut inv = Inventory::new();
    assert_eq!(stone_pick.max_crafts(&inv), 0);
    inv.add(STONE, 10); // 3 crafts' worth
    inv.add(STICK, 9); // 4 crafts' worth
    assert_eq!(stone_pick.max_crafts(&inv), 3);
    inv.add(STONE, 90); // 33 crafts' worth of stone: sticks now limit
    assert_eq!(stone_pick.max_crafts(&inv), 4);
}

#[test]
fn craftable_exactly_when_one_craft_fits() {
    let mut inv = Inventory::new();
    for r in recipes().iter() {
        assert_eq!(r.craftable(&inv), r.max_crafts(&inv) >= 1);
    }
    inv.add(STICK, 3);
    inv.add(BARK, 2);
    for r in recipes().iter() {
        assert_eq!(r.craftable(&inv), r.max_crafts(&inv) >= 1);
    }
    assert!(recipes()[1].craftable(&inv));
    assert!(recipes()[13].craftable(&inv));
}

#[test]
fn a_recipe_without_inputs_gives_no_crafts() {
    let free = Recipe { name: "Nothing", inputs: &[], outputs: &[(STONE, 1)] };
    let inv = Inventory::new();
    assert!(free.craftable(&inv));
    assert_eq!(free.max_crafts(&inv), 0);
}

#[test]
fn max_crafts_counts_whole_crafts() {
    // Stone Pickaxe: 3 stone + 2 sticks; 10 stone and 5 sticks make 2.
    let stone_pick = &recipes()[2];
    let mut inv = Inventory::new();
    inv.add(STONE, 10);
    inv.add(STICK, 5);
    assert_eq!(stone_pick.max_crafts(&inv), 2);
    // Three sticks make one wooden pickaxe, two don't.
    let wood_pick = &recipes()[1];
    let mut few = Inventory::new();
    few.add(STICK, 2);
    assert!(!wood_pick.craftable(&few));
    few.add(STICK, 1);
    assert!(wood_pick.craftable(&few));
}
