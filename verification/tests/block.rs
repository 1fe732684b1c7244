use survival_cubed::block::{
    attack_damage, attack_wear, drops_when_mined, food_heal, fuel_burn_secs, is_axe, is_campfire,
    is_climbable, is_food, is_pickaxe, is_quest_board, is_sign, is_sword, max_durability,
    max_stack, mine_speed_hundredths, mine_wear, mined_drop, pickaxe_tier, repair_material,
    repair_step, required_tier, BlockRegistry, AIR, APPLE, BARK, BUILTIN_COUNT, CAMPFIRE,
    CAMPFIRE_LIT, COOKED_MEAT, DIRT, FORGE, IRON_AXE, IRON_INGOT, IRON_ORE, IRON_PICKAXE,
    IRON_SWORD, LADDER, LEAVES, LOG, PICKAXE, QUEST_BOARD, RAW_IRON, RAW_MEAT, ROPE, ROPE_LADDER,
    SIGN, STICK, STONE, STONE_AXE, STONE_PICKAXE, STONE_SWORD, WOOD, WOOD_AXE, WOOD_SWORD,
};
use survival_cubed::inventory::STACK_MAX;

#[test]
fn food_heals_but_raw_meat_hurts() {
    assert_eq!(food_heal(APPLE), Some(4));
    assert_eq!(food_heal(COOKED_MEAT), Some(8));
    // Raw meat is food, but eating it costs health.
    assert_eq!(food_heal(RAW_MEAT), Some(-3));
    assert!(is_food(RAW_MEAT));
    // Cooking turns the harmful raw meat into a beneficial meal.
    assert!(food_heal(RAW_MEAT).unwrap() < 0);
    assert!(food_heal(COOKED_MEAT).unwrap() > 0);
    // Non-food items can't be eaten.
    assert_eq!(food_heal(STONE), None);
    assert!(!is_food(STICK));
}

#[test]
fn campfire_states_are_recognized() {
    assert!(is_campfire(CAMPFIRE));
    assert!(is_campfire(CAMPFIRE_LIT));
    assert!(!is_campfire(FORGE));
}

#[test]
fn axes_out_hit_swords_but_wear_twice_as_fast() {
    // Each axe hits harder than the sword of its tier.
    assert!(attack_damage(WOOD_AXE) > attack_damage(WOOD_SWORD));
    assert!(attack_damage(STONE_AXE) > attack_damage(STONE_SWORD));
    assert!(attack_damage(IRON_AXE) > attack_damage(IRON_SWORD));
    // An axe wears twice as fast as a sword, both attacking and mining.
    for axe in [WOOD_AXE, STONE_AXE, IRON_AXE] {
        assert!(is_axe(axe));
        assert_eq!(attack_wear(axe), 2);
        assert_eq!(mine_wear(axe), 2);
        assert_eq!(attack_wear(axe), 2 * attack_wear(WOOD_SWORD));
        assert!(max_durability(axe) > 0);
        assert_eq!(max_stack(axe), 1);
        assert!(repair_material(axe).is_some());
    }
    // An axe is the fast tool for logs; bare hands aren't.
    assert!(mine_speed_hundredths(LOG, IRON_AXE) < mine_speed_hundredths(LOG, AIR));
}

#[test]
fn only_wood_and_bark_are_fuel_and_wood_burns_longer() {
    assert!(fuel_burn_secs(WOOD).unwrap() > fuel_burn_secs(BARK).unwrap());
    assert_eq!(fuel_burn_secs(STONE), None);
    assert_eq!(fuel_burn_secs(APPLE), None);
}

#[test]
fn fuel_burn_times_are_exact() {
    assert_eq!(fuel_burn_secs(WOOD), Some(45));
    assert_eq!(fuel_burn_secs(BARK), Some(12));
    assert_eq!(fuel_burn_secs(LOG), None);
}

#[test]
fn builtin_registry_matches_the_id_constants() {
    let reg = BlockRegistry::new();
    assert_eq!(reg.len(), BUILTIN_COUNT);
    let named = [
        (AIR, "air"),
        (STONE, "stone"),
        (DIRT, "dirt"),
        (LOG, "log"),
        (LEAVES, "leaves"),
        (WOOD, "wood"),
        (BARK, "bark"),
        (STICK, "stick"),
        (PICKAXE, "pickaxe"),
        (IRON_ORE, "iron_ore"),
        (FORGE, "forge"),
        (LADDER, "ladder"),
        (CAMPFIRE_LIT, "campfire_lit"),
        (IRON_AXE, "iron_axe"),
    ];
    for (id, name) in named {
        assert_eq!(reg.get(id).id, id);
        assert_eq!(reg.get(id).name, name);
    }
    for (i, def) in reg.iter().enumerate() {
        assert_eq!(def.id as usize, i);
    }
    assert_eq!(reg.iter().count(), BUILTIN_COUNT);
}

#[test]
fn registry_flags_and_unknown_ids_fall_back_to_air() {
    let reg = BlockRegistry::default();
    assert!(reg.is_solid(STONE));
    assert!(reg.is_placeable(STONE));
    assert!(!reg.is_solid(LADDER));
    assert!(reg.is_placeable(LADDER));
    assert!(!reg.is_placeable(STICK));
    assert!(!reg.is_placeable(CAMPFIRE_LIT));
    assert_eq!(reg.get(STONE).break_millis, 1200);
    assert_eq!(reg.get(IRON_ORE).break_millis, 2000);
    assert_eq!(reg.get(AIR).break_millis, 0);
    // Ids past the end read as air.
    assert_eq!(reg.get(9999).name, "air");
    assert_eq!(reg.get(9999).id, AIR);
    assert!(!reg.is_placeable(9999));
    assert!(!reg.get(9999).visible);
    assert!(!reg.is_solid(9999));
}

#[test]
fn register_appends_with_the_next_id() {
    let mut reg = BlockRegistry::new();
    let id = reg.register("rope", false, true, true, 250);
    assert_eq!(id as usize, BUILTIN_COUNT);
    assert_eq!(reg.len(), BUILTIN_COUNT + 1);
    assert_eq!(reg.get(id).name, "rope");
    assert_eq!(reg.get(id).break_millis, 250);
    assert!(reg.is_placeable(id));
}

#[test]
fn tool_families_and_stacks() {
    for p in [PICKAXE, STONE_PICKAXE, IRON_PICKAXE] {
        assert!(is_pickaxe(p));
        assert!(!is_sword(p));
        assert_eq!(max_stack(p), 1);
    }
    for s in [WOOD_SWORD, STONE_SWORD, IRON_SWORD] {
        assert!(is_sword(s));
        assert!(!is_axe(s));
        assert_eq!(max_stack(s), 1);
    }
    assert_eq!(max_stack(STONE), STACK_MAX);
    assert_eq!(max_stack(STICK), STACK_MAX);
}

#[test]
fn mining_tiers_gate_iron_ore() {
    assert_eq!(pickaxe_tier(AIR), 0);
    assert_eq!(pickaxe_tier(PICKAXE), 1);
    assert_eq!(pickaxe_tier(STONE_PICKAXE), 2);
    assert_eq!(pickaxe_tier(IRON_PICKAXE), 3);
    assert_eq!(required_tier(IRON_ORE), 2);
    assert!(!drops_when_mined(IRON_ORE, PICKAXE));
    assert!(drops_when_mined(IRON_ORE, STONE_PICKAXE));
    assert!(drops_when_mined(DIRT, AIR));
}

#[test]
fn mining_speeds_in_hundredths() {
    assert_eq!(mine_speed_hundredths(LOG, WOOD_AXE), 40);
    assert_eq!(mine_speed_hundredths(DIRT, AIR), 100);
    assert_eq!(mine_speed_hundredths(STONE, AIR), 500);
    assert_eq!(mine_speed_hundredths(STONE, PICKAXE), 60);
    assert_eq!(mine_speed_hundredths(STONE, STONE_PICKAXE), 30);
    assert_eq!(mine_speed_hundredths(STONE, IRON_PICKAXE), 18);
    assert_eq!(mine_speed_hundredths(IRON_ORE, PICKAXE), 500);
}

#[test]
fn drops_and_repairs() {
    assert_eq!(mined_drop(IRON_ORE), RAW_IRON);
    assert_eq!(mined_drop(CAMPFIRE_LIT), CAMPFIRE);
    assert_eq!(mined_drop(STONE), STONE);
    assert_eq!(mined_drop(LEAVES), LEAVES);
    assert_eq!(repair_material(IRON_PICKAXE), Some(IRON_INGOT));
    // A tool is mended with what it is crafted from: sticks for the wooden pickaxe.
    assert_eq!(repair_material(PICKAXE), Some(STICK));
    assert_eq!(repair_material(WOOD_SWORD), Some(WOOD));
    assert_eq!(repair_material(STONE_AXE), Some(STONE));
    assert_eq!(repair_material(STONE), None);
    assert_eq!(repair_step(STONE), 0);
    assert!(repair_step(IRON_SWORD) > 0);
    assert_eq!(max_durability(STONE), 0);
}

#[test]
fn only_ladders_climb_and_signs_differ_from_boards() {
    assert!(is_climbable(LADDER));
    assert!(!is_climbable(ROPE));
    assert!(!is_climbable(ROPE_LADDER));
    assert!(!is_climbable(STONE));
    assert!(is_sign(SIGN));
    assert!(!is_sign(QUEST_BOARD));
    assert!(is_quest_board(QUEST_BOARD));
    assert!(!is_quest_board(SIGN));
}

#[test]
fn bare_hands_do_three_damage_and_no_wear() {
    assert_eq!(attack_damage(AIR), 3);
    assert_eq!(attack_wear(AIR), 0);
    assert_eq!(mine_wear(AIR), 0);
}

#[test]
fn every_definition_carries_its_own_id() {
    let mut reg = BlockRegistry::new();
    reg.register("rope", false, true, true, 250);
    for id in 0..reg.len() as u16 {
        assert_eq!(reg.get(id).id, id);
    }
    assert!(reg.len() >= 1);
}
