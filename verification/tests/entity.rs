use survival_cubed::entity::{
    EntityKind, CAT_MAX_HEALTH, DEMON_KING_MAX_HEALTH, PLAYER_MAX_HEALTH, TWINSCALE_MAX_HEALTH,
    ZOMBIE_MAX_HEALTH,
};

#[test]
fn kinds_know_their_full_health() {
    assert_eq!(EntityKind::Player { name: "ada".to_string() }.max_health(), PLAYER_MAX_HEALTH);
    assert_eq!(EntityKind::Zombie.max_health(), ZOMBIE_MAX_HEALTH);
    assert_eq!(EntityKind::Cat { owner: None, sitting: false }.max_health(), CAT_MAX_HEALTH);
    assert_eq!(EntityKind::DemonKing.max_health(), DEMON_KING_MAX_HEALTH);
    assert_eq!(EntityKind::Twinscale.max_health(), 1600);
    assert_eq!(TWINSCALE_MAX_HEALTH, 1600);
    // Projectiles and dropped items are inert.
    assert_eq!(EntityKind::Fireball.max_health(), 1);
    assert_eq!(EntityKind::DroppedItem { block: 1, count: 3, durability: 0 }.max_health(), 1);
    assert_eq!(EntityKind::FriendlySkull.max_health(), EntityKind::Skull.max_health());
}

#[test]
fn only_tamed_pets_have_owners() {
    let cat = EntityKind::Cat { owner: Some("ada".to_string()), sitting: true };
    assert_eq!(cat.owner(), Some("ada"));
    assert!(cat.is_pet());
    assert!(cat.is_sitting());
    let wild = EntityKind::Puppy { owner: None, sitting: false };
    assert_eq!(wild.owner(), None);
    assert!(wild.is_pet());
    assert!(!wild.is_sitting());
    let knight = EntityKind::Knight { owner: Some("bo".to_string()) };
    assert_eq!(knight.owner(), None);
    assert!(knight.is_knight());
    assert!(knight.is_warrior());
    assert!(!knight.is_pet());
    assert_eq!(EntityKind::Zombie.owner(), None);
    assert_eq!(EntityKind::Player { name: "cy".to_string() }.owner(), None);
}

#[test]
fn kind_predicates() {
    assert!(EntityKind::Player { name: String::new() }.is_player());
    assert!(!EntityKind::Slime.is_player());
    assert!(EntityKind::DroppedItem { block: 1, count: 1, durability: 0 }.is_item());
    assert!(EntityKind::Horse { owner: None }.is_horse());
    assert!(EntityKind::Horse { owner: None }.is_pet());
    assert!(EntityKind::Musketeer { owner: None }.is_musketeer());
    assert!(EntityKind::Musketeer { owner: None }.is_warrior());
    assert!(!EntityKind::DarkMusketeer.is_musketeer());
    assert!(EntityKind::Mage { owner: None }.is_mage());
    assert!(EntityKind::WhiteDragon { owner: None }.is_white_dragon());
    assert!(!EntityKind::Dragon.is_white_dragon());
    assert!(EntityKind::Farmer.is_farmer());
    assert!(EntityKind::Cat { owner: None, sitting: false }.is_cat());
    assert!(EntityKind::Puppy { owner: None, sitting: false }.is_puppy());
}

#[test]
fn cloning_keeps_the_kind() {
    let k = EntityKind::Cat { owner: Some("ada".to_string()), sitting: true };
    assert_eq!(k.clone(), k);
    let k = EntityKind::DroppedItem { block: 5, count: 9, durability: 3 };
    assert_eq!(k.clone(), k);
}

#[test]
fn steeds_and_companions_report_no_owner() {
    assert_eq!(EntityKind::Horse { owner: Some("ann".to_string()) }.owner(), None);
    assert_eq!(EntityKind::Knight { owner: Some("ann".to_string()) }.owner(), None);
    assert_eq!(EntityKind::Mage { owner: Some("ann".to_string()) }.owner(), None);
    assert_eq!(EntityKind::Musketeer { owner: Some("ann".to_string()) }.owner(), None);
    assert_eq!(EntityKind::WhiteDragon { owner: Some("ann".to_string()) }.owner(), None);
    assert_eq!(EntityKind::Puppy { owner: Some("ann".to_string()), sitting: false }.owner(), Some("ann"));
}
