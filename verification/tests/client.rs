use survival_cubed::block::{BlockRegistry, COOKED_MEAT, IRON_PICKAXE, STONE};
use survival_cubed::client::{
    chat_name_color_index, chat_pieces, player_name, recipe_summary, recipe_tooltip,
    resolve_password, ChatPiece, item_display_name, music_dir, parse_seed, placeholder,
    resolve_chat_icon, resolve_item, sanitize_world_name, structure_entity_kind, ChatIcon,
    CHAT_PALETTE_LEN,
};
use survival_cubed::entity::EntityKind;
use survival_cubed::world::Dimension;

#[test]
fn chat_icons_resolve_blocks_items_and_entities() {
    let reg = BlockRegistry::new();
    // Placeable block, plain item, and crafted tool all map to atlas tiles.
    assert!(matches!(
        resolve_chat_icon(&reg, "stone"),
        Some(ChatIcon::Block(_))
    ));
    assert!(matches!(
        resolve_chat_icon(&reg, "iron_pickaxe"),
        Some(ChatIcon::Block(_))
    ));
    // Entity sheets map to a sprite.
    assert!(matches!(
        resolve_chat_icon(&reg, "zombie"),
        Some(ChatIcon::Sprite("zombie"))
    ));
    // Air is invisible and unknown tokens don't resolve (rendered as text).
    assert!(resolve_chat_icon(&reg, "air").is_none());
    assert!(resolve_chat_icon(&reg, "dragon").is_none());
}

#[test]
fn chat_icons_carry_the_matching_id() {
    let reg = BlockRegistry::new();
    assert_eq!(resolve_chat_icon(&reg, "stone"), Some(ChatIcon::Block(STONE)));
    assert_eq!(resolve_chat_icon(&reg, "iron_pickaxe"), Some(ChatIcon::Block(IRON_PICKAXE)));
    assert_eq!(resolve_chat_icon(&reg, "slime"), Some(ChatIcon::Sprite("slime")));
    // Tokens match exactly: no case folding.
    assert_eq!(resolve_chat_icon(&reg, "Stone"), None);
    assert_eq!(resolve_chat_icon(&reg, ""), None);
}

#[test]
fn world_names_are_trimmed_and_restricted() {
    assert_eq!(sanitize_world_name("  My World-1_b "), Some("My World-1_b".to_string()));
    assert_eq!(sanitize_world_name("Mondé"), Some("Mondé".to_string()));
    assert_eq!(sanitize_world_name("   "), None);
    assert_eq!(sanitize_world_name(""), None);
    assert_eq!(sanitize_world_name("../etc"), None);
    assert_eq!(sanitize_world_name("a/b"), None);
    assert_eq!(sanitize_world_name("a.b"), None);
}

#[test]
fn display_names_capitalize_each_word() {
    assert_eq!(item_display_name("iron_pickaxe"), "Iron Pickaxe");
    assert_eq!(item_display_name("cooked_meat"), "Cooked Meat");
    assert_eq!(item_display_name("stone"), "Stone");
    assert_eq!(item_display_name("a__b"), "A  B");
    assert_eq!(item_display_name(""), "");
    assert_eq!(item_display_name("_x"), " X");
}

#[test]
fn item_queries_resolve_by_id_or_name() {
    let reg = BlockRegistry::new();
    assert_eq!(resolve_item(&reg, "22"), Some(COOKED_MEAT));
    assert_eq!(resolve_item(&reg, " 22 "), Some(COOKED_MEAT));
    assert_eq!(resolve_item(&reg, "+1"), Some(STONE));
    assert_eq!(resolve_item(&reg, "cooked_meat"), Some(COOKED_MEAT));
    assert_eq!(resolve_item(&reg, "cooked meat"), Some(COOKED_MEAT));
    assert_eq!(resolve_item(&reg, "Cooked-Meat"), Some(COOKED_MEAT));
    assert_eq!(resolve_item(&reg, "IRON PICKAXE"), Some(IRON_PICKAXE));
}

#[test]
fn item_queries_never_give_air_or_unknowns() {
    let reg = BlockRegistry::new();
    assert_eq!(resolve_item(&reg, ""), None);
    assert_eq!(resolve_item(&reg, "   "), None);
    assert_eq!(resolve_item(&reg, "0"), None);
    assert_eq!(resolve_item(&reg, "air"), None);
    assert_eq!(resolve_item(&reg, "999"), None);
    assert_eq!(resolve_item(&reg, "70000"), None);
    assert_eq!(resolve_item(&reg, "-1"), None);
    assert_eq!(resolve_item(&reg, "unobtanium"), None);
}

#[test]
fn seeds_from_text() {
    assert_eq!(parse_seed("", 77), 77);
    assert_eq!(parse_seed("   ", -5), -5);
    assert_eq!(parse_seed("123", 0), 123);
    assert_eq!(parse_seed(" -42 ", 0), -42);
    assert_eq!(parse_seed("-2147483648", 0), i32::MIN);
    assert_eq!(parse_seed("2147483647", 0), i32::MAX);
    // Anything that isn't an i32 is hashed with FNV-1a.
    assert_eq!(parse_seed("abc", 0), 440920331);
    assert_eq!(parse_seed(" abc ", 0), 440920331);
    assert_eq!(parse_seed("hello world", 9), -712294489);
    assert_eq!(parse_seed("2147483648", 0), parse_seed("2147483648", 1));
}

#[test]
fn chat_colors_are_stable_per_name() {
    assert_eq!(chat_name_color_index("abc"), 3);
    assert_eq!(chat_name_color_index("ada"), 3);
    assert_eq!(chat_name_color_index("hello world"), 7);
    assert_eq!(chat_name_color_index(""), 5);
    assert!(chat_name_color_index("zed") < CHAT_PALETTE_LEN);
    assert_eq!(chat_name_color_index("zed"), chat_name_color_index("zed"));
}

#[test]
fn placeholder_alternates_magenta_and_black_cells() {
    let img = placeholder(8, 4);
    assert_eq!(img.len(), 8 * 4 * 4);
    let px = |x: usize, y: usize| {
        let i = (y * 8 + x) * 4;
        [img[i], img[i + 1], img[i + 2], img[i + 3]]
    };
    assert_eq!(px(0, 0), [255, 0, 255, 255]);
    assert_eq!(px(3, 3), [255, 0, 255, 255]);
    assert_eq!(px(4, 0), [0, 0, 0, 255]);
    assert_eq!(px(7, 3), [0, 0, 0, 255]);
    let tall = placeholder(4, 8);
    // Second row of cells flips the colour.
    let i = (4 * 4) * 4;
    assert_eq!(&tall[i..i + 4], &[0, 0, 0, 255]);
    assert!(placeholder(0, 5).is_empty());
}

#[test]
fn each_dimension_has_its_music_dir() {
    assert_eq!(music_dir(Dimension::Overworld), "overworld");
    assert_eq!(music_dir(Dimension::Underworld), "underworld");
    assert_eq!(music_dir(Dimension::Arena), "arena");
}

#[test]
fn structures_store_pets_wild() {
    let cat = EntityKind::Cat { owner: Some("ada".to_string()), sitting: true };
    assert_eq!(structure_entity_kind(&cat), EntityKind::Cat { owner: None, sitting: true });
    let pup = EntityKind::Puppy { owner: Some("bo".to_string()), sitting: false };
    assert_eq!(structure_entity_kind(&pup), EntityKind::Puppy { owner: None, sitting: false });
    let horse = EntityKind::Horse { owner: Some("cy".to_string()) };
    assert_eq!(structure_entity_kind(&horse), EntityKind::Horse { owner: None });
    // Other kinds, owned ones included, are kept as they are.
    let knight = EntityKind::Knight { owner: Some("di".to_string()) };
    assert_eq!(structure_entity_kind(&knight), knight);
    assert_eq!(structure_entity_kind(&EntityKind::Zombie), EntityKind::Zombie);
}

fn text(s: &str) -> ChatPiece {
    ChatPiece::Text(s.to_string())
}

#[test]
fn chat_lines_split_into_text_and_icons() {
    let reg = BlockRegistry::new();
    assert_eq!(
        chat_pieces(&reg, "got :stone: and :zombie:!"),
        vec![
            text("got "),
            ChatPiece::Icon(ChatIcon::Block(STONE), "stone".to_string()),
            text(" and "),
            ChatPiece::Icon(ChatIcon::Sprite("zombie"), "zombie".to_string()),
            text("!"),
        ]
    );
    assert_eq!(chat_pieces(&reg, ""), vec![]);
    assert_eq!(chat_pieces(&reg, "plain"), vec![text("plain")]);
}

#[test]
fn unknown_tokens_show_their_colons() {
    let reg = BlockRegistry::new();
    // An unknown token shows its ':' and reading resumes after it, so the
    // closing ':' can open a real token.
    assert_eq!(
        chat_pieces(&reg, "time: 12:stone:"),
        vec![
            text("time"),
            text(":"),
            text(" 12"),
            ChatPiece::Icon(ChatIcon::Block(STONE), "stone".to_string()),
        ]
    );
    // A ':' with no partner starts plain text to the end.
    assert_eq!(chat_pieces(&reg, "a:b"), vec![text("a"), text(":b")]);
    // Names with other characters never resolve, and air is invisible.
    assert_eq!(chat_pieces(&reg, ":st one:"), vec![text(":"), text("st one"), text(":")]);
    assert_eq!(chat_pieces(&reg, "::"), vec![text(":"), text(":")]);
    assert_eq!(chat_pieces(&reg, ":air:"), vec![text(":"), text("air"), text(":")]);
}

#[test]
fn player_names_default_when_blank() {
    assert_eq!(player_name("  ada "), "ada");
    assert_eq!(player_name(""), "player");
    assert_eq!(player_name(" \t "), "player");
}

#[test]
fn typed_passwords_win_over_saved_ones() {
    assert_eq!(resolve_password(" pw ", Some("saved")), Some("pw".to_string()));
    assert_eq!(resolve_password("", Some("saved")), Some("saved".to_string()));
    assert_eq!(resolve_password("   ", Some(" saved ")), Some(" saved ".to_string()));
    assert_eq!(resolve_password("", None), None);
}

#[test]
fn recipes_are_spelled_out() {
    let reg = BlockRegistry::new();
    let all = survival_cubed::recipe::recipes();
    assert_eq!(recipe_summary(&reg, &all[0]), "1 log \u{2192} 1 wood, 4 bark");
    assert_eq!(recipe_summary(&reg, &all[2]), "3 stone, 2 stick \u{2192} 1 stone_pickaxe");
    assert_eq!(
        recipe_tooltip(&reg, &all[7]),
        "Forge\n8 stone \u{2192} 1 forge"
    );
}
