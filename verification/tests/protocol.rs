use survival_cubed::block::{QUEST_BOARD, SIGN, STONE};
use survival_cubed::protocol::{
    BlockText, SlotRef, PASSWORD_MAX_LEN, PROTOCOL_VERSION, QUEST_MAX_NOTES, TEXT_COLS, TEXT_ROWS,
};

fn strings(v: &[&str]) -> Vec<String> {
    v.iter().map(|s| s.to_string()).collect()
}

#[test]
fn protocol_constants() {
    assert_eq!(PROTOCOL_VERSION, 26);
    assert_eq!(TEXT_COLS, 15);
    assert_eq!(TEXT_ROWS, 5);
    assert_eq!(QUEST_MAX_NOTES, 5);
    assert_eq!(PASSWORD_MAX_LEN, 24);
    assert_ne!(SlotRef::Player(1), SlotRef::Chest(1));
}

#[test]
fn sign_text_is_clamped_to_rows_and_columns() {
    let long = "abcdefghijklmnopqrstuvwxyz";
    let text = BlockText::Sign(strings(&[long, "ok", "", "4", "5", "six", "seven"]));
    let clean = text.sanitized();
    assert_eq!(
        clean,
        BlockText::Sign(strings(&["abcdefghijklmno", "ok", "", "4", "5"]))
    );
    // Clamping counts characters, not bytes.
    let wide = "ééééééééééééééééééé";
    let clean = BlockText::Sign(strings(&[wide])).sanitized();
    assert_eq!(clean, BlockText::Sign(strings(&["ééééééééééééééé"])));
}

#[test]
fn quest_boards_are_clamped_per_note() {
    let note = strings(&["1", "2", "3", "4", "5", "6"]);
    let notes = vec![note.clone(); 7];
    let clean = BlockText::Quest(notes).sanitized();
    match clean {
        BlockText::Quest(n) => {
            assert_eq!(n.len(), QUEST_MAX_NOTES);
            for lines in n {
                assert_eq!(lines, strings(&["1", "2", "3", "4", "5"]));
            }
        }
        BlockText::Sign(_) => panic!("kind changed"),
    }
}

#[test]
fn sanitizing_twice_changes_nothing_more() {
    let text = BlockText::Sign(strings(&["a very long line indeed", "x", "y", "z", "w", "v"]));
    let once = text.sanitized();
    assert_eq!(once.sanitized(), once);
}

#[test]
fn blank_text_is_recognized() {
    assert!(BlockText::Sign(vec![]).is_blank());
    assert!(BlockText::Sign(strings(&["", "  ", "\t"])).is_blank());
    assert!(!BlockText::Sign(strings(&["", " x "])).is_blank());
    assert!(BlockText::Quest(vec![]).is_blank());
    assert!(BlockText::Quest(vec![strings(&[" "]), vec![]]).is_blank());
    assert!(!BlockText::Quest(vec![strings(&[" "]), strings(&["hi"])]).is_blank());
}

#[test]
fn text_belongs_on_its_block() {
    let sign = BlockText::Sign(vec![]);
    let quest = BlockText::Quest(vec![]);
    assert!(sign.matches_block(SIGN));
    assert!(!sign.matches_block(QUEST_BOARD));
    assert!(quest.matches_block(QUEST_BOARD));
    assert!(!quest.matches_block(SIGN));
    assert!(!sign.matches_block(STONE));
}
