//! Wire-protocol vocabulary shared between client and server: block ids,
//! player-written block text, chest slot references and the protocol's
//! version constants.

use vstd::prelude::*;

use crate::text::{spec_is_blank, is_blank};

verus! {

/// Identifier of a block type. `0` is always air.
pub type BlockId = u16;

/// Maximum characters allowed on a single line of a `BlockText`.
pub const TEXT_COLS: usize = 15;
/// Maximum lines in one `BlockText` note.
pub const TEXT_ROWS: usize = 5;
/// Maximum notes a quest board may hold.
pub const QUEST_MAX_NOTES: usize = 5;
/// Maximum length (in characters) of a locked-chest password.
pub const PASSWORD_MAX_LEN: usize = 24;
/// Wire-protocol compatibility version, exchanged as a fixed 4-byte header.
pub const PROTOCOL_VERSION: u32 = 26;

/// Player-written text attached to a placed block: a sign carries a single
/// note of up to `TEXT_ROWS` lines; a quest board carries up to
/// `QUEST_MAX_NOTES` such notes. Every line is capped at `TEXT_COLS` characters.
#[derive(Debug, Clone, PartialEq)]
pub enum BlockText {
    /// A sign's body: up to `TEXT_ROWS` lines.
    Sign(Vec<String>),
    /// A quest board's notes, each up to `TEXT_ROWS` lines.
    Quest(Vec<Vec<String>>),
}

/// A reference to one slot involved in a chest move.
#[derive(Debug, Clone, Copy, PartialEq, Eq)]
pub enum SlotRef {
    /// A slot of the player's own inventory.
    Player(u8),
    /// A slot of the currently-open chest.
    Chest(u8),
}

/// A line cut to at most `TEXT_COLS` characters.
pub open spec fn clamped_line(l: Seq<char>) -> Seq<char> {
    if l.len() <= TEXT_COLS { l } else { l.take(TEXT_COLS as int) }
}

/// `out` is the note `lines` cut to at most `TEXT_ROWS` lines, each clamped.
pub open spec fn is_clamped_note(lines: Seq<String>, out: Seq<String>) -> bool {
    &&& out.len() == (if lines.len() <= TEXT_ROWS { lines.len() } else { TEXT_ROWS as nat })
    &&& forall|i: int| 0 <= i < out.len() ==> (#[trigger] out[i])@ == clamped_line(lines[i]@)
}

/// `out` is `text` clamped to the line, row and note limits.
pub open spec fn is_sanitized(text: BlockText, out: BlockText) -> bool {
    match (text, out) {
        (BlockText::Sign(lines), BlockText::Sign(o)) => is_clamped_note(lines@, o@),
        (BlockText::Quest(notes), BlockText::Quest(o)) => {
            &&& o@.len() == (if notes@.len() <= QUEST_MAX_NOTES { notes@.len() } else { QUEST_MAX_NOTES as nat })
            &&& forall|i: int| 0 <= i < o@.len() ==> is_clamped_note(notes@[i]@, #[trigger] o@[i]@)
        },
        _ => false,
    }
}

/// Whether every line of `lines` is blank.
pub open spec fn note_blank(lines: Seq<String>) -> bool {
    forall|i: int| 0 <= i < lines.len() ==> spec_is_blank(#[trigger] lines[i]@)
}

/// Truncate one line to `TEXT_COLS` characters (counting Unicode scalar values).
fn clamp_line(line: &str) -> (r: String)
    ensures
        r@ == clamped_line(line@),
{
    let n = line.unicode_len();
    let end = if n <= TEXT_COLS { n } else { TEXT_COLS };
    let part = line.substring_char(0, end);
    proof {
        if n <= TEXT_COLS {
            assert(line@.subrange(0, end as int) =~= line@);
        }
    }
    part.to_owned()
}

/// Clamp a note to `TEXT_ROWS` lines, each truncated to `TEXT_COLS` characters.
fn clamp_note(lines: &[String]) -> (r: Vec<String>)
    ensures
        is_clamped_note(lines@, r@),
{
    let n = if lines.len() <= TEXT_ROWS { lines.len() } else { TEXT_ROWS };
    let mut out: Vec<String> = Vec::new();
    let mut i: usize = 0;
    while i < n
        invariant
            n <= lines@.len(),
            n == (if lines@.len() <= TEXT_ROWS { lines@.len() } else { TEXT_ROWS as nat }),
            i <= n,
            out@.len() == i,
            forall|j: int| 0 <= j < i ==> (#[trigger] out@[j])@ == clamped_line(lines@[j]@),
        decreases n - i,
    {
        out.push(clamp_line(lines[i].as_str()));
        i += 1;
    }
    out
}

/// Whether every line of `lines` is blank.
fn lines_blank(lines: &[String]) -> (r: bool)
    ensures
        r == note_blank(lines@),
{
    let mut i: usize = 0;
    while i < lines.len()
        invariant
            i <= lines@.len(),
            forall|j: int| 0 <= j < i ==> spec_is_blank(#[trigger] lines@[j]@),
        decreases lines@.len() - i,
    {
        if !is_blank(lines[i].as_str()) {
            return false;
        }
        i += 1;
    }
    true
}

/// Whether every note of `notes` is blank.
fn notes_blank(notes: &[Vec<String>]) -> (r: bool)
    ensures
        r == forall|i: int| 0 <= i < notes@.len() ==> note_blank(#[trigger] notes@[i]@),
{
    let mut i: usize = 0;
    while i < notes.len()
        invariant
            i <= notes@.len(),
            forall|j: int| 0 <= j < i ==> note_blank(#[trigger] notes@[j]@),
        decreases notes@.len() - i,
    {
        if !lines_blank(notes[i].as_slice()) {
            assert(!note_blank(notes@[i as int]@));
            return false;
        }
        i += 1;
    }
    true
}

impl BlockText {
    /// A copy clamped to the line/row/note limits, so untrusted client input
    /// can't store oversized text.
    pub fn sanitized(&self) -> (r: BlockText)
        ensures
            is_sanitized(*self, r),
    {
        match self {
            BlockText::Sign(lines) => BlockText::Sign(clamp_note(lines.as_slice())),
            BlockText::Quest(notes) => {
                let n = if notes.len() <= QUEST_MAX_NOTES { notes.len() } else { QUEST_MAX_NOTES };
                let mut out: Vec<Vec<String>> = Vec::new();
                let mut i: usize = 0;
                while i < n
                    invariant
                        n <= notes@.len(),
                        n == (if notes@.len() <= QUEST_MAX_NOTES { notes@.len() } else { QUEST_MAX_NOTES as nat }),
                        i <= n,
                        out@.len() == i,
                        forall|j: int| 0 <= j < i ==> is_clamped_note(notes@[j]@, #[trigger] out@[j]@),
                    decreases n - i,
                {
                    out.push(clamp_note(notes[i].as_slice()));
                    i += 1;
                }
                BlockText::Quest(out)
            },
        }
    }

    /// Whether this holds no actual text (every line blank), so a cleared sign
    /// or board need not be stored.
    pub fn is_blank(&self) -> (r: bool)
        ensures
            r == match *self {
                BlockText::Sign(lines) => note_blank(lines@),
                BlockText::Quest(notes) => forall|i: int|
                    0 <= i < notes@.len() ==> note_blank(#[trigger] notes@[i]@),
            },
    {
        match self {
            BlockText::Sign(lines) => lines_blank(lines.as_slice()),
            BlockText::Quest(notes) => notes_blank(notes.as_slice()),
        }
    }

    /// Whether this text belongs on `block`: a sign's text only on a sign, a
    /// quest board's only on a quest board.
    pub fn matches_block(&self, block: BlockId) -> (r: bool)
        ensures
            r == match *self {
                BlockText::Sign(_) => block == crate::block::SIGN,
                BlockText::Quest(_) => block == crate::block::QUEST_BOARD,
            },
    {
        match self {
            BlockText::Sign(_) => crate::block::is_sign(block),
            BlockText::Quest(_) => crate::block::is_quest_board(block),
        }
    }
}

/// Sanitizing is idempotent: clamping already-clamped text changes nothing.
pub proof fn law_sanitize_idempotent(text: BlockText, once: BlockText, twice: BlockText)
    requires
        is_sanitized(text, once),
        is_sanitized(once, twice),
    ensures
        is_sanitized(text, twice),
{
    match (text, once, twice) {
        (BlockText::Sign(a), BlockText::Sign(b), BlockText::Sign(c)) => {
            assert forall|i: int| 0 <= i < c@.len() implies (#[trigger] c@[i])@ == clamped_line(a@[i]@) by {
                assert(c@[i]@ == clamped_line(b@[i]@));
                assert(b@[i]@ == clamped_line(a@[i]@));
                assert(clamped_line(clamped_line(a@[i]@)) =~= clamped_line(a@[i]@));
            }
        },
        (BlockText::Quest(a), BlockText::Quest(b), BlockText::Quest(c)) => {
            assert forall|i: int| 0 <= i < c@.len() implies is_clamped_note(a@[i]@, #[trigger] c@[i]@) by {
                assert(is_clamped_note(b@[i]@, c@[i]@));
                assert(is_clamped_note(a@[i]@, b@[i]@));
                assert forall|j: int| 0 <= j < c@[i]@.len() implies (#[trigger] c@[i]@[j])@ == clamped_line(a@[i]@[j]@) by {
                    assert(c@[i]@[j]@ == clamped_line(b@[i]@[j]@));
                    assert(b@[i]@[j]@ == clamped_line(a@[i]@[j]@));
                    assert(clamped_line(clamped_line(a@[i]@[j]@)) =~= clamped_line(a@[i]@[j]@));
                }
            }
        },
        _ => {},
    }
}

/// Whether the note `lines` is within the limits: at most `TEXT_ROWS` lines of
/// at most `TEXT_COLS` characters each.
pub open spec fn note_within_limits(lines: Seq<String>) -> bool {
    lines.len() <= TEXT_ROWS && forall|i: int| 0 <= i < lines.len() ==> (#[trigger] lines[i])@.len() <= TEXT_COLS
}

/// Whether `text` is within the limits: a sign's note, or at most
/// `QUEST_MAX_NOTES` notes, each within the note limits.
pub open spec fn within_limits(text: BlockText) -> bool {
    match text {
        BlockText::Sign(lines) => note_within_limits(lines@),
        BlockText::Quest(notes) => notes@.len() <= QUEST_MAX_NOTES && forall|i: int|
            0 <= i < notes@.len() ==> note_within_limits(#[trigger] notes@[i]@),
    }
}

/// Sanitized text is within the limits, so untrusted input can't store
/// oversized text.
pub proof fn law_sanitized_within_limits(text: BlockText, out: BlockText)
    requires
        is_sanitized(text, out),
    ensures
        within_limits(out),
{
    match (text, out) {
        (BlockText::Sign(a), BlockText::Sign(b)) => {
            assert forall|i: int| 0 <= i < b@.len() implies (#[trigger] b@[i])@.len() <= TEXT_COLS by {
                assert(b@[i]@ == clamped_line(a@[i]@));
            }
        },
        (BlockText::Quest(a), BlockText::Quest(b)) => {
            assert forall|i: int| 0 <= i < b@.len() implies note_within_limits(#[trigger] b@[i]@) by {
                assert(is_clamped_note(a@[i]@, b@[i]@));
                assert forall|j: int| 0 <= j < b@[i]@.len() implies (#[trigger] b@[i]@[j])@.len() <= TEXT_COLS by {
                    assert(b@[i]@[j]@ == clamped_line(a@[i]@[j]@));
                }
            }
        },
        _ => {},
    }
}

} // verus!
