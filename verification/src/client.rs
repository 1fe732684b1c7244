//! The decisions behind the client's menus and chat: which world names are
//! acceptable, how item names are shown, how an item-giver query or a chat
//! icon token resolves, how seed text becomes a seed, and the fallback art.

use vstd::prelude::*;
use vstd::string::StringSliceAdditionalSpecFns;

use crate::block::{spec_get, BlockDef, BlockRegistry, AIR};
use crate::entity::EntityKind;
use crate::protocol::BlockId;
use crate::recipe::Recipe;
use crate::net::{first_index_of, lemma_first_index_none, lemma_first_index_prefix};
use crate::text::{
    ascii_alphanumeric, ascii_lower, char_alphanumeric, char_uppercase, chars_eq, dec_text, from_chars, is_alphanumeric,
    parse_i32, parse_u16, push_decimal, spec_parse_i32, spec_parse_u16, to_ascii_lower, to_chars, to_uppercase,
    trim, trimmed,
};
use crate::world::Dimension;

verus! {

// --- World names -----------------------------------------------------------------------

/// Whether `c` may appear in a world name: a letter or number, a space, `-` or `_`.
pub open spec fn world_name_char(c: char) -> bool {
    char_alphanumeric(c) || c == ' ' || c == '-' || c == '_'
}

/// Validate a user-entered world name, returning the trimmed name if it is safe
/// to use as a directory: non-empty and made only of letters, numbers, spaces,
/// `-` and `_`, which rules out path separators and traversal.
pub fn sanitize_world_name(input: &str) -> (r: Option<String>)
    ensures
        r is Some <==> (trimmed(input@).len() > 0 && forall|i: int|
            0 <= i < trimmed(input@).len() ==> world_name_char(#[trigger] trimmed(input@)[i])),
        r matches Some(s) ==> s@ == trimmed(input@),
        r matches Some(s) ==> forall|i: int| 0 <= i < s@.len() && (#[trigger] s@[i] as u32) < 128
            ==> ascii_alphanumeric(s@[i]) || s@[i] == ' ' || s@[i] == '-' || s@[i] == '_',
{
    let t = trim(input);
    if t.len() == 0 {
        return None;
    }
    let mut i: usize = 0;
    while i < t.len()
        invariant
            t@ == trimmed(input@),
            i <= t@.len(),
            forall|j: int| 0 <= j < i ==> world_name_char(#[trigger] t@[j]),
            forall|j: int| 0 <= j < i && (#[trigger] t@[j] as u32) < 128
                ==> ascii_alphanumeric(t@[j]) || t@[j] == ' ' || t@[j] == '-' || t@[j] == '_',
        decreases t@.len() - i,
    {
        let c = t[i];
        if !(is_alphanumeric(c) || c == ' ' || c == '-' || c == '_') {
            assert(!world_name_char(t@[i as int]));
            return None;
        }
        i += 1;
    }
    Some(from_chars(t.as_slice()))
}

// --- Display names ----------------------------------------------------------------------

/// The display label for an id name: each `_` becomes a space and the first
/// character of every `_`-separated word is uppercased.
pub open spec fn display_name(s: Seq<char>) -> Seq<char>
    decreases s.len(),
{
    if s.len() == 0 {
        seq![]
    } else {
        let pre = s.drop_last();
        let c = s.last();
        if c == '_' {
            display_name(pre).push(' ')
        } else if pre.len() == 0 || pre.last() == '_' {
            display_name(pre) + char_uppercase(c)
        } else {
            display_name(pre).push(c)
        }
    }
}

/// Turn a block/item id name like `iron_pickaxe` into a display label like
/// `Iron Pickaxe` for tooltips.
pub fn item_display_name(name: &str) -> (r: String)
    ensures
        r@ == display_name(name@),
{
    let cs = to_chars(name);
    let mut out: Vec<char> = Vec::new();
    let mut i: usize = 0;
    while i < cs.len()
        invariant
            i <= cs@.len(),
            out@ == display_name(cs@.take(i as int)),
        decreases cs@.len() - i,
    {
        let c = cs[i];
        proof {
            assert(cs@.take(i + 1).drop_last() =~= cs@.take(i as int));
        }
        if c == '_' {
            out.push(' ');
        } else if i == 0 || cs[i - 1] == '_' {
            let up = to_uppercase(c);
            let mut k: usize = 0;
            let ghost base = out@;
            while k < up.len()
                invariant
                    k <= up@.len(),
                    out@ == base + up@.take(k as int),
                decreases up@.len() - k,
            {
                out.push(up[k]);
                k += 1;
                assert(out@ =~= base + up@.take(k as int));
            }
            assert(up@.take(k as int) =~= up@);
        } else {
            out.push(c);
        }
        i += 1;
    }
    assert(cs@.take(i as int) =~= cs@);
    from_chars(out.as_slice())
}

// --- Structures ------------------------------------------------------------------------

/// The kind stored for an entity captured into a structure: a pet (cat, puppy
/// or horse) set wild, anything else as it is.
pub open spec fn spec_structure_kind(k: EntityKind) -> EntityKind {
    match k {
        EntityKind::Cat { sitting, .. } => EntityKind::Cat { owner: None, sitting },
        EntityKind::Puppy { sitting, .. } => EntityKind::Puppy { owner: None, sitting },
        EntityKind::Horse { .. } => EntityKind::Horse { owner: None },
        other => other,
    }
}

/// Normalize an entity kind for storage in a structure: a captured pet is set
/// wild (owner cleared) so a pasted copy doesn't belong to whoever tamed the
/// captured pet. Other kinds are taken as-is.
pub fn structure_entity_kind(kind: &EntityKind) -> (r: EntityKind)
    ensures
        r == spec_structure_kind(*kind),
        (*kind is Cat || *kind is Puppy || *kind is Horse) ==> crate::entity::spec_owner(r) is None,
        !(*kind is Cat || *kind is Puppy || *kind is Horse) ==> r == *kind,
{
    match kind {
        EntityKind::Cat { sitting, .. } => EntityKind::Cat { owner: None, sitting: *sitting },
        EntityKind::Puppy { sitting, .. } => EntityKind::Puppy { owner: None, sitting: *sitting },
        EntityKind::Horse { .. } => EntityKind::Horse { owner: None },
        other => other.clone(),
    }
}

// --- Item-giver queries -------------------------------------------------------------------

/// A query lowercased (ASCII) with spaces and dashes turned into underscores.
pub open spec fn normalized_query(q: Seq<char>) -> Seq<char> {
    q.map_values(|c: char| if ascii_lower(c) == ' ' || ascii_lower(c) == '-' { '_' } else { ascii_lower(c) })
}

/// The id of the first non-air definition in `defs` named `n`.
pub open spec fn first_named(defs: Seq<BlockDef>, n: Seq<char>) -> Option<BlockId>
    decreases defs.len(),
{
    if defs.len() == 0 {
        None
    } else {
        match first_named(defs.drop_last(), n) {
            Some(id) => Some(id),
            None => if defs.last().id != AIR && defs.last().name@ == n {
                Some(defs.last().id)
            } else {
                None
            },
        }
    }
}

/// What an item-giver query resolves to: nothing for a blank query; for a
/// number, that id when it is in the registry and not air; otherwise the first
/// non-air item whose name matches the normalized query.
pub open spec fn spec_resolve_item(defs: Seq<BlockDef>, query: Seq<char>) -> Option<BlockId> {
    let q = trimmed(query);
    if q.len() == 0 {
        None
    } else {
        match spec_parse_u16(q) {
            Some(id) => if (id as int) < defs.len() && id != AIR { Some(id) } else { None },
            None => first_named(defs, normalized_query(q)),
        }
    }
}

/// Resolve an item-giver query to a `BlockId`. The query is either a numeric
/// id (`"22"`) or a registry name (`"cooked_meat"`, also accepting spaces or
/// dashes in place of underscores, case-insensitively). Returns `None` for an
/// empty, out-of-range, or unknown query, and never resolves to air.
pub fn resolve_item(registry: &BlockRegistry, query: &str) -> (r: Option<BlockId>)
    ensures
        r == spec_resolve_item(registry@, query@),
        r matches Some(id) ==> id != AIR,
{
    let q = trim(query);
    if q.len() == 0 {
        return None;
    }
    if let Some(id) = parse_u16(q.as_slice()) {
        return if (id as usize) < registry.len() && id != AIR { Some(id) } else { None };
    }
    let mut norm: Vec<char> = Vec::new();
    let mut i: usize = 0;
    while i < q.len()
        invariant
            i <= q@.len(),
            norm@ == normalized_query(q@).take(i as int),
        decreases q@.len() - i,
    {
        let l = to_ascii_lower(q[i]);
        norm.push(if l == ' ' || l == '-' { '_' } else { l });
        i += 1;
        assert(norm@ =~= normalized_query(q@).take(i as int));
    }
    assert(norm@ =~= normalized_query(q@));
    let defs = registry.defs();
    let mut k: usize = 0;
    while k < defs.len()
        invariant
            k <= defs@.len(),
            defs@ == registry@,
            norm@ == normalized_query(q@),
            q@ == trimmed(query@),
            q@.len() > 0,
            spec_parse_u16(q@) is None,
            first_named(defs@.take(k as int), norm@) is None,
        decreases defs@.len() - k,
    {
        proof {
            assert(defs@.take(k + 1).drop_last() =~= defs@.take(k as int));
        }
        let d = &defs[k];
        let name = to_chars(d.name);
        if d.id != AIR && chars_eq(name.as_slice(), norm.as_slice()) {
            proof {
                lemma_first_found(defs@, k as int, norm@);
            }
            return Some(d.id);
        }
        k += 1;
    }
    assert(defs@.take(k as int) =~= defs@);
    None
}

/// Once a prefix holds no match, a match at the next position is the first.
proof fn lemma_first_found(defs: Seq<BlockDef>, k: int, n: Seq<char>)
    requires
        0 <= k < defs.len(),
        first_named(defs.take(k), n) is None,
        defs[k].id != AIR && defs[k].name@ == n,
    ensures
        first_named(defs, n) == Some(defs[k].id),
    decreases defs.len(),
{
    if k < defs.len() - 1 {
        assert(defs.drop_last().take(k) =~= defs.take(k));
        lemma_first_found(defs.drop_last(), k, n);
    } else {
        assert(defs.drop_last() =~= defs.take(k));
    }
}

// --- Chat icons -------------------------------------------------------------------------------

/// Entity sheets a `:token:` in chat can draw.
pub open spec fn chat_entity_icons() -> Seq<&'static str> {
    seq!["player", "slime", "chicken", "goat", "horse", "zombie"]
}

/// A `:token:` chat icon resolved to the art it should draw.
#[derive(Debug, Clone, Copy, PartialEq, Eq)]
pub enum ChatIcon {
    /// A block or item, drawn from its atlas tile.
    Block(BlockId),
    /// An entity, drawn from frame 0 of its animation sheet.
    Sprite(&'static str),
}

/// The id of the first visible definition in `defs` named `n`.
pub open spec fn first_visible_named(defs: Seq<BlockDef>, n: Seq<char>) -> Option<BlockId>
    decreases defs.len(),
{
    if defs.len() == 0 {
        None
    } else {
        match first_visible_named(defs.drop_last(), n) {
            Some(id) => Some(id),
            None => if defs.last().visible && defs.last().name@ == n {
                Some(defs.last().id)
            } else {
                None
            },
        }
    }
}

/// The index of the first name in `names` equal to `n`.
pub open spec fn first_index(names: Seq<&'static str>, n: Seq<char>) -> Option<int>
    decreases names.len(),
{
    if names.len() == 0 {
        None
    } else {
        match first_index(names.drop_last(), n) {
            Some(i) => Some(i),
            None => if names.last()@ == n { Some(names.len() - 1) } else { None },
        }
    }
}

/// What a chat token resolves to: the first visible item with that name, else
/// the entity sheet of that name, else nothing.
pub open spec fn spec_chat_icon(defs: Seq<BlockDef>, token: Seq<char>) -> Option<ChatIcon> {
    match first_visible_named(defs, token) {
        Some(id) => Some(ChatIcon::Block(id)),
        None => match first_index(chat_entity_icons(), token) {
            Some(i) => Some(ChatIcon::Sprite(chat_entity_icons()[i])),
            None => None,
        },
    }
}

proof fn lemma_first_visible_found(defs: Seq<BlockDef>, k: int, n: Seq<char>)
    requires
        0 <= k < defs.len(),
        first_visible_named(defs.take(k), n) is None,
        defs[k].visible && defs[k].name@ == n,
    ensures
        first_visible_named(defs, n) == Some(defs[k].id),
    decreases defs.len(),
{
    if k < defs.len() - 1 {
        assert(defs.drop_last().take(k) =~= defs.take(k));
        lemma_first_visible_found(defs.drop_last(), k, n);
    } else {
        assert(defs.drop_last() =~= defs.take(k));
    }
}

proof fn lemma_first_index_found(names: Seq<&'static str>, k: int, n: Seq<char>)
    requires
        0 <= k < names.len(),
        first_index(names.take(k), n) is None,
        names[k]@ == n,
    ensures
        first_index(names, n) == Some(k),
    decreases names.len(),
{
    if k < names.len() - 1 {
        assert(names.drop_last().take(k) =~= names.take(k));
        lemma_first_index_found(names.drop_last(), k, n);
    } else {
        assert(names.drop_last() =~= names.take(k));
    }
}

/// Resolve a `:token:` to a block/item tile or an entity sprite, or `None` if
/// the token names nothing drawable (so it should render as literal text).
pub fn resolve_chat_icon(registry: &BlockRegistry, token: &str) -> (r: Option<ChatIcon>)
    ensures
        r == spec_chat_icon(registry@, token@),
{
    let tok = to_chars(token);
    let defs = registry.defs();
    let mut k: usize = 0;
    while k < defs.len()
        invariant
            k <= defs@.len(),
            defs@ == registry@,
            tok@ == token@,
            first_visible_named(defs@.take(k as int), tok@) is None,
        decreases defs@.len() - k,
    {
        proof {
            assert(defs@.take(k + 1).drop_last() =~= defs@.take(k as int));
        }
        let d = &defs[k];
        let name = to_chars(d.name);
        if d.visible && chars_eq(name.as_slice(), tok.as_slice()) {
            proof {
                lemma_first_visible_found(defs@, k as int, tok@);
            }
            return Some(ChatIcon::Block(d.id));
        }
        k += 1;
    }
    assert(defs@.take(k as int) =~= defs@);
    let icons: Vec<&'static str> = vec!["player", "slime", "chicken", "goat", "horse", "zombie"];
    assert(icons@ =~= chat_entity_icons());
    let mut i: usize = 0;
    while i < icons.len()
        invariant
            i <= icons@.len(),
            icons@ == chat_entity_icons(),
            tok@ == token@,
            first_visible_named(registry@, tok@) is None,
            first_index(icons@.take(i as int), tok@) is None,
        decreases icons@.len() - i,
    {
        proof {
            assert(icons@.take(i + 1).drop_last() =~= icons@.take(i as int));
        }
        let name = to_chars(icons[i]);
        if chars_eq(name.as_slice(), tok.as_slice()) {
            proof {
                lemma_first_index_found(icons@, i as int, tok@);
            }
            return Some(ChatIcon::Sprite(icons[i]));
        }
        i += 1;
    }
    assert(icons@.take(i as int) =~= icons@);
    None
}

// --- Chat lines ------------------------------------------------------------------------------

/// Whether `t` can name a `:token:`: one or more ASCII letters, digits or `_`.
pub open spec fn token_name(t: Seq<char>) -> bool {
    t.len() > 0 && forall|i: int| 0 <= i < t.len() ==> (ascii_alphanumeric(#[trigger] t[i]) || t[i] == '_')
}

/// How a chat message is drawn, piece by piece: plain text (`None`) or an icon
/// (`Some`) together with the token that names it. Text up to the first `:` is
/// plain; a `:token:` whose name resolves (see `spec_chat_icon`) becomes that
/// icon; otherwise the `:` is shown literally and reading resumes right after
/// it, so a later `:` can still open a token; a `:` with no closing `:` starts
/// plain text to the end.
#[verifier::opaque]
pub open spec fn chat_pieces_of(defs: Seq<BlockDef>, rest: Seq<char>) -> Seq<(Option<ChatIcon>, Seq<char>)>
    decreases rest.len(),
{
    if rest.len() == 0 {
        seq![]
    } else {
        match first_index_of(rest, ':') {
            Some(open) if 0 <= open < rest.len() => {
                let pre: Seq<(Option<ChatIcon>, Seq<char>)> = if open > 0 {
                    seq![(None, rest.take(open))]
                } else {
                    seq![]
                };
                let after = rest.skip(open + 1);
                match first_index_of(after, ':') {
                    Some(close) if 0 <= close < after.len() => {
                        let token = after.take(close);
                        if token_name(token) && spec_chat_icon(defs, token) is Some {
                            pre + seq![(spec_chat_icon(defs, token), token)] + chat_pieces_of(defs, after.skip(close + 1))
                        } else {
                            pre + seq![(None, seq![':'])] + chat_pieces_of(defs, after)
                        }
                    },
                    _ => pre + seq![(None, rest.skip(open))],
                }
            },
            _ => seq![(None, rest)],
        }
    }
}

/// A piece of a chat message to draw.
#[derive(Debug, Clone, PartialEq)]
pub enum ChatPiece {
    /// Text shown as it is.
    Text(String),
    /// An inline icon, and the token naming it (shown on hover).
    Icon(ChatIcon, String),
}

/// A piece as plain text (`None`) or an icon (`Some`), with its characters.
pub open spec fn piece_view(p: ChatPiece) -> (Option<ChatIcon>, Seq<char>) {
    match p {
        ChatPiece::Text(s) => (None, s@),
        ChatPiece::Icon(icon, token) => (Some(icon), token@),
    }
}

/// The pieces `ps` as text or icons.
pub open spec fn piece_views(ps: Seq<ChatPiece>) -> Seq<(Option<ChatIcon>, Seq<char>)> {
    ps.map_values(|p: ChatPiece| piece_view(p))
}

/// The first `:` at or after `from`.
fn find_colon_from(cs: &[char], from: usize) -> (r: Option<usize>)
    requires
        from <= cs@.len(),
    ensures
        r is None <==> first_index_of(cs@.skip(from as int), ':') is None,
        r matches Some(k) ==> from <= k < cs@.len() && first_index_of(cs@.skip(from as int), ':') == Some(k - from),
{
    let ghost t = cs@.skip(from as int);
    let mut i: usize = from;
    while i < cs.len()
        invariant
            from <= i <= cs@.len(),
            t == cs@.skip(from as int),
            forall|j: int| 0 <= j < i - from ==> t[j] != ':',
        decreases cs@.len() - i,
    {
        if cs[i] == ':' {
            proof {
                let k = i - from;
                lemma_first_index_none(t.take(k), ':');
                assert(t.take(k + 1).drop_last() =~= t.take(k));
                assert(t.take(k + 1).last() == ':');
                lemma_first_index_prefix(t, ':', k + 1);
            }
            return Some(i);
        }
        i += 1;
    }
    proof {
        lemma_first_index_none(t, ':');
    }
    None
}

/// The characters of `cs` from `from` to `to`, as a string.
fn text_between(cs: &[char], from: usize, to: usize) -> (r: String)
    requires
        from <= to <= cs@.len(),
    ensures
        r@ == cs@.subrange(from as int, to as int),
{
    let mut out: Vec<char> = Vec::new();
    let mut k = from;
    while k < to
        invariant
            from <= k <= to,
            to <= cs@.len(),
            out@ == cs@.subrange(from as int, k as int),
        decreases to - k,
    {
        out.push(cs[k]);
        k += 1;
        assert(out@ =~= cs@.subrange(from as int, k as int));
    }
    from_chars(out.as_slice())
}

/// Whether the characters `cs[from..to]` can name a token.
fn is_token_name(cs: &[char], from: usize, to: usize) -> (r: bool)
    requires
        from <= to <= cs@.len(),
    ensures
        r == token_name(cs@.subrange(from as int, to as int)),
{
    let ghost t = cs@.subrange(from as int, to as int);
    if from == to {
        return false;
    }
    let mut k = from;
    while k < to
        invariant
            from <= k <= to,
            to <= cs@.len(),
            t == cs@.subrange(from as int, to as int),
            forall|j: int| 0 <= j < k - from ==> (ascii_alphanumeric(#[trigger] t[j]) || t[j] == '_'),
        decreases to - k,
    {
        let c = cs[k];
        if !(('0' <= c && c <= '9') || ('a' <= c && c <= 'z') || ('A' <= c && c <= 'Z') || c == '_') {
            assert(t[k - from] == c);
            return false;
        }
        k += 1;
    }
    true
}

proof fn lemma_piece_views_push(ps: Seq<ChatPiece>, p: ChatPiece)
    ensures
        piece_views(ps.push(p)) == piece_views(ps).push(piece_view(p)),
{
    assert(piece_views(ps.push(p)) =~= piece_views(ps).push(piece_view(p)));
}

/// The plain text before a `:` at `open`, if any.
pub open spec fn text_before(rest: Seq<char>, open: int) -> Seq<(Option<ChatIcon>, Seq<char>)> {
    if open > 0 {
        seq![(None, rest.take(open))]
    } else {
        seq![]
    }
}

proof fn lemma_pieces_no_colon(defs: Seq<BlockDef>, rest: Seq<char>)
    requires
        rest.len() > 0,
        first_index_of(rest, ':') is None,
    ensures
        chat_pieces_of(defs, rest) == seq![(None::<ChatIcon>, rest)],
{
    reveal_with_fuel(chat_pieces_of, 1);
}

proof fn lemma_pieces_unclosed(defs: Seq<BlockDef>, rest: Seq<char>, open: int)
    requires
        0 <= open < rest.len(),
        first_index_of(rest, ':') == Some(open),
        first_index_of(rest.skip(open + 1), ':') is None,
    ensures
        chat_pieces_of(defs, rest) == text_before(rest, open) + seq![(None::<ChatIcon>, rest.skip(open))],
{
    reveal_with_fuel(chat_pieces_of, 1);
}

proof fn lemma_pieces_token(defs: Seq<BlockDef>, rest: Seq<char>, open: int, close: int)
    requires
        0 <= open < rest.len(),
        first_index_of(rest, ':') == Some(open),
        0 <= close < rest.skip(open + 1).len(),
        first_index_of(rest.skip(open + 1), ':') == Some(close),
    ensures
        ({
            let after = rest.skip(open + 1);
            let token = after.take(close);
            &&& (token_name(token) && spec_chat_icon(defs, token) is Some) ==> chat_pieces_of(defs, rest)
                == text_before(rest, open) + seq![(spec_chat_icon(defs, token), token)] + chat_pieces_of(defs, after.skip(close + 1))
            &&& !(token_name(token) && spec_chat_icon(defs, token) is Some) ==> chat_pieces_of(defs, rest)
                == text_before(rest, open) + seq![(None::<ChatIcon>, seq![':'])] + chat_pieces_of(defs, after)
        }),
{
    reveal_with_fuel(chat_pieces_of, 1);
}

/// Reads the next piece or pieces of `cs` from `pos`, appending them to `out`,
/// and returns where reading goes on.
fn next_pieces(registry: &BlockRegistry, cs: &[char], pos: usize, out: &mut Vec<ChatPiece>) -> (next: usize)
    requires
        pos < cs@.len(),
    ensures
        pos < next <= cs@.len(),
        piece_views(final(out)@) + chat_pieces_of(registry@, cs@.skip(next as int))
            == piece_views(old(out)@) + chat_pieces_of(registry@, cs@.skip(pos as int)),
{
    let ghost rest = cs@.skip(pos as int);
    let ghost before = piece_views(out@);
    let n = cs.len();
    match find_colon_from(cs, pos) {
        None => {
            let t = text_between(cs, pos, n);
            proof {
                lemma_pieces_no_colon(registry@, rest);
                assert(t@ =~= rest);
                lemma_piece_views_push(out@, ChatPiece::Text(t));
                assert(cs@.skip(cs@.len() as int) =~= Seq::<char>::empty());
                reveal_with_fuel(chat_pieces_of, 1);
            }
            out.push(ChatPiece::Text(t));
            assert(piece_views(out@) + chat_pieces_of(registry@, cs@.skip(cs@.len() as int)) =~= before + seq![(None::<ChatIcon>, rest)]);
            n
        },
        Some(open) => {
            let ghost o: int = open - pos;
            if open > pos {
                let t = text_between(cs, pos, open);
                proof {
                    assert(t@ =~= rest.take(o));
                    lemma_piece_views_push(out@, ChatPiece::Text(t));
                }
                out.push(ChatPiece::Text(t));
            }
            assert(piece_views(out@) =~= before + text_before(rest, o));
            let ghost after = rest.skip(o + 1);
            assert(after =~= cs@.skip(open + 1));
            let ghost mid = piece_views(out@);
            match find_colon_from(cs, open + 1) {
                Some(close) => {
                    let ghost c: int = close - (open + 1);
                    let ghost token = after.take(c);
                    assert(token =~= cs@.subrange(open + 1, close as int));
                    proof {
                        lemma_pieces_token(registry@, rest, o, c);
                    }
                    if is_token_name(cs, open + 1, close) {
                        let name = text_between(cs, open + 1, close);
                        match resolve_chat_icon(registry, name.as_str()) {
                            Some(icon) => {
                                proof {
                                    lemma_piece_views_push(out@, ChatPiece::Icon(icon, name));
                                    assert(after.skip(c + 1) =~= cs@.skip(close + 1));
                                }
                                out.push(ChatPiece::Icon(icon, name));
                                assert(piece_views(out@) =~= mid + seq![(Some(icon), token)]);
                                return close + 1;
                            },
                            None => {},
                        }
                    }
                    let colon = from_chars(&[':']);
                    proof {
                        assert(colon@ =~= seq![':']);
                        lemma_piece_views_push(out@, ChatPiece::Text(colon));
                    }
                    out.push(ChatPiece::Text(colon));
                    assert(piece_views(out@) =~= mid + seq![(None::<ChatIcon>, seq![':'])]);
                    open + 1
                },
                None => {
                    let t = text_between(cs, open, n);
                    proof {
                        lemma_pieces_unclosed(registry@, rest, o);
                        assert(t@ =~= rest.skip(o));
                        lemma_piece_views_push(out@, ChatPiece::Text(t));
                        assert(cs@.skip(cs@.len() as int) =~= Seq::<char>::empty());
                        reveal_with_fuel(chat_pieces_of, 1);
                    }
                    out.push(ChatPiece::Text(t));
                    assert(piece_views(out@) =~= mid + seq![(None::<ChatIcon>, rest.skip(o))]);
                    assert(piece_views(out@) + chat_pieces_of(registry@, cs@.skip(cs@.len() as int)) =~= piece_views(out@));
                    n
                },
            }
        },
    }
}

/// Split a chat message into the pieces it is drawn as: plain text and the
/// icons its `:token:`s name (see `chat_pieces_of`).
pub fn chat_pieces(registry: &BlockRegistry, text: &str) -> (r: Vec<ChatPiece>)
    ensures
        piece_views(r@) == chat_pieces_of(registry@, text@),
{
    let cs = to_chars(text);
    let mut out: Vec<ChatPiece> = Vec::new();
    let mut pos: usize = 0;
    assert(cs@.skip(0) =~= cs@);
    assert(piece_views(out@) =~= Seq::<(Option<ChatIcon>, Seq<char>)>::empty());
    while pos < cs.len()
        invariant
            pos <= cs@.len(),
            cs@ == text@,
            piece_views(out@) + chat_pieces_of(registry@, cs@.skip(pos as int)) == chat_pieces_of(registry@, text@),
        decreases cs@.len() - pos,
    {
        pos = next_pieces(registry, cs.as_slice(), pos, &mut out);
    }
    proof {
        assert(cs@.skip(pos as int) =~= Seq::<char>::empty());
        reveal_with_fuel(chat_pieces_of, 1);
        assert(piece_views(out@) =~= piece_views(out@) + chat_pieces_of(registry@, cs@.skip(pos as int)));
    }
    out
}

// --- Menu choices ---------------------------------------------------------------------------

/// The name the player joins under: the trimmed name typed in the menu, or
/// `player` when that is blank.
pub fn player_name(input: &str) -> (r: String)
    ensures
        r@ == (if trimmed(input@).len() == 0 { "player"@ } else { trimmed(input@) }),
{
    let t = trim(input);
    if t.len() == 0 {
        "player".to_owned()
    } else {
        from_chars(t.as_slice())
    }
}

/// The password to join with: the trimmed password typed in the menu, or — when
/// that is blank — the one saved for this server and name, or `None` when
/// there is neither.
pub fn resolve_password(typed: &str, saved: Option<&str>) -> (r: Option<String>)
    ensures
        trimmed(typed@).len() > 0 ==> (r matches Some(p) && p@ == trimmed(typed@)),
        trimmed(typed@).len() == 0 ==> match saved {
            Some(s) => (r matches Some(p) && p@ == s@),
            None => r is None,
        },
{
    let t = trim(typed);
    if t.len() > 0 {
        Some(from_chars(t.as_slice()))
    } else {
        match saved {
            Some(s) => Some(s.to_owned()),
            None => None,
        }
    }
}

// --- Recipe labels --------------------------------------------------------------------------

/// `n name` for one recipe entry, the name taken from the registry.
pub open spec fn amount_text(defs: Seq<BlockDef>, entry: (BlockId, u32)) -> Seq<char> {
    dec_text(entry.1 as int) + seq![' '] + spec_get(defs, entry.0).name@
}

/// The entries `items` as `n name` parts joined with `, `.
pub open spec fn amounts_text(defs: Seq<BlockDef>, items: Seq<(BlockId, u32)>) -> Seq<char>
    decreases items.len(),
{
    if items.len() == 0 {
        seq![]
    } else if items.len() == 1 {
        amount_text(defs, items[0])
    } else {
        amounts_text(defs, items.drop_last()) + seq![',', ' '] + amount_text(defs, items.last())
    }
}

/// A recipe spelled out as `inputs → outputs`.
pub open spec fn summary_text(defs: Seq<BlockDef>, inputs: Seq<(BlockId, u32)>, outputs: Seq<(BlockId, u32)>) -> Seq<char> {
    amounts_text(defs, inputs) + seq![' ', '\u{2192}', ' '] + amounts_text(defs, outputs)
}

/// Appends the entries `items` to `out` as `n name` parts joined with `, `.
fn push_amounts(registry: &BlockRegistry, items: &[(BlockId, u32)], out: &mut Vec<char>)
    ensures
        final(out)@ == old(out)@ + amounts_text(registry@, items@),
{
    let ghost start = out@;
    let mut i: usize = 0;
    assert(items@.take(0) =~= Seq::<(BlockId, u32)>::empty());
    assert(out@ =~= start + amounts_text(registry@, items@.take(0)));
    while i < items.len()
        invariant
            i <= items@.len(),
            out@ == start + amounts_text(registry@, items@.take(i as int)),
        decreases items@.len() - i,
    {
        let ghost before = out@;
        if i > 0 {
            out.push(',');
            out.push(' ');
        }
        let (item, n) = items[i];
        push_decimal(out, n as i64);
        out.push(' ');
        let name = to_chars(registry.get(item).name);
        let mut k: usize = 0;
        let ghost mid = out@;
        while k < name.len()
            invariant
                k <= name@.len(),
                out@ == mid + name@.take(k as int),
            decreases name@.len() - k,
        {
            out.push(name[k]);
            k += 1;
            assert(out@ =~= mid + name@.take(k as int));
        }
        proof {
            assert(name@.take(k as int) =~= name@);
            let t = items@.take(i + 1);
            assert(t.drop_last() =~= items@.take(i as int));
            assert(t.last() == items@[i as int]);
            if i == 0 {
                assert(t =~= seq![items@[0]]);
                assert(out@ =~= start + amount_text(registry@, items@[i as int]));
            } else {
                assert(out@ =~= before + seq![',', ' '] + amount_text(registry@, items@[i as int]));
            }
        }
        i += 1;
    }
    assert(items@.take(i as int) =~= items@);
}

/// A recipe spelled out as `inputs → outputs`, e.g. `3 stone, 2 stick →
/// 1 stone_pickaxe`.
pub fn recipe_summary(registry: &BlockRegistry, recipe: &Recipe) -> (r: String)
    ensures
        r@ == summary_text(registry@, recipe.inputs@, recipe.outputs@),
{
    let mut out: Vec<char> = Vec::new();
    push_amounts(registry, recipe.inputs, &mut out);
    out.push(' ');
    out.push('\u{2192}');
    out.push(' ');
    push_amounts(registry, recipe.outputs, &mut out);
    assert(out@ =~= summary_text(registry@, recipe.inputs@, recipe.outputs@));
    from_chars(out.as_slice())
}

/// Hover text for a recipe: its name, then its summary on the next line.
pub fn recipe_tooltip(registry: &BlockRegistry, recipe: &Recipe) -> (r: String)
    ensures
        r@ == recipe.name@ + seq!['\n'] + summary_text(registry@, recipe.inputs@, recipe.outputs@),
{
    let mut out = to_chars(recipe.name);
    out.push('\n');
    let s = recipe_summary(registry, recipe);
    let sc = to_chars(s.as_str());
    let ghost mid = out@;
    let mut k: usize = 0;
    while k < sc.len()
        invariant
            k <= sc@.len(),
            out@ == mid + sc@.take(k as int),
        decreases sc@.len() - k,
    {
        out.push(sc[k]);
        k += 1;
        assert(out@ =~= mid + sc@.take(k as int));
    }
    assert(sc@.take(k as int) =~= sc@);
    from_chars(out.as_slice())
}

// --- Seeds and name colors -----------------------------------------------------------------

/// FNV-1a over `bytes`.
pub open spec fn fnv1a(bytes: Seq<u8>) -> u32
    decreases bytes.len(),
{
    if bytes.len() == 0 {
        0x811c_9dc5
    } else {
        (fnv1a(bytes.drop_last()) ^ (bytes.last() as u32)).wrapping_mul(0x0100_0193)
    }
}

/// FNV-1a over the UTF-8 bytes of `s`.
fn fnv1a_str(s: &str) -> (r: u32)
    ensures
        r == fnv1a(s.spec_bytes()),
{
    let bytes = s.as_bytes();
    let mut hash: u32 = 0x811c_9dc5;
    let mut i: usize = 0;
    while i < bytes.len()
        invariant
            i <= bytes@.len(),
            hash == fnv1a(bytes@.take(i as int)),
        decreases bytes@.len() - i,
    {
        proof {
            assert(bytes@.take(i + 1).drop_last() =~= bytes@.take(i as int));
        }
        hash = hash ^ (bytes[i] as u32);
        hash = hash.wrapping_mul(0x0100_0193);
        i += 1;
    }
    assert(bytes@.take(i as int) =~= bytes@);
    hash
}

/// The generator seed for the user's seed text: blank input takes
/// `time_seed`; a plain integer is used as-is; any other text is hashed
/// (FNV-1a over its UTF-8 bytes) so memorable word seeds work.
pub open spec fn spec_parse_seed(input: Seq<char>, time_seed: i32) -> i32 {
    let s = trimmed(input);
    if s.len() == 0 {
        time_seed
    } else {
        match spec_parse_i32(s) {
            Some(n) => n,
            None => fnv1a(vstd::utf8::encode_utf8(s)) as i32,
        }
    }
}

/// Turn the user's seed text into a generator seed. Empty input takes the
/// caller's time-based `time_seed`; a plain integer is used as-is; any other
/// text is hashed (FNV-1a).
pub fn parse_seed(input: &str, time_seed: i32) -> (r: i32)
    ensures
        r == spec_parse_seed(input@, time_seed),
{
    let s = trim(input);
    if s.len() == 0 {
        return time_seed;
    }
    if let Some(n) = parse_i32(s.as_slice()) {
        return n;
    }
    let text = from_chars(s.as_slice());
    let h = fnv1a_str(text.as_str());
    h as i32
}

/// Number of colors chat names are drawn from.
pub const CHAT_PALETTE_LEN: usize = 8;

/// Index into the chat palette for a sender's name, chosen by hashing the name
/// (FNV-1a over its UTF-8 bytes) so a given player keeps the same color.
pub fn chat_name_color_index(name: &str) -> (r: usize)
    ensures
        r == fnv1a(name.spec_bytes()) as int % CHAT_PALETTE_LEN as int,
        r < CHAT_PALETTE_LEN,
{
    (fnv1a_str(name) % (CHAT_PALETTE_LEN as u32)) as usize
}

// --- Fallback art and music ------------------------------------------------------------------

/// Whether pixel `(x, y)` of the placeholder is magenta: the image alternates
/// magenta and black 4×4 cells.
pub open spec fn placeholder_magenta(x: int, y: int) -> bool {
    (x / 4 + y / 4) % 2 == 0
}

/// Byte `i` of the `w`-pixel-wide placeholder image (RGBA, row-major).
pub open spec fn placeholder_byte(w: int, i: int) -> u8 {
    let p = i / 4;
    let ch = i % 4;
    if ch == 3 {
        255
    } else if placeholder_magenta(p % w, p / w) {
        if ch == 1 { 0 } else { 255 }
    } else {
        0
    }
}

/// Obvious magenta/black pattern for missing or broken textures: a `w`×`h`
/// RGBA image of 4×4-pixel cells, magenta where the cell coordinates sum to an
/// even number, black elsewhere, fully opaque.
pub fn placeholder(w: u32, h: u32) -> (r: Vec<u8>)
    requires
        w * h * 4 <= u32::MAX,
    ensures
        r@.len() == w * h * 4,
        forall|i: int| 0 <= i < r@.len() ==> #[trigger] r@[i] == placeholder_byte(w as int, i),
{
    let mut buf: Vec<u8> = Vec::new();
    let mut y: u32 = 0;
    while y < h
        invariant
            y <= h,
            w * h * 4 <= u32::MAX,
            buf@.len() == y * w * 4,
            forall|i: int| 0 <= i < buf@.len() ==> #[trigger] buf@[i] == placeholder_byte(w as int, i),
        decreases h - y,
    {
        let mut x: u32 = 0;
        while x < w
            invariant
                y < h,
                x <= w,
                w * h * 4 <= u32::MAX,
                buf@.len() == (y * w + x) * 4,
                forall|i: int| 0 <= i < buf@.len() ==> #[trigger] buf@[i] == placeholder_byte(w as int, i),
            decreases w - x,
        {
            let magenta = ((x / 4) + (y / 4)) % 2 == 0;
            let ghost base = buf@.len() as int;
            proof {
                assert((y * w + x) < w * h) by (nonlinear_arith)
                    requires
                        x < w,
                        y < h,
                ;
                let p = y * w + x;
                assert(p % (w as int) == x && p / (w as int) == y) by (nonlinear_arith)
                    requires
                        p == y * w + x,
                        x < w,
                ;
                assert(base == p * 4);
                assert((base + 0) / 4 == p && (base + 0) % 4 == 0);
                assert((base + 1) / 4 == p && (base + 1) % 4 == 1);
                assert((base + 2) / 4 == p && (base + 2) % 4 == 2);
                assert((base + 3) / 4 == p && (base + 3) % 4 == 3);
                assert(placeholder_magenta(x as int, y as int) == magenta);
            }
            if magenta {
                buf.push(255);
                buf.push(0);
                buf.push(255);
                buf.push(255);
            } else {
                buf.push(0);
                buf.push(0);
                buf.push(0);
                buf.push(255);
            }
            proof {
                assert forall|i: int| 0 <= i < buf@.len() implies #[trigger] buf@[i] == placeholder_byte(w as int, i) by {
                    if i >= base {
                        let p = (y * w + x) as int;
                        assert(i / 4 == p);
                        assert(p % (w as int) == x && p / (w as int) == y);
                    }
                }
                assert(buf@.len() == (y * w + x + 1) * 4);
            }
            x += 1;
        }
        proof {
            assert((y * w + w) * 4 == (y + 1) * w * 4) by (nonlinear_arith);
        }
        y += 1;
    }
    assert(h * w * 4 == w * h * 4) by (nonlinear_arith);
    buf
}

/// The asset subdirectory holding a dimension's music tracks.
pub fn music_dir(dim: Dimension) -> (r: &'static str)
    ensures
        r == match dim {
            Dimension::Overworld => "overworld",
            Dimension::Underworld => "underworld",
            Dimension::Arena => "arena",
        },
{
    match dim {
        Dimension::Overworld => "overworld",
        Dimension::Underworld => "underworld",
        // The arena ships with no music of its own yet; it plays silence there.
        Dimension::Arena => "arena",
    }
}

} // verus!
