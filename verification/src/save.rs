//! The binary layout of saved worlds.
//!
//! A saved world lives in its own directory holding `world.dat` (a magic and
//! version header followed by the encoded metadata) and a `chunks/` directory
//! with one `<cx>_<cy>.dat` file per modified chunk, each the raw
//! little-endian `BlockId` grid. This module builds and checks those bytes and
//! names; reading and writing the files is the caller's part.

use vstd::prelude::*;

use crate::net::{le_value, u32_from_le, u32_to_le};
use crate::protocol::BlockId;
use crate::text::{dec_text, dec_value, from_chars, lemma_dec_text_injective, push_decimal, to_chars};
use crate::world::ChunkCoord;

verus! {

/// Name of the metadata file inside a world directory.
pub const WORLD_FILE: &'static str = "world.dat";
/// Subdirectory holding per-chunk block data.
pub const CHUNKS_DIR: &'static str = "chunks";
/// Magic prefix on `world.dat` ("SCWD" — Survival Cubed World Data).
pub const MAGIC: u32 = 0x5343_5744;
/// On-disk format version; bump on any incompatible layout change.
pub const VERSION: u32 = 5;

/// Why a saved file was rejected.
#[derive(Debug, Clone, Copy, PartialEq, Eq)]
pub enum SaveError {
    /// `world.dat` is shorter than its 8-byte header.
    Truncated,
    /// `world.dat` does not start with the world magic.
    NotAWorld,
    /// `world.dat` was written by another format version.
    WrongVersion { found: u32 },
    /// A chunk file is not exactly two bytes per cell.
    WrongChunkSize { found: usize, expected: usize },
}

/// The bytes of `world.dat` for an encoded metadata payload.
pub open spec fn meta_file(payload: Seq<u8>) -> Seq<u8> {
    crate::net::le_bytes(MAGIC) + crate::net::le_bytes(VERSION) + payload
}

/// What reading `world.dat`'s bytes yields: the encoded metadata after a valid
/// header, or why the header was rejected.
pub open spec fn spec_read_meta(bytes: Seq<u8>) -> Result<Seq<u8>, SaveError> {
    if bytes.len() < 8 {
        Err(SaveError::Truncated)
    } else if le_value(bytes.take(4)) != MAGIC {
        Err(SaveError::NotAWorld)
    } else if le_value(bytes.subrange(4, 8)) != VERSION {
        Err(SaveError::WrongVersion { found: le_value(bytes.subrange(4, 8)) as u32 })
    } else {
        Ok(bytes.skip(8))
    }
}

/// Prefix the encoded metadata `payload` with the magic and version header.
pub fn encode_meta(payload: &[u8]) -> (r: Vec<u8>)
    ensures
        r@ == meta_file(payload@),
{
    let magic = u32_to_le(MAGIC);
    let version = u32_to_le(VERSION);
    let mut out: Vec<u8> = Vec::new();
    let mut k: usize = 0;
    while k < 4
        invariant
            k <= 4,
            out@ == magic@.take(k as int),
        decreases 4 - k,
    {
        out.push(magic[k]);
        k += 1;
        assert(out@ =~= magic@.take(k as int));
    }
    let mut k: usize = 0;
    while k < 4
        invariant
            k <= 4,
            out@ == magic@ + version@.take(k as int),
        decreases 4 - k,
    {
        out.push(version[k]);
        k += 1;
        assert(out@ =~= magic@ + version@.take(k as int));
    }
    let mut i: usize = 0;
    while i < payload.len()
        invariant
            i <= payload@.len(),
            out@ == magic@ + version@ + payload@.take(i as int),
        decreases payload@.len() - i,
    {
        out.push(payload[i]);
        i += 1;
        assert(out@ =~= magic@ + version@ + payload@.take(i as int));
    }
    proof {
        crate::net::lemma_le_bytes_unique(MAGIC, magic@);
        crate::net::lemma_le_bytes_unique(VERSION, version@);
        assert(out@ =~= meta_file(payload@));
    }
    out
}

/// Check `world.dat`'s header and return the encoded metadata after it.
pub fn decode_meta(bytes: &[u8]) -> (r: Result<Vec<u8>, SaveError>)
    ensures
        match (r, spec_read_meta(bytes@)) {
            (Ok(v), Ok(s)) => v@ == s,
            (Err(e), Err(f)) => e == f,
            _ => false,
        },
{
    if bytes.len() < 8 {
        return Err(SaveError::Truncated);
    }
    let magic = u32_from_le([bytes[0], bytes[1], bytes[2], bytes[3]]);
    let version = u32_from_le([bytes[4], bytes[5], bytes[6], bytes[7]]);
    proof {
        assert([bytes[0], bytes[1], bytes[2], bytes[3]]@ =~= bytes@.take(4));
        assert([bytes[4], bytes[5], bytes[6], bytes[7]]@ =~= bytes@.subrange(4, 8));
    }
    if magic != MAGIC {
        return Err(SaveError::NotAWorld);
    }
    if version != VERSION {
        return Err(SaveError::WrongVersion { found: version });
    }
    let mut out: Vec<u8> = Vec::new();
    let mut i: usize = 8;
    while i < bytes.len()
        invariant
            8 <= i <= bytes@.len(),
            out@ == bytes@.subrange(8, i as int),
        decreases bytes@.len() - i,
    {
        out.push(bytes[i]);
        i += 1;
        assert(out@ =~= bytes@.subrange(8, i as int));
    }
    assert(out@ =~= bytes@.skip(8));
    Ok(out)
}

/// The bytes of a chunk file: each cell's id as two little-endian bytes.
pub open spec fn chunk_bytes(blocks: Seq<BlockId>) -> Seq<u8>
    decreases blocks.len(),
{
    if blocks.len() == 0 {
        seq![]
    } else {
        chunk_bytes(blocks.drop_last()) + seq![
            (blocks.last() % 256) as u8,
            (blocks.last() / 256) as u8,
        ]
    }
}

proof fn lemma_chunk_bytes_len(blocks: Seq<BlockId>)
    ensures
        chunk_bytes(blocks).len() == 2 * blocks.len(),
    decreases blocks.len(),
{
    if blocks.len() > 0 {
        lemma_chunk_bytes_len(blocks.drop_last());
    }
}

/// The cell ids read back from a chunk file's bytes, two little-endian bytes
/// per cell.
pub open spec fn chunk_cells(bytes: Seq<u8>) -> Seq<BlockId> {
    Seq::new(bytes.len() / 2, |i: int| (bytes[2 * i] as int + 256 * bytes[2 * i + 1] as int) as u16)
}

/// What reading a chunk file yields when the chunk has `area` cells.
pub open spec fn spec_read_chunk(bytes: Seq<u8>, area: nat) -> Result<Seq<BlockId>, SaveError> {
    if bytes.len() != 2 * area {
        Err(SaveError::WrongChunkSize { found: bytes.len() as usize, expected: (2 * area) as usize })
    } else {
        Ok(chunk_cells(bytes))
    }
}

/// A chunk's blocks as a fixed-size little-endian grid.
pub fn encode_chunk(blocks: &[BlockId]) -> (r: Vec<u8>)
    ensures
        r@ == chunk_bytes(blocks@),
{
    let mut out: Vec<u8> = Vec::new();
    let mut i: usize = 0;
    while i < blocks.len()
        invariant
            i <= blocks@.len(),
            out@ == chunk_bytes(blocks@.take(i as int)),
        decreases blocks@.len() - i,
    {
        let b = blocks[i];
        out.push((b % 256) as u8);
        out.push((b / 256) as u8);
        proof {
            assert(blocks@.take(i + 1).drop_last() =~= blocks@.take(i as int));
        }
        i += 1;
        assert(out@ =~= chunk_bytes(blocks@.take(i as int)));
    }
    assert(blocks@.take(i as int) =~= blocks@);
    out
}

/// Read a chunk of `area` cells back from its file's bytes.
pub fn decode_chunk(bytes: &[u8], area: usize) -> (r: Result<Vec<BlockId>, SaveError>)
    requires
        2 * area <= usize::MAX,
    ensures
        match (r, spec_read_chunk(bytes@, area as nat)) {
            (Ok(v), Ok(s)) => v@ == s,
            (Err(e), Err(f)) => e == f,
            _ => false,
        },
{
    if bytes.len() != 2 * area {
        return Err(SaveError::WrongChunkSize { found: bytes.len(), expected: 2 * area });
    }
    let mut out: Vec<BlockId> = Vec::new();
    let mut i: usize = 0;
    while i < area
        invariant
            i <= area,
            2 * area <= usize::MAX,
            bytes@.len() == 2 * area,
            out@.len() == i,
            forall|j: int| 0 <= j < i ==> #[trigger] out@[j] == chunk_cells(bytes@)[j],
        decreases area - i,
    {
        let lo = bytes[2 * i] as u16;
        let hi = bytes[2 * i + 1] as u16;
        out.push(lo + 256 * hi);
        i += 1;
    }
    assert(out@ =~= chunk_cells(bytes@));
    Ok(out)
}

/// The file name of chunk `(cx, cy)`: `<cx>_<cy>.dat`, coordinates in decimal.
pub open spec fn spec_chunk_file_name(cx: i32, cy: i32) -> Seq<char> {
    dec_text(cx as int) + seq!['_'] + dec_text(cy as int) + seq!['.', 'd', 'a', 't']
}

/// The name of the file holding chunk `coord` inside the chunks directory.
pub fn chunk_file_name(coord: ChunkCoord) -> (r: String)
    ensures
        r@ == spec_chunk_file_name(coord.0, coord.1),
{
    let (cx, cy) = coord;
    let mut out: Vec<char> = Vec::new();
    push_decimal(&mut out, cx as i64);
    out.push('_');
    push_decimal(&mut out, cy as i64);
    out.push('.');
    out.push('d');
    out.push('a');
    out.push('t');
    assert(out@ =~= spec_chunk_file_name(cx, cy));
    from_chars(out.as_slice())
}

/// Two texts free of `sep`, each followed by `sep`, agree when what follows
/// them does.
proof fn lemma_split_before_sep(x: Seq<char>, y: Seq<char>, u: Seq<char>, v: Seq<char>, sep: char)
    requires
        !x.contains(sep),
        !u.contains(sep),
        x + seq![sep] + y == u + seq![sep] + v,
    ensures
        x == u,
        y == v,
{
    let l = x + seq![sep] + y;
    let r = u + seq![sep] + v;
    if x.len() < u.len() {
        assert(l[x.len() as int] == sep);
        assert(r[x.len() as int] == u[x.len() as int]);
        assert(u.contains(sep));
    } else if u.len() < x.len() {
        assert(r[u.len() as int] == sep);
        assert(l[u.len() as int] == x[u.len() as int]);
        assert(x.contains(sep));
    }
    assert(x =~= l.take(x.len() as int));
    assert(u =~= r.take(u.len() as int));
    assert(y =~= l.skip(x.len() as int + 1));
    assert(v =~= r.skip(u.len() as int + 1));
}

/// No two chunks share a file: distinct coordinates give distinct file names.
pub proof fn law_chunk_files_are_distinct(a: ChunkCoord, b: ChunkCoord)
    requires
        a != b,
    ensures
        spec_chunk_file_name(a.0, a.1) != spec_chunk_file_name(b.0, b.1),
{
    let ext = seq!['.', 'd', 'a', 't'];
    lemma_dec_text_injective(a.0 as int, b.0 as int);
    lemma_dec_text_injective(b.0 as int, a.0 as int);
    lemma_dec_text_injective(a.1 as int, b.1 as int);
    if spec_chunk_file_name(a.0, a.1) == spec_chunk_file_name(b.0, b.1) {
        let xa = dec_text(a.0 as int);
        let xb = dec_text(b.0 as int);
        assert(!xa.contains('_')) by {
            if xa.contains('_') {
                let i = choose|i: int| 0 <= i < xa.len() && xa[i] == '_';
                assert(xa[i] == '-' || dec_value(xa[i]) is Some);
            }
        }
        assert(!xb.contains('_')) by {
            if xb.contains('_') {
                let i = choose|i: int| 0 <= i < xb.len() && xb[i] == '_';
                assert(xb[i] == '-' || dec_value(xb[i]) is Some);
            }
        }
        let ya = dec_text(a.1 as int) + ext;
        let yb = dec_text(b.1 as int) + ext;
        assert(spec_chunk_file_name(a.0, a.1) =~= xa + seq!['_'] + ya);
        assert(spec_chunk_file_name(b.0, b.1) =~= xb + seq!['_'] + yb);
        lemma_split_before_sep(xa, ya, xb, yb, '_');
        assert(dec_text(a.1 as int) =~= ya.take(ya.len() - 4));
        assert(dec_text(b.1 as int) =~= yb.take(yb.len() - 4));
    }
}

/// Reading back a saved chunk gives every cell exactly as it was written.
pub proof fn law_chunk_round_trips(blocks: Seq<BlockId>)
    ensures
        spec_read_chunk(chunk_bytes(blocks), blocks.len()) == Ok::<Seq<BlockId>, SaveError>(blocks),
    decreases blocks.len(),
{
    lemma_chunk_bytes_len(blocks);
    if blocks.len() > 0 {
        law_chunk_round_trips(blocks.drop_last());
        lemma_chunk_bytes_len(blocks.drop_last());
        let pre = chunk_bytes(blocks.drop_last());
        let b = blocks.last();
        assert forall|i: int| 0 <= i < blocks.len() implies #[trigger] chunk_cells(chunk_bytes(blocks))[i] == blocks[i] by {
            if i < blocks.len() - 1 {
                assert(chunk_cells(pre)[i] == blocks.drop_last()[i]);
            } else {
                assert(b == (b % 256) + 256 * (b / 256));
            }
        }
        assert(chunk_cells(chunk_bytes(blocks)) =~= blocks);
    } else {
        assert(chunk_cells(chunk_bytes(blocks)) =~= blocks);
    }
}

/// Reading back saved metadata gives exactly the payload that was written.
pub proof fn law_meta_round_trips(payload: Seq<u8>)
    ensures
        spec_read_meta(meta_file(payload)) == Ok::<Seq<u8>, SaveError>(payload),
{
    let f = meta_file(payload);
    crate::net::lemma_le_bytes_value(MAGIC);
    crate::net::lemma_le_bytes_value(VERSION);
    assert(f.take(4) =~= crate::net::le_bytes(MAGIC));
    assert(f.subrange(4, 8) =~= crate::net::le_bytes(VERSION));
    assert(f.skip(8) =~= payload);
}

// --- The world picker ------------------------------------------------------------------------

/// A saved world found on disk, summarised for the menu's world picker.
pub struct WorldInfo {
    /// Directory name, which doubles as the world's identifier.
    pub name: String,
    /// Generator seed read from the world's metadata.
    pub seed: i32,
}

/// The name and seed a `WorldInfo` carries.
pub open spec fn world_entry(w: WorldInfo) -> (Seq<char>, i32) {
    (w.name@, w.seed)
}

/// The names and seeds of `s`, in order.
pub open spec fn world_entries(s: Seq<WorldInfo>) -> Seq<(Seq<char>, i32)> {
    s.map_values(|w: WorldInfo| world_entry(w))
}

/// Whether name `a` comes no later than name `b`: lexicographic order by
/// character, a prefix first (the order `str` comparison gives, since UTF-8
/// keeps code point order).
pub open spec fn name_le(a: Seq<char>, b: Seq<char>) -> bool
    decreases a.len(),
{
    if a.len() == 0 {
        true
    } else if b.len() == 0 {
        false
    } else if a[0] != b[0] {
        a[0] < b[0]
    } else {
        name_le(a.skip(1), b.skip(1))
    }
}

/// Whether the worlds of `s` are in name order.
pub open spec fn names_in_order(s: Seq<WorldInfo>) -> bool {
    forall|i: int, j: int| #![trigger s[i], s[j]] 0 <= i < j < s.len() ==> name_le(s[i].name@, s[j].name@)
}

proof fn lemma_name_le_total(a: Seq<char>, b: Seq<char>)
    ensures
        name_le(a, b) || name_le(b, a),
    decreases a.len(),
{
    if a.len() > 0 && b.len() > 0 && a[0] == b[0] {
        lemma_name_le_total(a.skip(1), b.skip(1));
    }
}

proof fn lemma_name_le_trans(a: Seq<char>, b: Seq<char>, c: Seq<char>)
    requires
        name_le(a, b),
        name_le(b, c),
    ensures
        name_le(a, c),
    decreases a.len(),
{
    if a.len() > 0 && b.len() > 0 && c.len() > 0 && a[0] == b[0] && b[0] == c[0] {
        lemma_name_le_trans(a.skip(1), b.skip(1), c.skip(1));
    }
}

/// Whether the characters `a` come no later than `b` in name order.
fn name_le_exec(a: &[char], b: &[char]) -> (r: bool)
    ensures
        r == name_le(a@, b@),
{
    let mut i: usize = 0;
    assert(a@.skip(0) =~= a@);
    assert(b@.skip(0) =~= b@);
    while i < a.len() && i < b.len() && a[i] == b[i]
        invariant
            i <= a@.len(),
            i <= b@.len(),
            name_le(a@, b@) == name_le(a@.skip(i as int), b@.skip(i as int)),
        decreases a@.len() - i,
    {
        assert(a@.skip(i as int).skip(1) =~= a@.skip(i + 1));
        assert(b@.skip(i as int).skip(1) =~= b@.skip(i + 1));
        i += 1;
    }
    if i == a.len() {
        true
    } else if i == b.len() {
        false
    } else {
        a[i] < b[i]
    }
}

/// `s` with `x` inserted at `p` holds what `s` holds, and `x`.
proof fn lemma_insert_multiset<A>(s: Seq<A>, p: int, x: A)
    requires
        0 <= p <= s.len(),
    ensures
        s.insert(p, x).to_multiset() =~= s.to_multiset().insert(x),
{
    broadcast use vstd::multiset::group_multiset_axioms;
    let a = s.take(p);
    let b = s.skip(p);
    assert(s.insert(p, x) =~= a + (seq![x] + b));
    assert(s =~= a + b);
    vstd::seq_lib::lemma_multiset_commutative(a, seq![x] + b);
    vstd::seq_lib::lemma_multiset_commutative(seq![x], b);
    vstd::seq_lib::lemma_multiset_commutative(a, b);
    assert(seq![x].to_multiset() =~= vstd::multiset::Multiset::<A>::empty().insert(x)) by {
        assert(seq![x] =~= Seq::<A>::empty().push(x));
        Seq::<A>::empty().to_multiset_ensures();
    }
}

/// The worlds sorted by name, for the picker: the same worlds, in name order.
pub fn sort_by_name(worlds: Vec<WorldInfo>) -> (r: Vec<WorldInfo>)
    ensures
        names_in_order(r@),
        world_entries(r@).to_multiset() == world_entries(worlds@).to_multiset(),
{
    let mut out: Vec<WorldInfo> = Vec::new();
    let mut i: usize = 0;
    assert(world_entries(out@) =~= world_entries(worlds@.take(0)));
    while i < worlds.len()
        invariant
            i <= worlds@.len(),
            names_in_order(out@),
            world_entries(out@).to_multiset() == world_entries(worlds@.take(i as int)).to_multiset(),
        decreases worlds@.len() - i,
    {
        let x = WorldInfo { name: worlds[i].name.clone(), seed: worlds[i].seed };
        let xc = to_chars(x.name.as_str());
        let mut p: usize = 0;
        while p < out.len() && name_le_exec(to_chars(out[p].name.as_str()).as_slice(), xc.as_slice())
            invariant
                p <= out@.len(),
                xc@ == x.name@,
                forall|q: int| 0 <= q < p ==> name_le((#[trigger] out@[q]).name@, x.name@),
            decreases out@.len() - p,
        {
            p += 1;
        }
        proof {
            if p < out@.len() {
                lemma_name_le_total(out@[p as int].name@, x.name@);
                assert forall|j: int| p <= j < out@.len() implies name_le(x.name@, (#[trigger] out@[j]).name@) by {
                    if j > p {
                        assert(name_le(out@[p as int].name@, out@[j].name@));
                        lemma_name_le_trans(x.name@, out@[p as int].name@, out@[j].name@);
                    }
                }
            }
        }
        let ghost before = out@;
        out.insert(p, x);
        proof {
            assert(out@ == before.insert(p as int, x));
            assert forall|a: int, b: int| 0 <= a < b < out@.len() implies name_le(out@[a].name@, out@[b].name@) by {
                if b < p {
                    assert(out@[a] == before[a] && out@[b] == before[b]);
                } else if b == p {
                    assert(out@[a] == before[a]);
                } else if a < p {
                    assert(out@[a] == before[a] && out@[b] == before[b - 1]);
                    assert(name_le(before[a].name@, x.name@));
                    assert(name_le(x.name@, before[b - 1].name@));
                    lemma_name_le_trans(before[a].name@, x.name@, before[b - 1].name@);
                } else if a == p {
                    assert(out@[b] == before[b - 1]);
                } else {
                    assert(out@[a] == before[a - 1] && out@[b] == before[b - 1]);
                }
            }
            assert(world_entries(out@) =~= world_entries(before).insert(p as int, world_entry(x)));
            lemma_insert_multiset(world_entries(before), p as int, world_entry(x));
            assert(world_entries(worlds@.take(i + 1)) =~= world_entries(worlds@.take(i as int)).push(world_entry(x)));
            world_entries(worlds@.take(i as int)).to_multiset_ensures();
        }
        i += 1;
    }
    assert(worlds@.take(i as int) =~= worlds@);
    out
}

} // verus!
