use survival_cubed::block::{AIR, DIRT, GRASS, STONE};
use survival_cubed::save::{
    chunk_file_name, decode_chunk, decode_meta, encode_chunk, encode_meta, sort_by_name,
    SaveError, WorldInfo, CHUNKS_DIR, MAGIC, VERSION, WORLD_FILE,
};

#[test]
fn meta_files_start_with_magic_and_version() {
    let file = encode_meta(&[7, 8, 9]);
    assert_eq!(&file[0..4], &MAGIC.to_le_bytes());
    assert_eq!(&file[4..8], &VERSION.to_le_bytes());
    assert_eq!(&file[8..], &[7, 8, 9]);
    assert_eq!(&file[0..4], b"DWCS");
    assert_eq!(WORLD_FILE, "world.dat");
    assert_eq!(CHUNKS_DIR, "chunks");
}

#[test]
fn meta_round_trips_through_the_header() {
    let payload: Vec<u8> = (0..=255u8).collect();
    assert_eq!(decode_meta(&encode_meta(&payload)), Ok(payload));
    assert_eq!(decode_meta(&encode_meta(&[])), Ok(vec![]));
}

#[test]
fn meta_header_errors() {
    assert_eq!(decode_meta(&[]), Err(SaveError::Truncated));
    assert_eq!(decode_meta(&[0x44, 0x57, 0x43, 0x53, 5, 0, 0]), Err(SaveError::Truncated));
    assert_eq!(decode_meta(&[0, 0, 0, 0, 5, 0, 0, 0, 1]), Err(SaveError::NotAWorld));
    let mut old = encode_meta(&[1, 2]);
    old[4] = 4;
    assert_eq!(decode_meta(&old), Err(SaveError::WrongVersion { found: 4 }));
    // The magic is checked before the version.
    assert_eq!(decode_meta(&[1, 2, 3, 4, 9, 9, 9, 9]), Err(SaveError::NotAWorld));
}

#[test]
fn chunk_round_trips_every_cell_in_memory() {
    // Fill every cell with a distinct, recognizable pattern.
    let palette = [AIR, STONE, DIRT, GRASS, 0xabcd, u16::MAX];
    let area = 1024;
    let mut blocks = vec![0u16; area];
    for (i, b) in blocks.iter_mut().enumerate() {
        *b = palette[i % palette.len()];
    }
    let bytes = encode_chunk(&blocks);
    assert_eq!(bytes.len(), 2 * area);
    let got = decode_chunk(&bytes, area).expect("chunk decodes");
    for (i, expected) in blocks.iter().enumerate() {
        assert_eq!(got[i], *expected, "cell {i} differs");
    }
}

#[test]
fn chunk_cells_are_little_endian() {
    assert_eq!(encode_chunk(&[0x0102, 0xff00]), vec![0x02, 0x01, 0x00, 0xff]);
    assert_eq!(decode_chunk(&[0x02, 0x01, 0x00, 0xff], 2), Ok(vec![0x0102, 0xff00]));
    assert_eq!(encode_chunk(&[]), Vec::<u8>::new());
}

#[test]
fn wrong_sized_chunks_are_refused() {
    assert_eq!(
        decode_chunk(&[1, 2, 3], 2),
        Err(SaveError::WrongChunkSize { found: 3, expected: 4 })
    );
    assert_eq!(
        decode_chunk(&[], 8),
        Err(SaveError::WrongChunkSize { found: 0, expected: 16 })
    );
}

#[test]
fn chunk_files_are_named_by_coordinates() {
    assert_eq!(chunk_file_name((3, -4)), "3_-4.dat");
    assert_eq!(chunk_file_name((0, 0)), "0_0.dat");
    assert_eq!(chunk_file_name((-120, 77)), "-120_77.dat");
    assert_eq!(chunk_file_name((i32::MIN, i32::MAX)), "-2147483648_2147483647.dat");
}

fn world(name: &str, seed: i32) -> WorldInfo {
    WorldInfo { name: name.to_string(), seed }
}

#[test]
fn worlds_are_listed_by_name() {
    let sorted = sort_by_name(vec![
        world("zeta", 1),
        world("Alpha", 2),
        world("alpha", 3),
        world("al", 4),
        world("été", 5),
        world("beta", 6),
    ]);
    let names: Vec<&str> = sorted.iter().map(|w| w.name.as_str()).collect();
    let mut expected = vec!["zeta", "Alpha", "alpha", "al", "été", "beta"];
    expected.sort();
    assert_eq!(names, expected);
    // Seeds travel with their names.
    let seeds: Vec<i32> = sorted.iter().map(|w| w.seed).collect();
    assert_eq!(seeds, vec![2, 4, 3, 6, 1, 5]);
    assert!(sort_by_name(vec![]).is_empty());
}

#[test]
fn chunk_files_never_collide() {
    let coords = [(1, 23), (12, 3), (-1, 23), (1, -23), (0, 0), (-12, -3), (123, 0), (1, 230)];
    let names: Vec<String> = coords.iter().map(|c| chunk_file_name(*c)).collect();
    for i in 0..names.len() {
        for j in 0..names.len() {
            if i != j {
                assert_ne!(names[i], names[j], "{:?} and {:?}", coords[i], coords[j]);
            }
        }
    }
}
