use lib::gc_fs::memcard::{MemCardFs, BLOCK_SIZE};
use lib::gc_fs::FsError;

fn card() -> MemCardFs {
    let mut dir = vec![0u8; BLOCK_SIZE];
    dir[0..4].copy_from_slice(b"GALE");
    dir[4..6].copy_from_slice(b"01");
    dir[8..12].copy_from_slice(b"save");
    dir[42..44].copy_from_slice(&5u16.to_be_bytes());
    dir[44..46].copy_from_slice(&2u16.to_be_bytes());
    dir[8074..8076].copy_from_slice(&2u16.to_be_bytes());
    // The older directory copy names another file.
    let mut old_dir = dir.clone();
    old_dir[8..12].copy_from_slice(b"olds");
    old_dir[8074..8076].copy_from_slice(&1u16.to_be_bytes());

    let mut bat = vec![0u8; BLOCK_SIZE];
    bat[10..12].copy_from_slice(&6u16.to_be_bytes());
    bat[12..14].copy_from_slice(&0xFFFFu16.to_be_bytes());
    bat[4..6].copy_from_slice(&1u16.to_be_bytes());
    let bat_b = vec![0u8; BLOCK_SIZE];
    MemCardFs::from_blocks(0x4_0000, &old_dir, &dir, &bat_b, &bat)
}

#[test]
fn memcard_lists_the_newer_directory() {
    let c = card();
    assert_eq!(c.total_blocks(), 32);
    assert_eq!(c.free_blocks(), 25);
    let files = c.read_dir();
    assert_eq!(files.len(), 1);
    let (m, e) = &files[0];
    assert_eq!(m.name_str(), "save");
    assert_eq!(m.size, 2 * 8192);
    assert!(!m.is_dir);
    assert_eq!(e.first_blk, 5);
    assert_eq!(c.bat_next(5), Some(6));
    assert_eq!(c.bat_next(6), None);
    assert_eq!(c.bat_next(2), None);
}

#[test]
fn memcard_finds_and_plans_blocks() {
    let c = card();
    let e = c.find(b"GALE", "SAVE").expect("found ignoring case");
    assert_eq!(e.blk_count, 2);
    assert!(c.find(b"GALE", "olds").is_none());
    assert!(c.find(b"GALP", "save").is_none());
    assert_eq!(c.read_plan(&e, 2 * 8192), Ok(vec![5, 6]));
    assert_eq!(c.read_plan(&e, 8192), Err(FsError::BufferTooSmall));
    assert_eq!(c.write_plan(&e, 2 * 8192), Ok(vec![5, 6]));
    assert_eq!(c.write_plan(&e, 100), Err(FsError::InvalidArg));
}
