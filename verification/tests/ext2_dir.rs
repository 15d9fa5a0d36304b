use lib::dkdol_fs::ext2::dir::{drop_entry, place_entry, walk_dir_block};
use lib::dkdol_fs::ext2::{check_superblock, JournalMode};
use lib::gc_fs::FsError;

fn block_with_one_entry() -> Vec<u8> {
    let mut b = vec![0u8; 1024];
    b[0..4].copy_from_slice(&2u32.to_le_bytes());
    b[4..6].copy_from_slice(&1024u16.to_le_bytes());
    b[6] = 1;
    b[7] = 2;
    b[8] = b'a';
    b
}

#[test]
fn place_trims_the_live_record() {
    let mut b = block_with_one_entry();
    assert!(place_entry(&mut b, 5, b"bb", 1));
    // The first record keeps only what it needs; the new one takes the rest.
    assert_eq!(u16::from_le_bytes([b[4], b[5]]), 12);
    assert_eq!(u32::from_le_bytes([b[12], b[13], b[14], b[15]]), 5);
    assert_eq!(u16::from_le_bytes([b[16], b[17]]), 1012);
    assert_eq!((b[18], b[19]), (2, 1));
    assert_eq!(&b[20..22], b"bb");
    let names: Vec<Vec<u8>> = walk_dir_block(&b).into_iter().map(|e| e.name).collect();
    assert_eq!(names, vec![b"a".to_vec(), b"bb".to_vec()]);
}

#[test]
fn place_refuses_a_full_block() {
    let mut b = block_with_one_entry();
    let name = [b'x'; 255];
    // Each 255-byte name takes 264 bytes: three fit after the first record.
    let mut placed = 0;
    while place_entry(&mut b, 5, &name, 1) {
        placed += 1;
    }
    assert_eq!(placed, 3);
    let before = b.clone();
    assert!(!place_entry(&mut b, 6, &name, 1));
    assert_eq!(b, before);
}

#[test]
fn drop_folds_into_the_previous_record() {
    let mut b = block_with_one_entry();
    assert!(place_entry(&mut b, 5, b"bb", 1));
    assert!(!drop_entry(&mut b, b"zz"));
    assert!(drop_entry(&mut b, b"bb"));
    assert_eq!(u32::from_le_bytes([b[12], b[13], b[14], b[15]]), 0);
    assert_eq!(u16::from_le_bytes([b[4], b[5]]), 1024);
    let names: Vec<Vec<u8>> = walk_dir_block(&b).into_iter().map(|e| e.name).collect();
    assert_eq!(names, vec![b"a".to_vec()]);
}

fn dirty_journaled_superblock() -> Vec<u8> {
    let mut sb = vec![0u8; 1024];
    sb[4..8].copy_from_slice(&8192u32.to_le_bytes());
    sb[32..36].copy_from_slice(&8192u32.to_le_bytes());
    sb[40..44].copy_from_slice(&128u32.to_le_bytes());
    sb[56..58].copy_from_slice(&0xEF53u16.to_le_bytes());
    sb[76..80].copy_from_slice(&1u32.to_le_bytes());
    sb[88..90].copy_from_slice(&128u16.to_le_bytes());
    sb[92..96].copy_from_slice(&4u32.to_le_bytes());
    sb[236..240].copy_from_slice(&8u32.to_le_bytes());
    sb
}

#[test]
fn superblock_check_follows_journal_mode() {
    let mut img = dirty_journaled_superblock();
    assert_eq!(check_superblock(&img, JournalMode::RequireClean).err(), Some(FsError::BadFormat));
    let sb = check_superblock(&img, JournalMode::Ignore).ok().unwrap();
    assert_eq!(sb.block_size, 1024);
    assert_eq!(sb.groups_count, 1);
    assert_eq!(sb.journal_inum, 8);
    img[58] = 1;
    assert!(check_superblock(&img, JournalMode::RequireClean).is_ok());
    img[56] = 0;
    assert_eq!(check_superblock(&img, JournalMode::Ignore).err(), Some(FsError::BadFormat));
}
