use lib::gc_fs::iso9660::parse_pvd;
use lib::gc_fs::FsError;

fn descriptor() -> Vec<u8> {
    let mut d = vec![0u8; 2048];
    d[0] = 1;
    d[1..6].copy_from_slice(b"CD001");
    d[158..162].copy_from_slice(&18u32.to_le_bytes());
    d[166..170].copy_from_slice(&4096u32.to_le_bytes());
    d
}

#[test]
fn primary_descriptor_parses() {
    let p = parse_pvd(&descriptor()).ok().expect("a primary volume descriptor");
    assert_eq!(p.root_lba, 18);
    assert_eq!(p.root_size, 4096);
    // A zero logical block size means the standard 2048.
    assert_eq!(p.sec_size, 2048);
    let mut d = descriptor();
    d[128..130].copy_from_slice(&512u16.to_le_bytes());
    assert_eq!(parse_pvd(&d).ok().map(|p| p.sec_size), Some(512));
}

#[test]
fn other_descriptors_are_refused() {
    let mut d = descriptor();
    d[0] = 2;
    assert_eq!(parse_pvd(&d).err(), Some(FsError::BadFormat));
    let mut d = descriptor();
    d[3] = b'X';
    assert_eq!(parse_pvd(&d).err(), Some(FsError::BadFormat));
}
