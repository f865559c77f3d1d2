use fstesting::model::ModelFile;
use fstesting::outcome::ErrKind;

#[test]
fn fresh_file_is_empty() {
    let f = ModelFile::new();
    assert_eq!(f.size(), Ok(0));
}

#[test]
fn write_then_read_roundtrip() {
    let mut f = ModelFile::new();
    let data = vec![1u8, 2, 3, 4, 5];
    assert_eq!(f.write(&data), Ok(5));
    assert_eq!(f.size(), Ok(5));
    assert_eq!(f.seek(0), Ok(0));
    let mut buf = vec![0u8; 5];
    assert_eq!(f.read(&mut buf), Ok(5));
    assert_eq!(buf, data);
}

#[test]
fn read_advances_position() {
    let mut f = ModelFile::new();
    f.write(&vec![10u8, 20, 30, 40]).unwrap();
    f.seek(0).unwrap();
    let mut buf = vec![0u8; 2];
    assert_eq!(f.read(&mut buf), Ok(2));
    assert_eq!(buf, vec![10, 20]);
    assert_eq!(f.read(&mut buf), Ok(2));
    assert_eq!(buf, vec![30, 40]);
    assert_eq!(f.read(&mut buf), Ok(0));
}

#[test]
fn positioned_read_leaves_position_alone() {
    let mut f = ModelFile::new();
    f.write(&vec![9u8, 8, 7]).unwrap();
    f.seek(1).unwrap();
    let mut buf = vec![0u8; 1];
    assert_eq!(f.read_at(&mut buf, 2), Ok(1));
    assert_eq!(buf, vec![7]);
    let mut buf2 = vec![0u8; 1];
    assert_eq!(f.read(&mut buf2), Ok(1));
    assert_eq!(buf2, vec![8]);
}

#[test]
fn seek_past_end_then_write_zero_fills_gap() {
    let mut f = ModelFile::new();
    f.seek(3).unwrap();
    assert_eq!(f.write(&vec![5u8]), Ok(1));
    assert_eq!(f.size(), Ok(4));
    let mut buf = vec![9u8; 4];
    assert_eq!(f.read_at(&mut buf, 0), Ok(4));
    assert_eq!(buf, vec![0, 0, 0, 5]);
}

#[test]
fn truncate_discards_and_zero_extends() {
    let mut f = ModelFile::new();
    f.write(&vec![1u8, 2, 3]).unwrap();
    assert_eq!(f.set_len(2), Ok(()));
    assert_eq!(f.size(), Ok(2));
    assert_eq!(f.set_len(4), Ok(()));
    let mut buf = vec![9u8; 4];
    assert_eq!(f.read_at(&mut buf, 0), Ok(4));
    assert_eq!(buf, vec![1, 2, 0, 0]);
}

#[test]
fn reopen_keeps_bytes_and_resets_position() {
    let mut f = ModelFile::new();
    f.write(&vec![4u8, 5, 6]).unwrap();
    assert_eq!(f.reopen(), Ok(()));
    let mut buf = vec![0u8; 3];
    assert_eq!(f.read(&mut buf), Ok(3));
    assert_eq!(buf, vec![4, 5, 6]);
}

#[test]
fn read_past_end_returns_nothing() {
    let mut f = ModelFile::new();
    f.write(&vec![1u8]).unwrap();
    let mut buf = vec![8u8; 3];
    assert_eq!(f.read_at(&mut buf, 5), Ok(0));
    assert_eq!(buf, vec![8, 8, 8]);
}

#[test]
fn short_read_fills_only_the_front() {
    let mut f = ModelFile::new();
    f.write(&vec![1u8, 2]).unwrap();
    let mut buf = vec![7u8; 4];
    assert_eq!(f.read_at(&mut buf, 1), Ok(1));
    assert_eq!(buf, vec![2, 7, 7, 7]);
}

#[test]
fn unrepresentable_write_end_is_categorized() {
    let mut f = ModelFile::new();
    assert_eq!(
        f.write_at(&vec![1u8], usize::MAX),
        Err(ErrKind::FileTooLarge)
    );
    assert_eq!(f.size(), Ok(0));
}

#[test]
fn sync_always_succeeds() {
    let f = ModelFile::new();
    assert_eq!(f.sync_all(), Ok(()));
}
