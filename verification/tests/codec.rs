use proof_helper::branch::{count_ones, is_branch_bytes, BranchNodeCompact};
use proof_helper::cursor::SqlitePreimageStoreCursor;
use proof_helper::dynamodb::full_path;
use proof_helper::order::{bytes_before, bytes_equal};
use proof_helper::primitives::{hash_from_bytes, Nibbles};
use proof_helper::proofs::{hashed_address, hashed_slots};
use proof_helper::sqlite::SqlitePreimageStore;
use proof_helper::text::{decimal_text, hex_text, parse_u64, same_text, shown_hash_text};

#[test]
fn branch_has_masks_then_root_then_hashes() {
    let branch = BranchNodeCompact {
        state_mask: 0x0102,
        tree_mask: 0x0002,
        hash_mask: 0x0100,
        hashes: vec![[0xaa; 32]],
        root_hash: Some([0xbb; 32]),
    };
    let bytes = SqlitePreimageStore::encode_branch(&branch).unwrap();
    let mut expected = vec![0x01, 0x02, 0x00, 0x02, 0x01, 0x00];
    expected.extend([0xbb; 32]);
    expected.extend([0xaa; 32]);
    assert_eq!(bytes, expected);
    assert!(is_branch_bytes(&bytes));
    assert_eq!(SqlitePreimageStoreCursor::row_to_branch(&bytes), Ok(branch));
}

#[test]
fn bytes_that_are_no_branch_are_told() {
    assert!(is_branch_bytes(&[0, 3, 0, 1, 0, 0]));
    assert!(!is_branch_bytes(&[]));
    assert!(!is_branch_bytes(&[0, 3, 0, 1, 0]));
    // a stored child that is not there
    assert!(!is_branch_bytes(&[0, 1, 0, 2, 0, 0]));
    // a hash of a child that is not there
    assert!(!is_branch_bytes(&[0, 1, 0, 0, 0, 2]));
    // a missing hash
    assert!(!is_branch_bytes(&[0, 1, 0, 0, 0, 1]));
    let mut two_too_many = vec![0, 1, 0, 0, 0, 0];
    two_too_many.extend([0; 64]);
    assert!(!is_branch_bytes(&two_too_many));
    let mut root_only = vec![0, 1, 0, 0, 0, 0];
    root_only.extend([5; 32]);
    assert!(is_branch_bytes(&root_only));
    assert_eq!(
        SqlitePreimageStoreCursor::row_to_branch(&root_only).unwrap().root_hash,
        Some([5; 32])
    );
}

#[test]
fn bits_are_counted() {
    assert_eq!(count_ones(0), 0);
    assert_eq!(count_ones(0b1010_0000_0000_0001), 3);
    assert_eq!(count_ones(u16::MAX), 16);
}

#[test]
fn full_paths_are_encoded() {
    let path = Nibbles::from_nibbles_unchecked(&[1, 0, 15]);
    assert_eq!(full_path(&None, &path), vec![0xc3, 1, 0x80, 15]);
    let mut with_address = vec![0xa0];
    with_address.extend([7; 32]);
    with_address.extend([0xc3, 1, 0x80, 15]);
    assert_eq!(full_path(&Some([7; 32]), &path), with_address);
    assert_eq!(full_path(&None, &Nibbles::new()), vec![0xc0]);
    let long = Nibbles::from_nibbles_unchecked(&[3; 64]);
    let mut expected = vec![0xf8, 64];
    expected.extend([3; 64]);
    assert_eq!(full_path(&None, &long), expected);
    let edge = Nibbles::from_nibbles_unchecked(&[3; 56]);
    assert_eq!(full_path(&None, &edge)[..2], [0xf8, 56]);
    let below = Nibbles::from_nibbles_unchecked(&[3; 55]);
    assert_eq!(full_path(&None, &below)[..2], [0xf7, 3]);
}

#[test]
fn addresses_and_slots_are_hashed() {
    assert_eq!(
        hex_text(&hashed_address(&[0; 20])),
        "5380c7b7ae81a58eb98d9c78de4a1fd7fd9535fc953ed2be602daaa41767312a"
    );
    let slots = hashed_slots(&[[0; 32], [0xff; 32]]);
    assert_eq!(
        hex_text(&slots[0]),
        "290decd9548b62a8d60345a988386fc84ba6bc95484008f6362f93160ef3e563"
    );
    assert_eq!(slots.len(), 2);
    assert_ne!(slots[1], [0xff; 32]);
}

#[test]
fn paths_keep_low_nibbles() {
    let path = Nibbles::from_nibbles_unchecked(&[0x1f, 0xf0, 7]);
    assert_eq!(path.as_slice(), &[15, 0, 7]);
    assert_eq!(path.to_vec(), vec![15, 0, 7]);
    assert_eq!(path.len(), 3);
    assert!(!path.is_empty());
    assert!(Nibbles::new().is_empty());
}

#[test]
fn bytes_are_ordered_as_text_is() {
    assert!(bytes_before(&[], &[0]));
    assert!(bytes_before(&[1, 2], &[1, 2, 0]));
    assert!(bytes_before(&[1, 2, 9], &[1, 3]));
    assert!(!bytes_before(&[1, 3], &[1, 2, 9]));
    assert!(!bytes_before(&[4], &[4]));
    assert!(bytes_equal(&[4, 5], &[4, 5]));
    assert!(!bytes_equal(&[4, 5], &[4, 6]));
    assert!(!bytes_equal(&[4], &[4, 5]));
}

#[test]
fn hashes_are_padded_or_cut() {
    let mut padded = [0; 32];
    padded[0] = 1;
    padded[1] = 2;
    assert_eq!(hash_from_bytes(&[1, 2]), padded);
    assert_eq!(hash_from_bytes(&[9; 33]), [9; 32]);
}

#[test]
fn numbers_as_text() {
    for n in [0, 7, 10, 99, 100, 65536, u64::MAX] {
        assert_eq!(decimal_text(n), n.to_string());
        assert_eq!(parse_u64(&n.to_string()), Some(n));
    }
    for text in ["", "+", "-1", "1a", " 1", "18446744073709551616", "99999999999999999999999", "++1"] {
        assert_eq!(parse_u64(text), None);
        assert!(text.parse::<u64>().is_err());
    }
    for text in ["+5", "007", "+0"] {
        assert_eq!(parse_u64(text), text.parse().ok());
    }
    assert_eq!(hex_text(&[0x00, 0xfa, 0x12]), "00fa12");
    assert_eq!(shown_hash_text(&[0xab]), "0xab");
    assert!(same_text("abc", "abc"));
    assert!(!same_text("abc", "abd"));
}

#[test]
fn full_paths_differ_where_paths_or_tries_do() {
    let mut seen = Vec::new();
    for address in [None, Some([0; 32]), Some([1; 32])] {
        for path in [&[][..], &[0], &[0, 0], &[1], &[8], &[0; 55], &[0; 56], &[0; 64]] {
            let bytes = full_path(&address, &Nibbles::from_nibbles_unchecked(path));
            assert!(!seen.contains(&bytes));
            seen.push(bytes);
        }
    }
}
