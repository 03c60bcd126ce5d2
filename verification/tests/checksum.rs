use frost_protocol::checksum::bytes_precede;
use frost_protocol::checksum::canonical_concat;
use frost_protocol::checksum::checksum;

#[test]
fn checksum_of_nothing_is_the_digest_of_the_empty_string() {
    assert_eq!(checksum(b"", &vec![]), 0x1e924b9d737700d7);
}

#[test]
fn checksum_hashes_primary_then_items_in_canonical_order() {
    let items = vec![vec![2u8, 1], vec![3], vec![2, 0], vec![1, 2], vec![3]];
    assert_eq!(
        canonical_concat(&items),
        vec![3u8, 1, 2, 2, 0, 2, 1]
    );
    assert_eq!(checksum(b"abc", &items), CHECKSUM_ABC);
    assert_eq!(checksum(b"abc", &vec![]), CHECKSUM_ABC_ALONE);
}

const CHECKSUM_ABC: u64 = 0xd72e684fe739a9b1;
const CHECKSUM_ABC_ALONE: u64 = 0x3fc884964770eede;

#[test]
fn checksum_ignores_order_of_items() {
    let a = vec![vec![1u8, 2, 3], vec![9, 9, 9], vec![0, 0, 1]];
    let b = vec![vec![0u8, 0, 1], vec![1, 2, 3], vec![9, 9, 9]];
    let c = vec![vec![9u8, 9, 9], vec![0, 0, 1], vec![1, 2, 3]];
    assert_eq!(checksum(b"primary", &a), checksum(b"primary", &b));
    assert_eq!(checksum(b"primary", &a), checksum(b"primary", &c));
}

#[test]
fn checksum_ignores_duplicate_items() {
    let a = vec![vec![1u8, 2, 3], vec![9, 9, 9]];
    let b = vec![
        vec![9u8, 9, 9],
        vec![1, 2, 3],
        vec![1, 2, 3],
        vec![9, 9, 9],
        vec![1, 2, 3],
    ];
    assert_eq!(checksum(b"primary", &a), checksum(b"primary", &b));
}

#[test]
fn checksum_changes_with_primary_and_with_items() {
    let items = vec![vec![1u8, 2, 3], vec![9, 9, 9]];
    let other_items = vec![vec![1u8, 2, 3], vec![9, 9, 8]];
    let more_items = vec![vec![1u8, 2, 3], vec![9, 9, 9], vec![7]];
    assert_ne!(checksum(b"primary", &items), checksum(b"primarz", &items));
    assert_ne!(checksum(b"primary", &items), checksum(b"primary", &other_items));
    assert_ne!(checksum(b"primary", &items), checksum(b"primary", &more_items));
}

#[test]
fn shorter_strings_come_first() {
    assert!(bytes_precede(&[255], &[0, 0]));
    assert!(!bytes_precede(&[0, 0], &[255]));
    assert!(bytes_precede(&[], &[0]));
    assert!(!bytes_precede(&[], &[]));
}

#[test]
fn strings_of_one_length_are_ordered_lexicographically() {
    assert!(bytes_precede(&[1, 255, 255], &[2, 0, 0]));
    assert!(bytes_precede(&[1, 2, 3], &[1, 2, 4]));
    assert!(!bytes_precede(&[1, 2, 4], &[1, 2, 3]));
    assert!(!bytes_precede(&[1, 2, 3], &[1, 2, 3]));
    assert!(bytes_precede(&[0, 255], &[1, 0]));
}
