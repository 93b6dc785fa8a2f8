use qrbackup::document::page_entry_name;
use qrbackup::utils::{document_labels, message_label_text, page_label_text};

#[test]
fn page_label_is_exact() {
    let s = page_label_text(12, 345, "deadbeef");
    assert_eq!(s, "PAGE 012/345 deadbeef");
}

#[test]
fn page_label_pads_to_three_digits() {
    assert_eq!(page_label_text(1, 1, "h"), "PAGE 001/001 h");
    assert_eq!(page_label_text(999, 999, "h"), "PAGE 999/999 h");
}

#[test]
fn page_label_does_not_truncate_large_counts() {
    assert_eq!(page_label_text(1000, 12345, "h"), "PAGE 1000/12345 h");
}

#[test]
fn message_label_is_exact() {
    assert_eq!(message_label_text("01-02-2003 04:05:06", "hello"), "01-02-2003 04:05:06 hello");
}

#[test]
fn entry_names_are_zero_padded_and_ordered() {
    assert_eq!(page_entry_name(0), "page000000.png");
    assert_eq!(page_entry_name(7), "page000007.png");
    assert_eq!(page_entry_name(123456), "page123456.png");
    assert_eq!(page_entry_name(1234567), "page1234567.png");
}

#[test]
fn document_labels_hash_of_empty_input() {
    let data: Vec<u8> = Vec::new();
    let labels = document_labels(&data, 1, "t", "m");
    assert_eq!(labels.len(), 1);
    assert_eq!(
        labels[0].0,
        "PAGE 001/001 e3b0c44298fc1c149afbf4c8996fb92427ae41e4649b934ca495991b7852b855"
    );
    assert_eq!(labels[0].1, "t m");
}

#[test]
fn document_labels_hash_of_known_input() {
    let data: Vec<u8> = b"abc".to_vec();
    let labels = document_labels(&data, 2, "t", "m");
    assert_eq!(labels.len(), 2);
    assert_eq!(
        labels[0].0,
        "PAGE 001/002 ba7816bf8f01cfea414140de5dae2223b00361a396177a9cb410ff61f20015ad"
    );
    assert_eq!(
        labels[1].0,
        "PAGE 002/002 ba7816bf8f01cfea414140de5dae2223b00361a396177a9cb410ff61f20015ad"
    );
}
