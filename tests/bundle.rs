use tynkerbase::file_utils;
use tynkerbase::proj_files::{BundleError, FileCollection, FileData};

fn collection(entries: &[(&str, &[u8])]) -> FileCollection {
    let mut c = FileCollection::new();
    for (p, d) in entries {
        c.push(FileData::from(p.to_string(), d.to_vec()));
    }
    c
}

fn entries_of(c: FileCollection) -> Vec<(String, Vec<u8>)> {
    c.into_files().into_iter().map(|f| f.extract()).collect()
}

#[test]
fn bundle_layout_is_path_content_then_lengths() {
    let bytes = collection(&[("ab", b"xyz")]).to_bytes();
    let mut expected = b"abxyz".to_vec();
    expected.extend_from_slice(&[0, 0, 0, 0, 0, 0, 0, 2]);
    expected.extend_from_slice(&[0, 0, 0, 0, 0, 0, 0, 3]);
    assert_eq!(bytes, expected);
}

#[test]
fn bundle_round_trip_keeps_order_duplicates_and_empty_content() {
    let input: Vec<(&str, &[u8])> = vec![
        ("src/main.rs", b"fn main() {}"),
        ("empty.txt", b""),
        ("src/main.rs", b"second copy"),
        ("d\u{e9}j\u{e0}/vu.bin", &[0, 255, 16, 0]),
    ];
    let bytes = collection(&input).to_bytes();
    let back = FileCollection::from_bytes(bytes).unwrap();
    let got = entries_of(back);
    let want: Vec<(String, Vec<u8>)> =
        input.iter().map(|(p, d)| (p.to_string(), d.to_vec())).collect();
    assert_eq!(got, want);
}

#[test]
fn bundle_empty_buffer_is_empty_collection() {
    let back = FileCollection::from_bytes(vec![]).unwrap();
    assert!(entries_of(back).is_empty());
    assert!(FileCollection::new().to_bytes().is_empty());
}

#[test]
fn bundle_short_buffer_is_truncated() {
    let r = FileCollection::from_bytes(vec![0u8; 15]);
    assert_eq!(r.err(), Some(BundleError::TruncatedBuffer));
}

#[test]
fn bundle_oversized_length_is_truncated() {
    let mut bytes = collection(&[("a", b"b")]).to_bytes();
    let n = bytes.len();
    bytes[n - 1] = 200;
    assert_eq!(FileCollection::from_bytes(bytes).err(), Some(BundleError::TruncatedBuffer));
}

#[test]
fn bundle_cut_buffer_is_truncated() {
    let mut bytes = collection(&[("a", b"b"), ("c", b"d")]).to_bytes();
    bytes.remove(0);
    assert_eq!(FileCollection::from_bytes(bytes).err(), Some(BundleError::TruncatedBuffer));
}

#[test]
fn bundle_invalid_path_text_is_rejected() {
    let mut bytes = vec![0xffu8, 0xfe];
    bytes.extend_from_slice(&[0, 0, 0, 0, 0, 0, 0, 2]);
    bytes.extend_from_slice(&[0, 0, 0, 0, 0, 0, 0, 0]);
    assert_eq!(FileCollection::from_bytes(bytes).err(), Some(BundleError::InvalidText));
}

#[test]
fn bundle_append_moves_entries() {
    let mut a = collection(&[("a", b"1")]);
    let mut b = collection(&[("b", b"2"), ("c", b"3")]);
    a.append(&mut b);
    assert!(entries_of(b).is_empty());
    let names: Vec<String> = entries_of(a).into_iter().map(|(p, _)| p).collect();
    assert_eq!(names, vec!["a", "b", "c"]);
}

#[test]
fn file_data_mem_size_counts_overhead_and_lengths() {
    let f = FileData::from("abc".to_string(), vec![1, 2, 3, 4, 5]);
    assert_eq!(f.mem_size(), 256 + 3 + 5);
}

#[test]
fn file_utils_sizes() {
    let mut c = file_utils::FileCollection::new();
    assert_eq!(c.sizeof(), 0);
    c.push(file_utils::FileData::from("ab".to_string(), vec![0; 10]));
    c.push(file_utils::FileData::from("\u{e9}".to_string(), vec![]));
    assert_eq!(c.files[0].sizeof(), 268);
    assert_eq!(c.sizeof(), 268 + 258);
    let (name, data) = c.files.remove(0).extract();
    assert_eq!(name, "ab");
    assert_eq!(data.len(), 10);
}
