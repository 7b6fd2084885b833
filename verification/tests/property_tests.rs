use buffer::laws::{built_rope_matches_text, chunk_lengths_sum, concat_all_lines};
use buffer::rope::{Bound, Rope};

#[test]
fn concat_identity_scenario() {
    let r = Rope::concat(&Rope::from_str("ab\nc"), &Rope::from_str("def"));
    let empty = Rope::from_str("");
    assert!(Rope::concat(&empty, &r) == r);
    assert!(Rope::concat(&r, &empty) == r);
}

#[test]
fn chunk_length_additivity_scenario() {
    let r = Rope::concat(
        &Rope::from_str("aa\na"),
        &Rope::concat(&Rope::from_str(""), &Rope::from_str("ccc")),
    );
    assert_eq!(chunk_lengths_sum(&r), r.len());
    assert_eq!(chunk_lengths_sum(&Rope::from_str("")), 0);
}

#[test]
fn slice_decomposition_scenario() {
    let r = Rope::concat(
        &Rope::from_str("aaa"),
        &Rope::concat(&Rope::from_str("bbb"), &Rope::from_str("ccc")),
    );
    let i: usize = 2;
    let j: usize = 7;
    let left = r.char_slice(Bound::Unbounded, Bound::Excluded(i));
    let mid = r.char_slice(Bound::Included(i), Bound::Excluded(j));
    let right = r.char_slice(Bound::Included(j), Bound::Unbounded);
    let rebuilt = Rope::concat(&left, &Rope::concat(&mid, &right));
    assert!(rebuilt == r);
    assert!(rebuilt.eq_str("aaabbbccc"));
}

#[test]
fn insert_delete_roundtrip_scenario() {
    let r = Rope::from_str("hello world");
    let s = Rope::from_str(" to the");
    let idx: usize = 5;
    let inserted = r.insert(idx, s);
    let restored = inserted.delete(Bound::Included(idx), Bound::Excluded(idx + 7));
    assert!(restored == r);
    assert!(restored.eq_str("hello world"));
}

#[test]
fn construction_idempotence_scenario() {
    assert!(built_rope_matches_text("hello\nworld"));
    assert!(built_rope_matches_text(""));
    assert!(Rope::from_str("abc").eq_str("abc"));
}

#[test]
fn line_reconstruction_scenario() {
    let r = Rope::concat(
        &Rope::from_str("aa\na"),
        &Rope::concat(&Rope::from_str("\nbbb\n"), &Rope::from_str("ccc")),
    );
    let rebuilt = concat_all_lines(&r);
    assert!(rebuilt == r);
    assert!(rebuilt.eq_str("aa\na\nbbb\nccc"));

    let rebuilt_empty = concat_all_lines(&Rope::from_str(""));
    assert!(rebuilt_empty.eq_str(""));
}

#[test]
fn concat_scenario_lengths() {
    let r = Rope::concat(
        &Rope::from_str("aaa"),
        &Rope::concat(&Rope::from_str("bbb"), &Rope::from_str("ccc")),
    );
    assert_eq!(r.len(), 9);
    assert_eq!(r.lenlines(), 0);
}

#[test]
fn content_equality_ignores_shape() {
    let flat = Rope::from_str("abcdef");
    let nested = Rope::concat(
        &Rope::concat(&Rope::from_str("ab"), &Rope::from_str("cd")),
        &Rope::from_str("ef"),
    );
    assert!(flat == nested);
    assert!(nested == flat);
    assert!(!(flat == Rope::from_str("abcdeg")));
    assert!(!(flat == Rope::from_str("abcde")));
    assert!(!flat.eq_str("abcde"));
    assert!(!flat.eq_str("abcdefg"));
}

#[test]
fn line_start_clamps_past_last_line() {
    let r = Rope::from_str("no newline here");
    assert_eq!(r.line_start(1), r.len());
    assert_eq!(r.line_start(5), r.len());
    let t = Rope::concat(&Rope::from_str("a\n"), &Rope::from_str("b"));
    assert_eq!(t.line_start(1), 2);
    assert_eq!(t.line_start(2), 3);
}

#[test]
fn multibyte_text_uses_byte_offsets() {
    let r = Rope::from_str("h\u{e9}llo");
    assert_eq!(r.len(), 6);
    assert_eq!(r.lenlines(), 0);
    assert!(r.char_substr(1, 2).eq_str("\u{e9}"));
    let cut = r.delete(Bound::Included(1), Bound::Excluded(3));
    assert!(cut.eq_str("hllo"));
}

#[test]
fn delete_prefix_with_inclusive_end() {
    let r = Rope::from_str("abcdef");
    assert!(r.delete(Bound::Unbounded, Bound::Included(2)).eq_str("def"));
    assert!(r.delete(Bound::Included(3), Bound::Unbounded).eq_str("abc"));
}

#[test]
fn insert_at_edges() {
    let r = Rope::from_str("mid");
    assert!(r.insert(0, Rope::from_str(">>")).eq_str(">>mid"));
    assert!(r.insert(3, Rope::from_str("<<")).eq_str("mid<<"));
    let empty = Rope::from_str("");
    assert!(empty.insert(0, Rope::from_str("x")).eq_str("x"));
}

#[test]
fn empty_rope_queries() {
    let e = Rope::from_str("");
    assert_eq!(e.len(), 0);
    assert_eq!(e.lenlines(), 0);
    assert_eq!(e.line_start(0), 0);
    assert_eq!(e.line_start(3), 0);
    assert!(e.char_slice(Bound::Unbounded, Bound::Unbounded).eq_str(""));
    let mut it = e.char_iter();
    assert!(it.next().is_none());
}
