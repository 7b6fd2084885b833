use buffer::rope::{Bound, Rope};

#[test]
fn test_concat() {
    let r1 = Rope::concat(
        &Rope::from_str("aaa"),
        &Rope::concat(&Rope::from_str("bbb"), &Rope::from_str("ccc")),
    );

    assert_eq!(&r1, "aaabbbccc");
}

#[test]
fn test_len() {
    let r1 = Rope::concat(
        &Rope::from_str("aaa"),
        &Rope::concat(&Rope::from_str("bbb"), &Rope::from_str("ccc")),
    );

    assert_eq!(r1.len(), 9);
    assert_eq!(Rope::from_str("").len(), 0);
}

#[test]
fn test_lenlines() {
    let r1 = Rope::concat(
        &Rope::from_str("aaa\n"),
        &Rope::concat(&Rope::from_str("b\nb\nb"), &Rope::from_str("ccc\n")),
    );

    assert_eq!(r1.lenlines(), 4);
    assert_eq!(Rope::from_str("").lenlines(), 0);
    assert_eq!(Rope::from_str("\n").lenlines(), 1);
}

#[test]
fn test_char_substr() {
    let r1 = Rope::concat(
        &Rope::from_str("aaa"),
        &Rope::concat(&Rope::from_str("bbb"), &Rope::from_str("ccc")),
    );

    assert_eq!(&r1.char_substr(1, 4), "aabb");
    assert_eq!(&r1.char_substr(0, r1.len()), "aaabbbccc");
    assert_eq!(&r1.char_substr(4, 0), "");
    assert_eq!(&r1.char_substr(3, 6), "bbbccc");
}

#[test]
fn test_char_slice() {
    let r1 = Rope::concat(
        &Rope::from_str("aaa"),
        &Rope::concat(&Rope::from_str("bbb"), &Rope::from_str("ccc")),
    );

    assert_eq!(&r1.char_slice(Bound::Included(1), Bound::Excluded(5)), "aabb");
    assert_eq!(&r1.char_slice(Bound::Unbounded, Bound::Unbounded), "aaabbbccc");
    assert_eq!(&r1.char_slice(Bound::Included(4), Bound::Excluded(4)), "");
    assert_eq!(&r1.char_slice(Bound::Included(3), Bound::Excluded(9)), "bbbccc");
}

#[test]
fn test_line_start() {
    let r0 = Rope::from_str("\nhel");
    assert_eq!(r0.line_start(0), 0);
    assert_eq!(r0.line_start(1), 1);
    assert_eq!(r0.line_start(2), 4);
    let r1 = Rope::from_str("hello\nworld\nhi\n");
    assert_eq!(r1.line_start(0), 0);
    assert_eq!(r1.line_start(1), 6);
    assert_eq!(r1.line_start(2), 12);
    let r2 = Rope::concat(&Rope::from_str("hello\n"), &Rope::from_str("world\n"));
    assert_eq!(r2.line_start(0), 0);
    assert_eq!(r2.line_start(1), 6);

    let r3 = Rope::concat(&Rope::from_str("hello"), &Rope::from_str("\nworld\n"));
    assert_eq!(r3.line_start(0), 0);
    assert_eq!(r3.line_start(1), 6);
    assert_eq!(r3.line_start(2), 12);

    let r4 = Rope::concat(&Rope::from_str(""), &Rope::from_str("world\n"));
    assert_eq!(r4.line_start(0), 0);
}

#[test]
fn test_line_substr() {
    let r1 = Rope::concat(
        &Rope::from_str("aa\na"),
        &Rope::concat(&Rope::from_str("\nbbb\n"), &Rope::from_str("ccc")),
    );

    assert_eq!(&r1.line_substr(0, 4), "aa\na\nbbb\nccc");
    assert_eq!(&r1.line_substr(1, 2), "a\nbbb\n");
    assert_eq!(&r1.line_substr(2, 1), "bbb\n");
}

#[test]
fn test_line_slice() {
    let r1 = Rope::concat(
        &Rope::from_str("aa\na"),
        &Rope::concat(&Rope::from_str("\nbbb\n"), &Rope::from_str("ccc")),
    );

    assert_eq!(&r1.line_slice(Bound::Unbounded, Bound::Unbounded), "aa\na\nbbb\nccc");
    assert_eq!(&r1.line_slice(Bound::Included(1), Bound::Included(2)), "a\nbbb\n");
    assert_eq!(&r1.line_slice(Bound::Included(2), Bound::Excluded(3)), "bbb\n");
}

#[test]
fn test_str_iter() {
    let r1 = Rope::concat(
        &Rope::from_str("aa\na"),
        &Rope::concat(&Rope::from_str("\nbbb\n"), &Rope::from_str("ccc")),
    );

    let expected = vec!["aa\na", "\nbbb\n", "ccc"];
    let mut it = r1.str_iter();
    let mut count: usize = 0;
    while let Some(chunk) = it.next() {
        assert!(count < expected.len());
        assert_eq!(chunk.as_bytes().as_slice(), expected[count].as_bytes());
        count += 1;
    }
    assert_eq!(count, expected.len());
}

#[test]
fn test_char_iter() {
    let r1 = Rope::concat(
        &Rope::from_str("aa\na"),
        &Rope::concat(&Rope::from_str("\nbbb\n"), &Rope::from_str("ccc")),
    );

    let expected = "aa\na\nbbb\nccc".as_bytes();
    let mut it = r1.char_iter();
    let mut count: usize = 0;
    while let Some(ch) = it.next() {
        assert!(count < expected.len());
        assert_eq!(ch, expected[count]);
        count += 1;
    }
    assert_eq!(count, expected.len());
}

#[test]
fn test_line_iter() {
    let r1 = Rope::concat(
        &Rope::from_str("aa\na"),
        &Rope::concat(&Rope::from_str("\nbbb\n"), &Rope::from_str("ccc")),
    );

    let expected = vec!["aa\n", "a\n", "bbb\n", "ccc"];
    let mut it = r1.line_iter();
    let mut count: usize = 0;
    while let Some(line) = it.next() {
        assert!(count < expected.len());
        assert_eq!(&line, expected[count]);
        count += 1;
    }
    assert_eq!(count, expected.len());
}

#[test]
fn test_insert() {
    let r1 = Rope::from_str("hello world");
    assert_eq!(&r1, "hello world");
    assert_eq!(&r1.insert(0, Rope::from_str("s: ")), "s: hello world");
    assert_eq!(&r1.insert(5, Rope::from_str(" to the")), "hello to the world");
    assert_eq!(&r1.insert(11, Rope::from_str(".")), "hello world.");
}

#[test]
fn test_delete() {
    let r1 = Rope::concat(
        &Rope::from_str("aaa"),
        &Rope::concat(&Rope::from_str("bbb"), &Rope::from_str("ccc")),
    );
    assert_eq!(&r1.delete(Bound::Unbounded, Bound::Unbounded), "");
    assert_eq!(&r1.delete(Bound::Unbounded, Bound::Excluded(3)), "bbbccc");
    assert_eq!(&r1.delete(Bound::Included(1), Bound::Included(4)), "abccc");
    assert_eq!(&r1.delete(Bound::Included(1), Bound::Excluded(5)), "abccc");
    assert_eq!(&r1.delete(Bound::Included(4), Bound::Unbounded), "aaab");
}
