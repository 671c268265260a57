use osi2::{bytes_eq, decode_name, order_of, text_eq, NameOrder, OwnedText};

#[test]
fn well_formed_bytes_decode_to_their_text() {
    assert_eq!(decode_name(b"init_task"), Some("init_task"));
    assert_eq!(decode_name(b""), Some(""));
    assert_eq!(decode_name(&[0x7f]), Some("\u{7f}"));
    assert_eq!(decode_name(&[0xc3, 0xa9]), Some("é"));
    assert_eq!(decode_name(&[0xe2, 0x82, 0xac]), Some("€"));
    assert_eq!(decode_name(&[0xf0, 0x9f, 0x90, 0xbc]), Some("\u{1f43c}"));
    assert_eq!(decode_name(&[0xf4, 0x8f, 0xbf, 0xbf]), Some("\u{10ffff}"));
    assert_eq!(decode_name(&[b'a', 0, b'b']), Some("a\0b"));
}

#[test]
fn malformed_bytes_decode_to_nothing() {
    assert_eq!(decode_name(&[0x80]), None);
    assert_eq!(decode_name(&[0xff]), None);
    assert_eq!(decode_name(&[0xc3]), None);
    assert_eq!(decode_name(&[0xc3, 0x28]), None);
    assert_eq!(decode_name(&[0xc0, 0x80]), None);
    assert_eq!(decode_name(&[0xc1, 0xbf]), None);
    assert_eq!(decode_name(&[0xe0, 0x80, 0x80]), None);
    assert_eq!(decode_name(&[0xed, 0xa0, 0x80]), None);
    assert_eq!(decode_name(&[0xed, 0xbf, 0xbf]), None);
    assert_eq!(decode_name(&[0xf0, 0x80, 0x80, 0x80]), None);
    assert_eq!(decode_name(&[0xf4, 0x90, 0x80, 0x80]), None);
    assert_eq!(decode_name(&[0xf8, 0x88, 0x80, 0x80, 0x80]), None);
    assert_eq!(decode_name(&[b'o', b'k', 0xfe]), None);
}

#[test]
fn owned_text_is_the_text_and_a_terminator() {
    let text = OwnedText::encode("pid_t").unwrap();
    assert_eq!(text.as_bytes_with_nul(), b"pid_t\0");
    assert_eq!(text.into_bytes_with_nul(), b"pid_t\0".to_vec());
    let empty = OwnedText::encode("").unwrap();
    assert_eq!(empty.as_bytes_with_nul(), &[0u8]);
    let wide = OwnedText::encode("größe").unwrap();
    assert_eq!(wide.as_bytes_with_nul(), &[b'g', b'r', 0xc3, 0xb6, 0xc3, 0x9f, b'e', 0]);
}

#[test]
fn text_with_a_zero_byte_has_no_owned_form() {
    assert!(OwnedText::encode("\0").is_none());
    assert!(OwnedText::encode("a\0").is_none());
    assert!(OwnedText::encode("\0a").is_none());
    assert!(OwnedText::encode("task\0struct").is_none());
}

#[test]
fn owned_text_decodes_back_to_the_text() {
    for name in ["pid_t", "", "unsigned long", "größe", "\u{1f43c}"] {
        let owned = OwnedText::encode(name).unwrap();
        let bytes = owned.as_bytes_with_nul();
        assert_eq!(bytes[bytes.len() - 1], 0);
        assert!(!bytes[..bytes.len() - 1].contains(&0));
        assert_eq!(decode_name(&bytes[..bytes.len() - 1]), Some(name));
    }
}

#[test]
fn names_compare_exactly() {
    assert!(text_eq("init_task", "init_task"));
    assert!(text_eq("", ""));
    assert!(!text_eq("init_task", "init_tasks"));
    assert!(!text_eq("init_task", "Init_task"));
    assert!(!text_eq("", " "));
    assert!(!text_eq("é", "e"));
    assert!(text_eq("é", "\u{e9}"));
    assert!(!text_eq("e\u{301}", "\u{e9}"));
}

#[test]
fn bytes_compare_exactly() {
    assert!(bytes_eq(b"", b""));
    assert!(bytes_eq(b"abc", b"abc"));
    assert!(!bytes_eq(b"abc", b"abd"));
    assert!(!bytes_eq(b"abc", b"ab"));
    assert!(!bytes_eq(b"", b"\0"));
    assert!(!bytes_eq(b"xbc", b"abc"));
}

#[test]
fn bytes_given_back_are_owned_text_only_if_terminated() {
    let owned = OwnedText::from_bytes_with_nul(b"pid_t\0".to_vec()).unwrap();
    assert_eq!(owned.as_bytes_with_nul(), b"pid_t\0");
    assert_eq!(OwnedText::from_bytes_with_nul(vec![0]).unwrap().into_bytes_with_nul(), vec![0u8]);
    assert!(OwnedText::from_bytes_with_nul(Vec::new()).is_none());
    assert!(OwnedText::from_bytes_with_nul(b"pid_t".to_vec()).is_none());
    assert!(OwnedText::from_bytes_with_nul(b"pid\0t\0".to_vec()).is_none());
    assert!(OwnedText::from_bytes_with_nul(b"\0\0".to_vec()).is_none());
    let round = OwnedText::encode("task_struct").unwrap().into_bytes_with_nul();
    assert!(OwnedText::from_bytes_with_nul(round).is_some());
}

#[test]
fn names_are_ordered_byte_by_byte() {
    assert_eq!(order_of("comm", "pid"), NameOrder::Below);
    assert_eq!(order_of("pid", "comm"), NameOrder::Above);
    assert_eq!(order_of("pid", "pid"), NameOrder::Same);
    assert_eq!(order_of("", ""), NameOrder::Same);
    assert_eq!(order_of("", "a"), NameOrder::Below);
    assert_eq!(order_of("a", ""), NameOrder::Above);
    assert_eq!(order_of("pid", "pid_t"), NameOrder::Below);
    assert_eq!(order_of("pid_t", "pid"), NameOrder::Above);
    assert_eq!(order_of("Zeta", "alpha"), NameOrder::Below);
    assert_eq!(order_of("z", "\u{e9}"), NameOrder::Below);
    assert_eq!(order_of("\u{e9}", "\u{20ac}"), NameOrder::Below);
    assert_eq!(order_of("\u{1f43c}", "\u{20ac}"), NameOrder::Above);
    assert_eq!(order_of("a\0", "a"), NameOrder::Above);
    for (a, b) in [("comm", "pid"), ("x", "x"), ("ab", "abc"), ("\u{e9}", "e"), ("B", "a")] {
        let expected = match a.cmp(b) {
            std::cmp::Ordering::Less => NameOrder::Below,
            std::cmp::Ordering::Equal => NameOrder::Same,
            std::cmp::Ordering::Greater => NameOrder::Above,
        };
        assert_eq!(order_of(a, b), expected);
    }
}
