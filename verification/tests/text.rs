use cirrove_service::bytes::{push_number, read_number};
use cirrove_service::digest::{digest_name, digest_of};
use cirrove_service::outside::{keep_second, now_seconds, SECOND_LIMIT};
use cirrove_service::text::{comes_before, contains_char, same_text};
use cirrove_service::words::{parse_number, split_lines, split_once, split_words};

fn chars(text: &str) -> Vec<char> {
    text.chars().collect()
}

fn texts(pieces: Vec<Vec<char>>) -> Vec<String> {
    pieces.into_iter().map(|piece| piece.into_iter().collect()).collect()
}

#[test]
fn digests_are_sha_256_in_lower_case() {
    assert_eq!(
        digest_name(b""),
        "e3b0c44298fc1c149afbf4c8996fb92427ae41e4649b934ca495991b7852b855"
    );
    assert_eq!(digest_of(b"abc")[..4], [0xba, 0x78, 0x16, 0xbf]);
}

#[test]
fn numbers_come_back_from_their_bytes() {
    let mut bytes = Vec::new();
    push_number(&mut bytes, 0x0102_0304_0506_0708, 8);
    push_number(&mut bytes, 0xa0b0, 4);
    assert_eq!(bytes.len(), 12);
    assert_eq!(read_number(&bytes, 0, 8), 0x0102_0304_0506_0708);
    assert_eq!(read_number(&bytes, 8, 4), 0xa0b0);
}

#[test]
fn lines_and_words_split_as_the_standard_library_does() {
    let text = "one\r\ntwo\n\nthree";
    assert_eq!(
        texts(split_lines(&chars(text))),
        text.lines().collect::<Vec<_>>()
    );
    let spaced = " a\u{2003}b\t c\u{a0}d ";
    assert_eq!(
        texts(split_words(&chars(spaced))),
        spaced.split_whitespace().collect::<Vec<_>>()
    );
    let halves = split_once(&chars("a - b - c"), &chars(" - ")).unwrap();
    assert_eq!(texts(vec![halves.0, halves.1]), ["a", "b - c"]);
    assert!(split_once(&chars("abc"), &chars("-")).is_none());
    assert_eq!(parse_number(&chars("+42")), Some(42));
    assert_eq!(parse_number(&chars("4294967296")), None);
    assert_eq!(parse_number(&chars("4x")), None);
}

#[test]
fn text_is_compared_by_its_characters() {
    assert!(same_text("\u{e9}", "\u{e9}"));
    assert!(!same_text("e\u{301}", "\u{e9}"));
    assert!(comes_before("a", "b"));
    assert!(comes_before("a", "ab"));
    assert!(!comes_before("b", "ab"));
    assert!(contains_char("a/b", '/'));
    assert!(!contains_char("ab", '/'));
}

#[test]
fn seconds_fit_what_storage_keeps() {
    assert_eq!(keep_second(None), 0);
    assert_eq!(keep_second(Some(5)), 5);
    assert_eq!(keep_second(Some(u64::MAX)), SECOND_LIMIT);
    assert!(now_seconds() > 1_600_000_000);
}

#[test]
fn white_space_is_what_the_standard_library_takes_for_it() {
    for c in (0..0x11_0000).filter_map(char::from_u32) {
        let words = split_words(&vec!['a', c, 'b']);
        assert_eq!(words.len() == 2, c.is_whitespace(), "{:x}", c as u32);
    }
}
