use boxnovel::ids::{guild_key, parse_u64, to_decimal};
use boxnovel::structures::{Chapter, Novel, SQLResultBoxnovel};
use boxnovel::text::{is_whitespace, join_strings, same_text, split_words};

fn row(current: &str) -> SQLResultBoxnovel {
    SQLResultBoxnovel {
        guild_id: "1".to_string(),
        channel_id: "2".to_string(),
        title: "T".to_string(),
        novel: "https://boxnovel.com/novel/t".to_string(),
        current: current.to_string(),
    }
}

#[test]
fn chapter_new_keeps_fields() {
    let c = Chapter::new("Chapter 1".to_string(), "https://x/1".to_string());
    assert_eq!(c.title, "Chapter 1");
    assert_eq!(c.link, "https://x/1");
}

#[test]
fn novel_new_keeps_fields() {
    let n = Novel::new(
        "Novel".to_string(),
        "https://x".to_string(),
        vec![Chapter::new("a".to_string(), "https://x/a".to_string())],
    );
    assert_eq!(n.title, "Novel");
    assert_eq!(n.link, "https://x");
    assert_eq!(n.chapters.len(), 1);
    assert_eq!(n.chapters[0].link, "https://x/a");
}

#[test]
fn novel_convert_lists_links_each_followed_by_space() {
    let n = Novel::new(
        "Novel".to_string(),
        "https://x".to_string(),
        vec![
            Chapter::new("one".to_string(), "https://x/1".to_string()),
            Chapter::new("two".to_string(), "https://x/2".to_string()),
        ],
    );
    assert_eq!(n.convert(), "https://x/1 https://x/2 ");
}

#[test]
fn novel_convert_without_chapters_is_empty() {
    let n = Novel::new("Novel".to_string(), "https://x".to_string(), vec![]);
    assert_eq!(n.convert(), "");
}

#[test]
fn row_convert_splits_on_white_space() {
    let r = row("  a b\t\tc\nd \u{3000}e  ");
    assert_eq!(r.convert(), vec!["a", "b", "c", "d", "e"]);
    assert_eq!(row("").convert(), Vec::<String>::new());
    assert_eq!(row(" \n\t ").convert(), Vec::<String>::new());
}

#[test]
fn row_convert_matches_split_whitespace() {
    let samples = [
        "https://x/3 https://x/2 https://x/1",
        "\u{85}x\u{a0}y\u{2009}z\u{200b}w",
        "é ü\u{1680}ß",
        "",
        "single",
    ];
    for s in samples.iter() {
        let expected: Vec<String> = s.split_whitespace().map(|w| w.to_string()).collect();
        assert_eq!(row(s).convert(), expected);
    }
}

#[test]
fn stored_links_read_back_law() {
    let n = Novel::new(
        "Novel".to_string(),
        "https://x".to_string(),
        vec![
            Chapter::new("3".to_string(), "https://x/3".to_string()),
            Chapter::new("2".to_string(), "https://x/2".to_string()),
            Chapter::new("1".to_string(), "https://x/1".to_string()),
        ],
    );
    let stored = row(&n.convert());
    assert_eq!(stored.convert(), vec!["https://x/3", "https://x/2", "https://x/1"]);
}

#[test]
fn whitespace_matches_std_for_every_char() {
    for u in 0u32..=0x10FFFF {
        if let Some(c) = char::from_u32(u) {
            assert_eq!(is_whitespace(c), c.is_whitespace(), "char {:x}", u);
        }
    }
}

#[test]
fn split_words_of_joined_links() {
    let links = vec!["https://x/2".to_string(), "https://x/1".to_string()];
    let joined = join_strings(&links, " ");
    assert_eq!(joined, "https://x/2 https://x/1");
    assert_eq!(split_words(&joined), links);
}

#[test]
fn join_strings_cases() {
    assert_eq!(join_strings(&vec![], ", "), "");
    assert_eq!(join_strings(&vec!["a".to_string()], ", "), "a");
    assert_eq!(
        join_strings(&vec!["a".to_string(), "b".to_string(), "c".to_string()], ", "),
        "a, b, c"
    );
}

#[test]
fn same_text_cases() {
    assert!(same_text("-g", "-g"));
    assert!(!same_text("-g", "-G"));
    assert!(!same_text("-g", "-g "));
    assert!(same_text("", ""));
}

#[test]
fn to_decimal_matches_to_string() {
    for n in [0u64, 7, 10, 99, 100, 1234567890, 749_343_532_823_674_890, u64::MAX].iter() {
        assert_eq!(to_decimal(*n), n.to_string());
    }
}

#[test]
fn parse_u64_matches_std() {
    let samples = [
        "0", "42", "+42", "-42", "", "+", "4a", " 4", "007", "18446744073709551615",
        "18446744073709551616", "99999999999999999999999", "١٢",
    ];
    for s in samples.iter() {
        assert_eq!(parse_u64(s), s.parse::<u64>().ok(), "text {:?}", s);
    }
}

#[test]
fn channel_id_round_trip_law() {
    for n in [0u64, 1, 749_343_532_823_674_890, u64::MAX].iter() {
        assert_eq!(parse_u64(&to_decimal(*n)), Some(*n));
    }
}

#[test]
fn guild_key_cases() {
    assert_eq!(guild_key(None), "0");
    assert_eq!(guild_key(Some(0)), "0");
    assert_eq!(guild_key(Some(123456789012345678)), "123456789012345678");
}
