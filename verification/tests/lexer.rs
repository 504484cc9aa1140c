use spell_lexer::laws::line_ends_are_delimiters;
use spell_lexer::lexer::{is_wordchar, joins_word, Lexer, Word};
use spell_lexer::position::{Position, Range};

fn case(lexer: &mut Lexer, expected_word: &str, line: usize) {
    let word = lexer.next().unwrap();
    assert_eq!(word.text, expected_word);
    assert_eq!(word.range.start.line, line);
}

fn range(line: usize, start: usize, end: usize) -> Range {
    Range {
        start: Position { line, character: start },
        end: Position { line, character: end },
    }
}

fn drain(text: &str) -> Vec<(String, Range)> {
    let mut words = Vec::new();
    if let Some(mut lexer) = Lexer::new(text) {
        while let Some(word) = lexer.next() {
            words.push((word.text.to_string(), word.range));
        }
    }
    words
}

fn expect(text: &str, expected: Vec<(&str, Range)>) {
    let expected: Vec<(String, Range)> =
        expected.into_iter().map(|(word, range)| (word.to_string(), range)).collect();
    assert_eq!(drain(text), expected);
}

#[test]
fn lexer() {
    let text = format!(
        "{}{}{}{}",
        "\n",
        "This is the first line.\n",
        "This isn't the first line.\n",
        "\n"
    );

    let mut lexer = Lexer::new(text.as_str()).unwrap();

    case(&mut lexer, "This", 1);
    case(&mut lexer, "is", 1);
    case(&mut lexer, "the", 1);
    case(&mut lexer, "first", 1);
    case(&mut lexer, "line", 1);
    case(&mut lexer, "This", 2);
    case(&mut lexer, "isn't", 2);
    case(&mut lexer, "the", 2);
    case(&mut lexer, "first", 2);
    case(&mut lexer, "line", 2);
    assert!(matches!(lexer.next(), None));
}

#[test]
fn hello_world() {
    expect("Hello world.\n", vec![("Hello", range(0, 0, 5)), ("world", range(0, 6, 11))]);
}

#[test]
fn apostrophe_is_kept() {
    expect("isn't\n", vec![("isn't", range(0, 0, 5))]);
}

#[test]
fn empty_text_has_no_lexer() {
    assert!(Lexer::new("").is_none());
    expect("", vec![]);
}

#[test]
fn line_feed_alone_has_a_lexer_and_no_word() {
    let mut lexer = Lexer::new("\n").unwrap();
    assert!(lexer.next().is_none());
}

#[test]
fn empty_lines_are_counted() {
    expect("\n\nfoo\n", vec![("foo", range(2, 0, 3))]);
}

#[test]
fn punctuation_splits_a_word() {
    expect("foo-bar\n", vec![("foo", range(0, 0, 3)), ("bar", range(0, 4, 7))]);
}

#[test]
fn line_end_splits_a_word() {
    expect("abc\ndef\n", vec![("abc", range(0, 0, 3)), ("def", range(1, 0, 3))]);
}

#[test]
fn line_end_splits_words_of_one_character() {
    expect(
        "a\nb\nc",
        vec![("a", range(0, 0, 1)), ("b", range(1, 0, 1)), ("c", range(2, 0, 1))],
    );
}

#[test]
fn word_after_line_end_word_keeps_its_followers() {
    expect(
        "ab\ncd ef\n",
        vec![("ab", range(0, 0, 2)), ("cd", range(1, 0, 2)), ("ef", range(1, 3, 5))],
    );
}

#[test]
fn no_final_line_feed() {
    expect("abc", vec![("abc", range(0, 0, 3))]);
}

#[test]
fn digits_are_delimiters() {
    expect("abc123def", vec![("abc", range(0, 0, 3)), ("def", range(0, 6, 9))]);
}

#[test]
fn only_delimiters() {
    expect("12 34 .,;\n \n", vec![]);
}

#[test]
fn apostrophes_alone_are_a_word() {
    expect("a '' b", vec![("a", range(0, 0, 1)), ("''", range(0, 2, 4)), ("b", range(0, 5, 6))]);
}

#[test]
fn carriage_return_line_feed_ends_a_line() {
    expect("foo\r\nbar\r\n", vec![("foo", range(0, 0, 3)), ("bar", range(1, 0, 3))]);
}

#[test]
fn carriage_return_alone_stays_in_the_line() {
    expect("a\rb\n", vec![("a", range(0, 0, 1)), ("b", range(0, 2, 3))]);
}

#[test]
fn characters_are_counted_not_bytes() {
    expect(
        "h\u{e9}llo w\u{f6}rld\n",
        vec![("h\u{e9}llo", range(0, 0, 5)), ("w\u{f6}rld", range(0, 6, 11))],
    );
}

#[test]
fn wide_characters_are_cut_at_their_bounds() {
    // Three bytes each, then four bytes for the delimiter.
    expect(
        "\u{4eac}\u{90fd}\u{1f49d}\u{4eac}x\n\u{1f49d}y",
        vec![
            ("\u{4eac}\u{90fd}", range(0, 0, 2)),
            ("\u{4eac}x", range(0, 3, 5)),
            ("y", range(1, 1, 2)),
        ],
    );
}

#[test]
fn words_are_the_text_without_delimiters() {
    let text = "It's 3 o'clock: time for t\u{e9}!\r\nNo?\n\nyes\n";
    let joined: String = drain(text).into_iter().map(|(word, _)| word).collect();
    let letters: String = text.chars().filter(|c| is_wordchar(*c)).collect();
    assert_eq!(joined, letters);
    assert_eq!(joined, "It'so'clocktimefort\u{e9}Noyes");
}

#[test]
fn line_ends_are_no_word_characters() {
    assert!(line_ends_are_delimiters());
}

#[test]
fn ranges_stay_on_a_line_and_are_as_wide_as_the_word() {
    let text = "one two\nthree\n\nfour five six\nseven";
    let words = drain(text);
    assert_eq!(words.len(), 7);
    for (word, range) in words {
        assert_eq!(range.start.line, range.end.line);
        assert!(range.start.character <= range.end.character);
        assert_eq!(range.end.character - range.start.character, word.chars().count());
    }
}

#[test]
fn two_lexers_give_the_same_words() {
    let text = "The same text,\ntwice over.\n";
    let first = drain(text);
    let second = drain(text);
    assert_eq!(first, second);
    assert_eq!(first.len(), 5);
}

#[test]
fn exhaustion_is_final() {
    let mut lexer = Lexer::new("one\n").unwrap();
    assert!(lexer.next().is_some());
    for _ in 0..4 {
        assert!(lexer.next().is_none());
        assert!(lexer.get().is_none());
    }
}

#[test]
fn get_gives_the_current_word() {
    let mut lexer = Lexer::new("one two").unwrap();
    assert!(lexer.get().is_none());
    lexer.advance();
    assert_eq!(lexer.get(), Some(&Word { text: "one", range: range(0, 0, 3) }));
    assert_eq!(lexer.get(), Some(&Word { text: "one", range: range(0, 0, 3) }));
    lexer.advance();
    assert_eq!(lexer.get(), Some(&Word { text: "two", range: range(0, 4, 7) }));
    lexer.advance();
    assert_eq!(lexer.get(), None);
}

#[test]
fn letters_and_apostrophes_join_words() {
    assert!(joins_word('x', true));
    assert!(joins_word('\'', true));
    assert!(joins_word('\'', false));
    assert!(!joins_word('x', false));
    assert!(!joins_word('-', false));
}

#[test]
fn word_characters() {
    assert!(is_wordchar('a'));
    assert!(is_wordchar('Z'));
    assert!(is_wordchar('\''));
    assert!(is_wordchar('\u{e9}'));
    assert!(is_wordchar('\u{4eac}'));
    assert!(!is_wordchar('1'));
    assert!(!is_wordchar(' '));
    assert!(!is_wordchar('-'));
    assert!(!is_wordchar('\n'));
    assert!(!is_wordchar('\r'));
    assert!(!is_wordchar('\u{1f49d}'));
}

fn words_line_by_line(text: &str) -> Vec<(String, Range)> {
    let mut words = Vec::new();
    for (line, content) in text.lines().enumerate() {
        let chars: Vec<char> = content.chars().collect();
        let mut at = 0;
        while at < chars.len() {
            if !is_wordchar(chars[at]) {
                at += 1;
                continue;
            }
            let start = at;
            while at < chars.len() && is_wordchar(chars[at]) {
                at += 1;
            }
            words.push((chars[start..at].iter().collect(), range(line, start, at)));
        }
    }
    words
}

#[test]
fn words_are_the_runs_of_each_line() {
    let alphabet = ['a', 'b', '\'', ' ', '1', '\n', '\n', '\r', '\u{e9}', '\u{4eac}', '\u{1f49d}'];
    let mut state: u64 = 0x2545_f491_4f6c_dd1d;
    for _ in 0..3000 {
        let mut text = String::new();
        state = state.wrapping_mul(6364136223846793005).wrapping_add(1442695040888963407);
        let length = (state >> 33) % 14;
        for _ in 0..length {
            state = state.wrapping_mul(6364136223846793005).wrapping_add(1442695040888963407);
            text.push(alphabet[((state >> 33) % alphabet.len() as u64) as usize]);
        }
        assert_eq!(drain(&text), words_line_by_line(&text), "for {:?}", text);
    }
}
