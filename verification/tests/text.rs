use schedule::text::{chars_of, find, has_at, lines, string_of};

fn chars(text: &str) -> Vec<char> {
    text.chars().collect()
}

#[test]
fn chars_of_gives_the_characters() {
    assert_eq!(chars_of("aé\n—"), vec!['a', 'é', '\n', '—']);
    assert!(chars_of("").is_empty());
}

#[test]
fn has_at_tells_where_a_pattern_stands() {
    let s = chars("abcabc");
    assert!(has_at(&s, &chars("abc"), 0));
    assert!(has_at(&s, &chars("abc"), 3));
    assert!(!has_at(&s, &chars("abc"), 1));
    assert!(!has_at(&s, &chars("abc"), 4));
    assert!(!has_at(&s, &chars("abc"), 7));
    assert!(has_at(&s, &chars(""), 6));
    assert!(!has_at(&s, &chars(""), 7));
    assert!(!has_at(&s, &chars("abcabcd"), 0));
    assert!(!has_at(&s, &chars("c"), usize::MAX));
}

#[test]
fn find_gives_the_first_place() {
    let s = chars("a - b - c");
    let pat = chars(" - ");
    assert_eq!(find(&s, &pat, 0), Some(1));
    assert_eq!(find(&s, &pat, 1), Some(1));
    assert_eq!(find(&s, &pat, 2), Some(5));
    assert_eq!(find(&s, &pat, 6), None);
    assert_eq!(find(&s, &pat, 9), None);
    assert_eq!(find(&s, &pat, 10), None);
    assert_eq!(find(&s, &chars(""), 9), Some(9));
    assert_eq!(find(&s, &chars(""), 10), None);
    assert_eq!(find(&chars(""), &pat, 0), None);
    assert_eq!(find(&chars("aab"), &chars("ab"), 0), Some(1));
}

#[test]
fn find_agrees_with_the_standard_search() {
    for (text, pat) in [("hello", "l"), ("hello", "lo"), ("hello", "x"), ("", "x"), ("aaa", "aa"), ("\n\n\n", "\n\n")] {
        assert_eq!(find(&chars(text), &chars(pat), 0), text.find(pat), "{:?} {:?}", text, pat);
    }
}

#[test]
fn string_of_gives_the_characters_between() {
    let s = chars("héllo");
    assert_eq!(string_of(&s, 0, 5), "héllo");
    assert_eq!(string_of(&s, 1, 3), "él");
    assert_eq!(string_of(&s, 2, 2), "");
    assert_eq!(string_of(&s, 5, 5), "");
}

#[test]
fn lines_end_at_line_feeds() {
    let s = chars("one\ntwo\r\n\nfour");
    let got: Vec<String> = lines(&s).into_iter().map(|l| l.iter().collect()).collect();
    assert_eq!(got, vec!["one", "two", "", "four"]);
}

#[test]
fn lines_agree_with_the_standard_lines() {
    for text in [
        "", "\n", "a", "a\n", "a\nb", "a\n\nb\n", "\r\n", "a\r\nb\r\n", "a\r", "a\r\n\r", "\r\r\n", "a\rb\n",
        "\n\n", "é\r\n—",
    ] {
        let s = chars(text);
        let ours: Vec<String> = lines(&s).into_iter().map(|l| l.iter().collect()).collect();
        let theirs: Vec<String> = text.lines().map(|l| l.to_string()).collect();
        assert_eq!(ours, theirs, "{:?}", text);
    }
}
