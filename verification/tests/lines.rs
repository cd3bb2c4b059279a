use milligrep::lines::split_first_line;
use milligrep::search;

fn all_lines(text: &str) -> Vec<&str> {
    search("", text)
}

#[test]
fn a_line_ends_at_a_line_feed() {
    assert_eq!(all_lines("a\nb\nc"), vec!["a", "b", "c"]);
    assert_eq!(all_lines("a"), vec!["a"]);
}

#[test]
fn a_final_line_ending_adds_no_line() {
    assert_eq!(all_lines("a\nb\n"), vec!["a", "b"]);
    assert_eq!(all_lines("a\n"), vec!["a"]);
    assert_eq!(all_lines("\n"), vec![""]);
    assert_eq!(all_lines("a\r\n"), vec!["a"]);
}

#[test]
fn empty_lines_are_lines() {
    assert_eq!(all_lines("\n\n"), vec!["", ""]);
    assert_eq!(all_lines("a\n\nb"), vec!["a", "", "b"]);
    assert_eq!(all_lines("\r\n\r\n"), vec!["", ""]);
}

#[test]
fn a_carriage_return_before_a_line_feed_belongs_to_the_ending() {
    assert_eq!(all_lines("a\r\nb\r\nc"), vec!["a", "b", "c"]);
    assert_eq!(all_lines("a\r\r\nb"), vec!["a\r", "b"]);
}

#[test]
fn a_bare_carriage_return_belongs_to_the_line() {
    assert_eq!(all_lines("a\rb\nc"), vec!["a\rb", "c"]);
    assert_eq!(all_lines("a\r"), vec!["a\r"]);
    assert_eq!(all_lines("a\nb\r"), vec!["a", "b\r"]);
    assert_eq!(all_lines("\r"), vec!["\r"]);
    assert_eq!(all_lines("\n\r"), vec!["", "\r"]);
}

#[test]
fn lines_agree_with_the_standard_library() {
    let pieces = ["", "a", "é", "\r", "\n", "\r\n", "日本", "x\ry", "🦀"];
    for one in pieces {
        for two in pieces {
            for three in pieces {
                for four in pieces {
                    let text = format!("{}{}{}{}", one, two, three, four);
                    let expected: Vec<&str> = text.lines().collect();
                    assert_eq!(all_lines(&text), expected);
                }
            }
        }
    }
}

#[test]
fn first_line_and_the_rest() {
    assert_eq!(split_first_line("one\ntwo\nthree"), ("one", "two\nthree"));
    assert_eq!(split_first_line("one\r\ntwo"), ("one", "two"));
    assert_eq!(split_first_line("one"), ("one", ""));
    assert_eq!(split_first_line("one\n"), ("one", ""));
    assert_eq!(split_first_line("\nrest"), ("", "rest"));
    assert_eq!(split_first_line("\r\nrest"), ("", "rest"));
    assert_eq!(split_first_line("one\r"), ("one\r", ""));
    assert_eq!(split_first_line(""), ("", ""));
    assert_eq!(split_first_line("né\u{e9}\nü"), ("né\u{e9}", "ü"));
}
