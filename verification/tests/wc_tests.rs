use cliutils::wc::count_bufread;
use cliutils::wc::Counts;

#[test]
fn test_count() {
    let text = "I don't want the world.\nI just want your half.\r\n";
    let info = count_bufread(text.as_bytes());
    let expected = Counts { lines: 2, words: 10, bytes: 48, chars: 48 };
    assert_eq!(info, expected);
}

#[test]
fn count_empty_input() {
    let info = count_bufread(b"");
    assert_eq!(info, Counts { lines: 0, words: 0, bytes: 0, chars: 0 });
}

#[test]
fn count_unterminated_line_and_tabs() {
    let info = count_bufread(b"one\ttwo three\nfour");
    assert_eq!(info.lines, 2);
    assert_eq!(info.words, 4);
    assert_eq!(info.bytes, 18);
    assert_eq!(info.chars, 18);
}

#[test]
fn count_multibyte_characters() {
    // "éé\n" is five bytes but three characters
    let info = count_bufread("éé\n".as_bytes());
    assert_eq!(info.lines, 1);
    assert_eq!(info.words, 1);
    assert_eq!(info.bytes, 5);
    assert_eq!(info.chars, 3);
}

#[test]
fn counts_add_and_sum() {
    let a = Counts { lines: 1, words: 2, bytes: 3, chars: 4 };
    let b = Counts { lines: 10, words: 20, bytes: 30, chars: 40 };
    assert_eq!(a.add(b), Counts { lines: 11, words: 22, bytes: 33, chars: 44 });
    let total = Counts::sum(&vec![a, b, a]);
    assert_eq!(total, Counts { lines: 12, words: 24, bytes: 36, chars: 48 });
    assert_eq!(Counts::sum(&vec![]), Counts::default());
}

#[test]
fn report_lines_align_and_name() {
    let c = Counts { lines: 3, words: 20, bytes: 177, chars: 177 };
    assert_eq!(
        c.report_line(true, true, true, false, "file.txt"),
        "       3      20     177 file.txt"
    );
    assert_eq!(c.report_line(true, false, false, false, "-"), "       3");
    assert_eq!(c.report_line(false, false, true, true, "-"), "     177     177");
}
