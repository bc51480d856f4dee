use cliutils::tail::get_start_index;
use cliutils::tail::run_tail;
use cliutils::tail::select_bytes;
use cliutils::tail::select_lines;
use cliutils::tail::LineCounter;
use cliutils::tail::TailEvent;
use cliutils::tail::TailInput;
use cliutils::tail::TailSource;
use cliutils::take_value::TakeValue;
use cliutils::take_value::TakeValue::FromEnd;
use cliutils::take_value::TakeValue::FromStart;

// One line, 24 bytes.
const ONE: &[u8] = b"twenty-three characters\n";

// Twelve lines, 63 bytes.
const TWELVE: &[u8] =
    b"abcd\nabcd\nabcd\nabcd\nabcd\nabcd\nabcd\nabcd\nabcd\nabcd\nabcdef\nabcde\n";

#[test]
fn test_count_lines_bytes() {
    let res = LineCounter::new(ONE);
    assert_eq!(res.lines, 1);
    assert_eq!(res.bytes, 24);

    let res = LineCounter::new(TWELVE);
    assert_eq!(res.lines, 12);
    assert_eq!(res.bytes, 63);
}

#[test]
fn test_parse_num() {
    // All integers should be interpreted as negative numbers
    let res = TakeValue::from_str("3");
    assert!(res.is_ok());
    assert_eq!(res.unwrap(), FromEnd(3));

    // A leading "+" should result in a positive number
    let res = TakeValue::from_str("+3");
    assert!(res.is_ok());
    assert_eq!(res.unwrap(), FromStart(3));

    // An explicit "-" value should result in a negative number
    let res = TakeValue::from_str("-3");
    assert!(res.is_ok());
    assert_eq!(res.unwrap(), FromEnd(3));

    // Zero is zero
    let res = TakeValue::from_str("0");
    assert!(res.is_ok());
    assert_eq!(res.unwrap(), FromEnd(0));

    // Plus zero is special
    let res = TakeValue::from_str("+0");
    assert!(res.is_ok());
    assert_eq!(res.unwrap(), FromStart(0));

    // Test boundaries
    let res = TakeValue::from_str(&usize::MAX.to_string());
    assert!(res.is_ok());
    assert_eq!(res.unwrap(), FromEnd(usize::MAX));

    let res = TakeValue::from_str(&(usize::MIN + 1).to_string());
    assert!(res.is_ok());
    assert_eq!(res.unwrap(), FromEnd(usize::MIN + 1));

    let res = TakeValue::from_str(&format!("+{}", usize::MAX));
    assert!(res.is_ok());
    assert_eq!(res.unwrap(), FromStart(usize::MAX));

    let res = TakeValue::from_str(&usize::MIN.to_string());
    assert!(res.is_ok());
    assert_eq!(res.unwrap(), FromEnd(usize::MIN));

    // A floating-point value is invalid
    let res = TakeValue::from_str("3.14");
    assert!(res.is_err());
    assert_eq!(res.unwrap_err().message(), "3.14");

    // Any non-integer string is invalid
    let res = TakeValue::from_str("foo");
    assert!(res.is_err());
    assert_eq!(res.unwrap_err().message(), "foo");
}

#[test]
fn parser_round_trips() {
    assert_eq!(TakeValue::from_str("10").unwrap(), FromEnd(10));
    assert_eq!(TakeValue::from_str("+10").unwrap(), FromStart(10));
    assert_eq!(TakeValue::from_str("-10").unwrap(), FromEnd(10));
    assert_eq!(TakeValue::from_str("0").unwrap(), FromEnd(0));
    assert_eq!(TakeValue::from_str("+0").unwrap(), FromStart(0));
    assert_eq!(TakeValue::from_str("3.14").unwrap_err().message(), "3.14");
    assert_eq!(TakeValue::from_str("abc").unwrap_err().message(), "abc");
    // overflow of the magnitude is rejected with the text verbatim
    let big = format!("{}0", usize::MAX);
    assert_eq!(TakeValue::from_str(&big).unwrap_err().message(), big);
    // a bare sign has no digits
    assert_eq!(TakeValue::from_str("+").unwrap_err().message(), "+");
    assert_eq!(TakeValue::from_str("").unwrap_err().message(), "");
}

#[test]
fn resolver_boundary_table() {
    // FromEnd: n >= total gives 0, else total - n
    assert_eq!(get_start_index(FromEnd(10), 10), 0);
    assert_eq!(get_start_index(FromEnd(11), 10), 0);
    assert_eq!(get_start_index(FromEnd(0), 10), 10);
    assert_eq!(get_start_index(FromEnd(3), 10), 7);
    // FromStart: n > total gives total, else max(n, 1) - 1
    assert_eq!(get_start_index(FromStart(11), 10), 10);
    assert_eq!(get_start_index(FromStart(10), 10), 9);
    assert_eq!(get_start_index(FromStart(1), 10), 0);
    assert_eq!(get_start_index(FromStart(0), 10), 0);
    assert_eq!(get_start_index(FromStart(0), 0), 0);
    assert_eq!(get_start_index(FromEnd(0), 0), 0);
}

#[test]
fn scenario_last_ten_of_twelve_lines() {
    let counter = LineCounter::new(TWELVE);
    assert_eq!(counter.lines, 12);
    assert_eq!(counter.bytes, 63);
    let start = get_start_index(FromEnd(10), counter.lines);
    assert_eq!(start, 2);
    let out = select_lines(TWELVE, start);
    assert_eq!(out.as_slice(), &TWELVE[10..]);
    // ten lines come out
    assert_eq!(out.iter().filter(|b| **b == b'\n').count(), 10);
}

#[test]
fn scenario_last_three_bytes_of_one_line() {
    let counter = LineCounter::new(ONE);
    assert_eq!(counter.bytes, 24);
    let start = get_start_index(FromEnd(3), counter.bytes);
    assert_eq!(start, 21);
    let out = select_bytes(ONE, start);
    assert_eq!(out.as_slice(), b"rs\n");
}

#[test]
fn scenario_plus_zero_equals_plus_one() {
    for data in [ONE, TWELVE, b"".as_slice(), b"no newline at all".as_slice()] {
        let counter = LineCounter::new(data);
        let s0 = get_start_index(FromStart(0), counter.lines);
        let s1 = get_start_index(FromStart(1), counter.lines);
        assert_eq!(s0, s1);
        assert_eq!(s0, 0);
        assert_eq!(select_lines(data, s0), select_lines(data, s1));
        let b0 = get_start_index(FromStart(0), counter.bytes);
        let b1 = get_start_index(FromStart(1), counter.bytes);
        assert_eq!(select_bytes(data, b0), select_bytes(data, b1));
    }
}

#[test]
fn partition_reconstructs_input() {
    for data in [ONE, TWELVE, b"a\nb".as_slice(), b"".as_slice()] {
        let counter = LineCounter::new(data);
        for start in 0..=counter.lines {
            let tail_part = select_lines(data, start);
            let head_part = cliutils::head::head_lines(data, start);
            let mut whole = head_part.clone();
            whole.extend_from_slice(&tail_part);
            assert_eq!(whole.as_slice(), data);
        }
        for start in 0..=counter.bytes {
            let tail_part = select_bytes(data, start);
            assert_eq!(&data[start..], tail_part.as_slice());
        }
    }
}

#[test]
fn oversized_requests() {
    for data in [ONE, TWELVE, b"".as_slice()] {
        let counter = LineCounter::new(data);
        let start = get_start_index(FromEnd(counter.lines + 1000), counter.lines);
        assert_eq!(start, 0);
        assert_eq!(select_lines(data, start).as_slice(), data);
        let start = get_start_index(FromStart(counter.lines + 1000), counter.lines);
        assert!(select_lines(data, start).is_empty());
        let start = get_start_index(FromEnd(counter.bytes + 1000), counter.bytes);
        assert_eq!(select_bytes(data, start).as_slice(), data);
        let start = get_start_index(FromStart(counter.bytes + 1000), counter.bytes);
        assert!(select_bytes(data, start).is_empty());
    }
}

#[test]
fn multi_file_isolation() {
    let inputs = vec![
        TailInput {
            name: "one.txt".to_string(),
            source: TailSource::Loaded(ONE.to_vec()),
        },
        TailInput {
            name: "gone.txt".to_string(),
            source: TailSource::Unopened("No such file or directory (os error 2)".to_string()),
        },
        TailInput {
            name: "twelve.txt".to_string(),
            source: TailSource::Loaded(TWELVE.to_vec()),
        },
    ];
    let (events, failed) = run_tail(&inputs, FromEnd(10), None, false);
    assert!(failed);
    assert_eq!(events.len(), 6);
    match &events[0] {
        TailEvent::Banner(b) => assert_eq!(b, "==> one.txt <=="),
        _ => panic!("expected a banner"),
    }
    match &events[1] {
        TailEvent::Data(d) => assert_eq!(d.as_slice(), ONE),
        _ => panic!("expected data"),
    }
    assert!(matches!(events[2], TailEvent::Blank));
    match &events[3] {
        TailEvent::Diagnostic(d) => {
            assert_eq!(d, "gone.txt: No such file or directory (os error 2)")
        }
        _ => panic!("expected a diagnostic"),
    }
    match &events[4] {
        TailEvent::Banner(b) => assert_eq!(b, "==> twelve.txt <=="),
        _ => panic!("expected a banner"),
    }
    match &events[5] {
        TailEvent::Data(d) => assert_eq!(d.as_slice(), &TWELVE[10..]),
        _ => panic!("expected data"),
    }
}

#[test]
fn run_tail_byte_mode_and_quiet() {
    let inputs = vec![
        TailInput {
            name: "one.txt".to_string(),
            source: TailSource::Loaded(ONE.to_vec()),
        },
        TailInput {
            name: "two.txt".to_string(),
            source: TailSource::Loaded(TWELVE.to_vec()),
        },
    ];
    let (events, failed) = run_tail(&inputs, FromEnd(10), Some(FromEnd(3)), true);
    assert!(!failed);
    // quiet: no banners, no blanks
    assert_eq!(events.len(), 2);
    match &events[0] {
        TailEvent::Data(d) => assert_eq!(d.as_slice(), b"rs\n"),
        _ => panic!("expected data"),
    }
    match &events[1] {
        TailEvent::Data(d) => assert_eq!(d.as_slice(), b"de\n"),
        _ => panic!("expected data"),
    }
}

#[test]
fn head_selects_prefixes() {
    assert_eq!(cliutils::head::head_lines(TWELVE, 2).as_slice(), &TWELVE[..10]);
    assert_eq!(cliutils::head::head_lines(TWELVE, 100).as_slice(), TWELVE);
    assert_eq!(cliutils::head::head_bytes(ONE, 6).as_slice(), b"twenty");
    assert_eq!(cliutils::head::head_bytes(ONE, 100).as_slice(), ONE);
    assert!(cliutils::head::head_bytes(ONE, 0).is_empty());
    assert!(cliutils::head::head_lines(ONE, 0).is_empty());
}
