use cliutils::extract::extract_bytes;
use cliutils::extract::extract_chars;
use cliutils::extract::extract_fields;
use cliutils::extract::parse_delimiter;
use cliutils::extract::parse_pos;
use cliutils::extract::PosRange;

fn r(start: usize, end: usize) -> PosRange {
    PosRange { start, end }
}

#[test]
fn test_extract_bytes() {
    assert_eq!(extract_bytes("ábc", &[r(0, 1)]), "�".to_string());
    assert_eq!(extract_bytes("ábc", &[r(0, 2)]), "á".to_string());
    assert_eq!(extract_bytes("ábc", &[r(0, 3)]), "áb".to_string());
    assert_eq!(extract_bytes("ábc", &[r(0, 4)]), "ábc".to_string());
    assert_eq!(extract_bytes("ábc", &[r(3, 4), r(2, 3)]), "cb".to_string());
    assert_eq!(extract_bytes("ábc", &[r(0, 2), r(5, 6)]), "á".to_string());
}

#[test]
fn test_extract_chars() {
    assert_eq!(extract_chars("", &[r(0, 1)]), "".to_string());
    assert_eq!(extract_chars("ábc", &[r(0, 1)]), "á".to_string());
    assert_eq!(extract_chars("ábc", &[r(0, 1), r(2, 3)]), "ác".to_string());
    assert_eq!(extract_chars("ábc", &[r(0, 3)]), "ábc".to_string());
    assert_eq!(extract_chars("ábc", &[r(2, 3), r(1, 2)]), "cb".to_string());
    assert_eq!(extract_chars("ábc", &[r(0, 1), r(1, 2), r(4, 5)]), "áb".to_string());
}

#[test]
fn test_extract_fields() {
    let rec = vec!["Captain".to_string(), "Sham".to_string(), "12345".to_string()];
    assert_eq!(extract_fields(&rec, &[r(0, 1)]), vec!["Captain".to_string()]);
    assert_eq!(extract_fields(&rec, &[r(1, 2)]), vec!["Sham".to_string()]);
    assert_eq!(
        extract_fields(&rec, &[r(0, 1), r(2, 3)]),
        vec!["Captain".to_string(), "12345".to_string()]
    );
    assert_eq!(extract_fields(&rec, &[r(0, 1), r(3, 4)]), vec!["Captain".to_string()]);
    assert_eq!(
        extract_fields(&rec, &[r(1, 2), r(0, 1)]),
        vec!["Sham".to_string(), "Captain".to_string()]
    );
}

#[test]
fn parse_pos_lists() {
    assert_eq!(parse_pos("1").unwrap(), vec![r(0, 1)]);
    assert_eq!(parse_pos("1,3-5,7").unwrap(), vec![r(0, 1), r(2, 5), r(6, 7)]);
    assert!(parse_pos("").unwrap().is_empty());
    for bad in ["0", "+1", "a", "1-1", "2-1", "1-", "-5", "1,,2", "0-1"] {
        assert!(parse_pos(bad).is_err(), "{bad} should be rejected");
    }
    assert_eq!(
        parse_pos("a-1").unwrap_err().message(),
        "illegal list value: \"a-1\""
    );
}

#[test]
fn test_parse_delimiter() {
    assert_eq!(parse_delimiter("\t").unwrap(), 9);
    assert_eq!(parse_delimiter(",").unwrap(), b',');
    let res = parse_delimiter(",,");
    assert!(res.is_err());
    assert_eq!(
        res.unwrap_err().message(),
        r#"--delim ",," must be a single byte"#
    );
    // a multi-byte character is not a single byte
    assert!(parse_delimiter("á").is_err());
    assert!(parse_delimiter("").is_err());
}
