use cliutils::calendar::last_day_in_month;
use cliutils::calendar::parse_month;
use cliutils::calendar::Date;

#[test]
fn test_parse_month() {
    let res = parse_month("1");
    assert!(res.is_ok());
    assert_eq!(res.unwrap(), 1u32);

    let res = parse_month("12");
    assert!(res.is_ok());
    assert_eq!(res.unwrap(), 12u32);

    let res = parse_month("jan");
    assert!(res.is_ok());
    assert_eq!(res.unwrap(), 1u32);

    let res = parse_month("0");
    assert!(res.is_err());
    assert_eq!(
        res.unwrap_err().message(),
        r#"month "0" not in the range 1 through 12"#
    );

    let res = parse_month("13");
    assert!(res.is_err());
    assert_eq!(
        res.unwrap_err().message(),
        r#"month "13" not in the range 1 through 12"#
    );

    let res = parse_month("foo");
    assert!(res.is_err());
    assert_eq!(res.unwrap_err().message(), r#"Invalid month "foo""#);
}

#[test]
fn parse_month_name_prefixes() {
    // case folds before matching
    assert_eq!(parse_month("JAN").unwrap(), 1);
    assert_eq!(parse_month("December").unwrap(), 12);
    // "ju" fits june and july
    let res = parse_month("ju");
    assert!(res.is_err());
    assert_eq!(res.unwrap_err().message(), r#"Invalid month "ju""#);
    // "jun" fits june alone
    assert_eq!(parse_month("jun").unwrap(), 6);
    // the empty prefix fits every month
    assert!(parse_month("").is_err());
    // a plus sign reads as part of a number, as std parses unsigned
    assert_eq!(parse_month("+7").unwrap(), 7);
}

#[test]
fn test_last_day_in_month() {
    assert_eq!(
        last_day_in_month(2020, 1),
        Date { year: 2020, month: 1, day: 31 }
    );
    assert_eq!(
        last_day_in_month(2020, 2),
        Date { year: 2020, month: 2, day: 29 }
    );
    assert_eq!(
        last_day_in_month(2020, 4),
        Date { year: 2020, month: 4, day: 30 }
    );
}

#[test]
fn last_day_edge_months() {
    // December rolls into the next year's January internally
    assert_eq!(
        last_day_in_month(2021, 12),
        Date { year: 2021, month: 12, day: 31 }
    );
    // century years are leap only when divisible by 400
    assert_eq!(
        last_day_in_month(1900, 2),
        Date { year: 1900, month: 2, day: 28 }
    );
    assert_eq!(
        last_day_in_month(2000, 2),
        Date { year: 2000, month: 2, day: 29 }
    );
    assert_eq!(
        last_day_in_month(2021, 2),
        Date { year: 2021, month: 2, day: 28 }
    );
}
