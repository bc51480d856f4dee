use cliutils::cat::number_lines;
use cliutils::comm::comm_lines;
use cliutils::echo::echo_line;
use cliutils::files::keep_entry;
use cliutils::files::EntryInfo;
use cliutils::files::EntryType;
use cliutils::pattern::Pattern;
use cliutils::uniq::uniq_lines;

fn lines(v: &[&str]) -> Vec<String> {
    v.iter().map(|s| s.to_string()).collect()
}

#[test]
fn uniq_collapses_runs() {
    let input = lines(&["a\n", "a\n", "b\n", "a\n", "a\n", "a\n"]);
    assert_eq!(uniq_lines(&input, false), lines(&["a\n", "b\n", "a\n"]));
    assert_eq!(
        uniq_lines(&input, true),
        lines(&["   2 a\n", "   1 b\n", "   3 a\n"])
    );
}

#[test]
fn uniq_compares_without_trailing_whitespace() {
    // the second line equals the first once trailing whitespace goes,
    // so the first of the run is kept
    let input = lines(&["x  \n", "x\n", "y"]);
    assert_eq!(uniq_lines(&input, true), lines(&["   2 x  \n", "   1 y"]));
    assert_eq!(uniq_lines(&lines(&[]), true), lines(&[]));
}

#[test]
fn comm_merges_three_columns() {
    let l1 = lines(&["apple", "banana", "cherry"]);
    let l2 = lines(&["banana", "cherry", "date"]);
    // all columns shown, tab delimiter
    let out = comm_lines(&l1, &l2, true, true, true, false, "\t");
    assert_eq!(
        out,
        lines(&["apple", "\t\tbanana", "\t\tcherry", "\tdate"])
    );
    // only the shared column
    let out = comm_lines(&l1, &l2, false, false, true, false, "\t");
    assert_eq!(out, lines(&["banana", "cherry"]));
    // case-insensitive comparison
    let out = comm_lines(&lines(&["APPLE"]), &lines(&["apple"]), true, true, true, false, "\t");
    assert_eq!(out, lines(&["APPLE", "\tapple"]));
    let out = comm_lines(&lines(&["APPLE"]), &lines(&["apple"]), true, true, true, true, "\t");
    assert_eq!(out, lines(&["\t\tAPPLE"]));
}

#[test]
fn cat_numbers_lines() {
    let input = lines(&["one", "", "two"]);
    assert_eq!(
        number_lines(&input, true, false),
        lines(&["     1\tone", "     2\t", "     3\ttwo"])
    );
    assert_eq!(
        number_lines(&input, false, true),
        lines(&["     1\tone", "", "     2\ttwo"])
    );
    assert_eq!(number_lines(&input, false, false), input);
}

#[test]
fn echo_joins_words() {
    let words = lines(&["Hello", "there"]);
    assert_eq!(echo_line(&words, false), "Hello there\n");
    assert_eq!(echo_line(&words, true), "Hello there");
    assert_eq!(echo_line(&lines(&["Hello  there"]), false), "Hello  there\n");
    assert_eq!(echo_line(&lines(&[]), false), "\n");
}

#[test]
fn entry_filters() {
    let file_entry = EntryInfo {
        name: "notes.csv".to_string(),
        is_dir: false,
        is_file: true,
        is_link: false,
    };
    let dir_entry = EntryInfo {
        name: "src".to_string(),
        is_dir: true,
        is_file: false,
        is_link: false,
    };
    let csv = Pattern::build(".*[.]csv", false).unwrap();
    let names = vec![csv];
    let no_names: Vec<Pattern> = vec![];
    let no_types: Vec<EntryType> = vec![];

    // empty filters pass everything
    assert!(keep_entry(&file_entry, &no_names, &no_types));
    assert!(keep_entry(&dir_entry, &no_names, &no_types));
    // the name filter keeps only matching names
    assert!(keep_entry(&file_entry, &names, &no_types));
    assert!(!keep_entry(&dir_entry, &names, &no_types));
    // the type filter keeps only asked-for kinds
    assert!(keep_entry(&dir_entry, &no_names, &vec![EntryType::Dir]));
    assert!(!keep_entry(&dir_entry, &no_names, &vec![EntryType::File, EntryType::Link]));
    assert!(keep_entry(&file_entry, &no_names, &vec![EntryType::File, EntryType::Link]));
}
