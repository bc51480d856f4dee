use cliutils::files::find_files;
use cliutils::files::FileResult;
use cliutils::files::PathProbe;
use cliutils::files::WalkEntry;
use cliutils::pattern::find_lines;
use cliutils::pattern::Pattern;

#[test]
fn test_find_lines() {
    let text = "Lorem\nIpsum\r\nDOLOR";

    // The pattern _or_ should match the one line, "Lorem"
    let re1 = Pattern::build("or", false).unwrap();
    let matches = find_lines(text, &re1, false);
    assert_eq!(matches.len(), 1);

    // When inverted, the function should match the other two lines
    let matches = find_lines(text, &re1, true);
    assert_eq!(matches.len(), 2);

    // This regex will be case-insensitive
    let re2 = Pattern::build("or", true).unwrap();

    // The two lines "Lorem" and "DOLOR" should match
    let matches = find_lines(text, &re2, false);
    assert_eq!(matches.len(), 2);

    // When inverted, the one remaining line should match
    let matches = find_lines(text, &re2, true);
    assert_eq!(matches.len(), 1);
}

#[test]
fn find_lines_keeps_terminators() {
    let re = Pattern::build("o", false).unwrap();
    let matches = find_lines("one\ntwo\nthree", &re, false);
    assert_eq!(matches, vec!["one\n".to_string(), "two\n".to_string()]);
}

#[test]
fn pattern_build_rejects_bad_syntax() {
    assert!(Pattern::build("(", false).is_none());
    assert!(Pattern::build("*BG", true).is_none());
    assert!(Pattern::build("fox", false).is_some());
}

#[test]
fn files_test_find_files() {
    // A probed plain file is kept by name
    let probes = vec![PathProbe::FilePath { path: "./tests/inputs/fox.txt".to_string() }];
    let files = find_files(&probes, false);
    assert_eq!(files.len(), 1);
    match &files[0] {
        FileResult::Named(p) => assert_eq!(p, "./tests/inputs/fox.txt"),
        FileResult::Failed(_) => panic!("expected the file to be kept"),
    }

    // A directory is rejected without the recursive option
    let probes = vec![PathProbe::Directory {
        path: "./tests/inputs".to_string(),
        entries: vec![],
    }];
    let files = find_files(&probes, false);
    assert_eq!(files.len(), 1);
    match &files[0] {
        FileResult::Failed(e) => assert_eq!(e, "./tests/inputs is a directory"),
        FileResult::Named(_) => panic!("expected an error"),
    }

    // With the recursive option the walked files come out, in order
    let probes = vec![PathProbe::Directory {
        path: "./tests/inputs".to_string(),
        entries: vec![
            WalkEntry::Found("./tests/inputs/bustle.txt".to_string()),
            WalkEntry::Found("./tests/inputs/empty.txt".to_string()),
            WalkEntry::Found("./tests/inputs/fox.txt".to_string()),
            WalkEntry::Found("./tests/inputs/nobody.txt".to_string()),
        ],
    }];
    let files = find_files(&probes, true);
    assert_eq!(files.len(), 4);
    let names: Vec<&str> = files
        .iter()
        .map(|f| match f {
            FileResult::Named(p) => p.as_str(),
            FileResult::Failed(_) => panic!("expected files only"),
        })
        .collect();
    assert_eq!(
        names,
        vec![
            "./tests/inputs/bustle.txt",
            "./tests/inputs/empty.txt",
            "./tests/inputs/fox.txt",
            "./tests/inputs/nobody.txt",
        ]
    );

    // A path that cannot be probed comes back as an error
    let probes = vec![PathProbe::Missing {
        path: "h7FmQzX".to_string(),
        error: "No such file or directory (os error 2)".to_string(),
    }];
    let files = find_files(&probes, false);
    assert_eq!(files.len(), 1);
    assert!(matches!(&files[0], FileResult::Failed(_)));
}

#[test]
fn find_files_passes_dash_through() {
    let probes = vec![PathProbe::Missing {
        path: "-".to_string(),
        error: "not probed".to_string(),
    }];
    let files = find_files(&probes, false);
    assert_eq!(files.len(), 1);
    match &files[0] {
        FileResult::Named(p) => assert_eq!(p, "-"),
        FileResult::Failed(_) => panic!("stdin must pass through"),
    }
}

#[test]
fn find_files_reports_walk_failures_and_goes_on() {
    let probes = vec![
        PathProbe::Directory {
            path: "d".to_string(),
            entries: vec![
                WalkEntry::Found("d/a.txt".to_string()),
                WalkEntry::Failed("Permission denied (os error 13)".to_string()),
            ],
        },
        PathProbe::FilePath { path: "b.txt".to_string() },
    ];
    let files = find_files(&probes, true);
    assert_eq!(files.len(), 3);
    assert!(matches!(&files[0], FileResult::Named(p) if p == "d/a.txt"));
    match &files[1] {
        FileResult::Failed(e) => assert_eq!(e, "d: Permission denied (os error 13)"),
        FileResult::Named(_) => panic!("expected the walk failure"),
    }
    assert!(matches!(&files[2], FileResult::Named(p) if p == "b.txt"));
}
