use cliutils::fortunes::pick_random_adage;
use cliutils::fortunes::read_fortunes;
use cliutils::fortunes::Adage;
use cliutils::fortunes::FortuneFile;

const JOKES: &str = "Q. What do you call a head of lettuce in a shirt and tie?\n\
                     A. Collared greens.\n\
                     %\n\
                     Why did the scarecrow win an award?\n\
                     He was outstanding in his field.\n\
                     %\n\
                     What do you call cheese that is not yours?\n\
                     Nacho cheese.\n\
                     %\n\
                     Why do not scientists trust atoms?\n\
                     They make up everything.\n\
                     %\n\
                     What do you call a fake noodle?\n\
                     An impasta.\n\
                     %\n\
                     Q: What do you call a deer wearing an eye patch?\n\
                     A: A bad idea (bad-eye deer).\n\
                     %\n";

const QUOTES: &str = "You can observe a lot just by watching.\n\
                      %\n\
                      A day without sunshine is like, you know, night.\n\
                      %\n\
                      The future ain't what it used to be.\n\
                      %\n\
                      It is tough to make predictions, especially about the future.\n\
                      %\n\
                      When you come to a fork in the road, take it.\n\
                      %\n";

fn jokes_file() -> FortuneFile {
    FortuneFile { name: Some("jokes".to_string()), data: JOKES.as_bytes().to_vec() }
}

fn quotes_file() -> FortuneFile {
    FortuneFile { name: Some("quotes".to_string()), data: QUOTES.as_bytes().to_vec() }
}

#[test]
fn fortunes_test_find_files() {} // Same as before

#[test]
fn fortunes_test_read_fortunes() {
    // One input file
    let input = vec![jokes_file()];
    let adages = read_fortunes(&input);

    // Correct number and sorting
    assert_eq!(adages.len(), 6);
    assert_eq!(
        adages.first().unwrap().text,
        "Q. What do you call a head of lettuce in a shirt and tie?\n\
        A. Collared greens."
    );
    assert_eq!(
        adages.last().unwrap().text,
        "Q: What do you call a deer wearing an eye patch?\n\
        A: A bad idea (bad-eye deer)."
    );

    // Multiple input files
    let input = vec![jokes_file(), quotes_file()];
    let adages = read_fortunes(&input);
    assert_eq!(adages.len(), 11);
}

#[test]
fn main_test_find_files() {} // Same as before

#[test]
fn main_test_read_fortunes() {} // Same as before

#[test]
fn test_pick_fortune() {
    // Create a slice of fortunes
    let fortunes = vec![
        Adage {
            source: Some("fortunes".to_string()),
            text: "You cannot achieve the impossible without \
                  attempting the absurd."
                .to_string(),
        },
        Adage {
            source: Some("fortunes".to_string()),
            text: "Assumption is the mother of all screw-ups.".to_string(),
        },
        Adage {
            source: Some("fortunes".to_string()),
            text: "Neckties strangle clear thinking.".to_string(),
        },
    ];

    // Pick a fortune with a seed
    assert_eq!(
        pick_random_adage(&fortunes, Some(1)).unwrap().text,
        "Neckties strangle clear thinking.".to_string()
    );
}

#[test]
fn pick_from_empty_is_none() {
    let fortunes: Vec<Adage> = vec![];
    assert!(pick_random_adage(&fortunes, Some(1)).is_none());
    assert!(pick_random_adage(&fortunes, None).is_none());
}

#[test]
fn pick_unseeded_is_some_member() {
    let fortunes = vec![
        Adage { source: None, text: "first".to_string() },
        Adage { source: None, text: "second".to_string() },
    ];
    let picked = pick_random_adage(&fortunes, None).unwrap();
    assert!(picked.text == "first" || picked.text == "second");
}

#[test]
fn read_fortunes_skips_empty_blocks_and_trims() {
    let file = FortuneFile {
        name: Some("f".to_string()),
        data: b"  padded  \n%\n%\n\n%\nlast\n%\n".to_vec(),
    };
    let adages = read_fortunes(&vec![file]);
    assert_eq!(adages.len(), 2);
    assert_eq!(adages[0].text, "padded");
    assert_eq!(adages[0].source.as_deref(), Some("f"));
    assert_eq!(adages[1].text, "last");
}

#[test]
fn read_fortunes_without_trailing_terminator() {
    // the final unterminated block loses its last byte too
    let file = FortuneFile { name: None, data: b"one\n%\ntwo!".to_vec() };
    let adages = read_fortunes(&vec![file]);
    assert_eq!(adages.len(), 2);
    assert_eq!(adages[0].text, "one");
    assert_eq!(adages[1].text, "two");
    assert_eq!(adages[1].source, None);
}
