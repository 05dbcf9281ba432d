use linegrep::matcher::{
    collect_matches, match_lines, search_file, search_text, Match, SearchError,
};
use regex::Regex;
use std::path::{Path, PathBuf};

fn record(line_num: usize, line: &str, regex: &str, file_name: &str) -> Match {
    Match {
        line_num,
        line: line.to_string(),
        regex: regex.to_string(),
        file_name: PathBuf::from(file_name),
    }
}

fn greeting_file() -> Vec<u8> {
    let text = "Every morning I walk to work\n\
                The street is quiet at that hour\n\
                Some people are already out\n\
                A few of them know me\n\
                I wave to others to say Hello\n\
                It costs nothing\n\
                They say Hello back\n\
                Then the day begins\n";
    text.as_bytes().to_vec()
}

#[test]
fn find_in_exist_file() {
    let path = Path::new("test_data/test.txt");
    let regex = Regex::new("Hello").unwrap();
    let matches = search_file(&path.to_path_buf(), &regex, Ok(greeting_file())).unwrap();
    let correct_ans = vec![
        Match {
            line_num: 4,
            line: "I wave to others to say Hello".to_string(),
            regex: regex.to_string(),
            file_name: path.to_path_buf(),
        },
        Match {
            line_num: 6,
            line: "They say Hello back".to_string(),
            regex: regex.to_string(),
            file_name: path.to_path_buf(),
        },
    ];
    assert_eq!(correct_ans.iter().eq(matches.iter()), true);
}

#[test]
fn find_non_exist_file() {
    let path = Path::new("test_data/non_existed.txt");
    let regex = Regex::new("Hello").unwrap();
    let read = Err("No such file or directory (os error 2)".to_string());
    match search_file(&path.to_path_buf(), &regex, read) {
        Err(e) => assert_eq!(e.message(), "No such file or directory (os error 2)".to_string()),
        Ok(found) => panic!("a failed read gave records: {:?}", found),
    }
}

#[test]
fn matching_lines_are_reported_in_order() {
    let regex = Regex::new("foo").unwrap();
    let content = b"no match\nfoo bar\nbaz\nanother foo line".to_vec();
    let found = search_file(&PathBuf::from("notes.txt"), &regex, Ok(content)).unwrap();
    assert_eq!(
        found,
        vec![
            record(1, "foo bar", "foo", "notes.txt"),
            record(3, "another foo line", "foo", "notes.txt"),
        ]
    );
}

#[test]
fn line_numbers_stay_below_the_line_count() {
    let regex = Regex::new(".").unwrap();
    for content in ["a\nb\nc\n", "a\nb\nc"] {
        let found = search_file(&PathBuf::from("f"), &regex, Ok(content.as_bytes().to_vec())).unwrap();
        let numbers: Vec<usize> = found.iter().map(|m| m.line_num).collect();
        assert_eq!(numbers, vec![0, 1, 2]);
    }
}

#[test]
fn empty_lines_match_an_empty_pattern() {
    let regex = Regex::new("^$").unwrap();
    let found = search_file(&PathBuf::from("f"), &regex, Ok(b"\nx\n\r\n".to_vec())).unwrap();
    assert_eq!(found, vec![record(0, "", "^$", "f"), record(2, "", "^$", "f")]);
}

#[test]
fn no_matching_line_is_success_with_no_record() {
    let regex = Regex::new("absent").unwrap();
    let found = search_file(&PathBuf::from("f.txt"), &regex, Ok(greeting_file()));
    assert_eq!(found, Ok(Vec::new()));
}

#[test]
fn empty_file_is_success_with_no_record() {
    let regex = Regex::new("").unwrap();
    assert_eq!(search_file(&PathBuf::from("f.txt"), &regex, Ok(Vec::new())), Ok(Vec::new()));
}

#[test]
fn bytes_that_are_not_text_give_no_partial_result() {
    let regex = Regex::new("foo").unwrap();
    let mut content = b"foo first\n".to_vec();
    content.extend_from_slice(&[0xff, 0xfe, b'\n']);
    content.extend_from_slice(b"foo last\n");
    assert_eq!(search_file(&PathBuf::from("bin"), &regex, Ok(content)), Err(SearchError::InvalidText));
}

#[test]
fn read_failure_is_passed_on() {
    let regex = Regex::new("foo").unwrap();
    let found = search_file(&PathBuf::from("locked"), &regex, Err("Permission denied (os error 13)".to_string()));
    assert_eq!(found, Err(SearchError::Io("Permission denied (os error 13)".to_string())));
}

#[test]
fn error_messages() {
    assert_eq!(SearchError::Io("gone".to_string()).message(), "gone");
    assert_eq!(SearchError::InvalidText.message(), "file is not valid UTF-8 text");
}

#[test]
fn multibyte_text_is_decoded_before_matching() {
    let regex = Regex::new("^.{5}$").unwrap();
    let content = "héllo\nhello!\n日本語です\r\n".as_bytes().to_vec();
    let found = search_file(&PathBuf::from("u"), &regex, Ok(content)).unwrap();
    assert_eq!(
        found,
        vec![record(0, "héllo", "^.{5}$", "u"), record(2, "日本語です", "^.{5}$", "u")]
    );
}

#[test]
fn record_holds_the_pattern_text_not_the_line() {
    let regex = Regex::new(r"b+\d").unwrap();
    let found = search_text(&PathBuf::from("p"), &regex, "abb7\nb\n");
    assert_eq!(found, vec![record(0, "abb7", r"b+\d", "p")]);
}

#[test]
fn a_match_anywhere_in_the_line_counts() {
    let regex = Regex::new("needle").unwrap();
    let found = search_text(&PathBuf::from("hay"), &regex, "xxneedlexx\nneedl e\n^needle$");
    let numbers: Vec<usize> = found.iter().map(|m| m.line_num).collect();
    assert_eq!(numbers, vec![0, 2]);
}

#[test]
fn the_expression_decides_anchoring() {
    let regex = Regex::new("^foo$").unwrap();
    let found = search_text(&PathBuf::from("a"), &regex, "foo\nfoo bar\n foo\nfoo\r\n");
    let numbers: Vec<usize> = found.iter().map(|m| m.line_num).collect();
    assert_eq!(numbers, vec![0, 3]);
}

#[test]
fn match_lines_answers_for_every_line() {
    let regex = Regex::new("a").unwrap();
    let lines = vec!["abc".to_string(), "xyz".to_string(), "".to_string(), "bca".to_string()];
    assert_eq!(match_lines(&regex, &lines), vec![true, false, false, true]);
    assert_eq!(match_lines(&regex, &Vec::new()), Vec::<bool>::new());
}

#[test]
fn collect_matches_takes_the_marked_lines() {
    let lines = vec!["zero".to_string(), "one".to_string(), "two".to_string()];
    let found = collect_matches(&PathBuf::from("dir/f"), "pat", &lines, &vec![true, false, true]);
    assert_eq!(found, vec![record(0, "zero", "pat", "dir/f"), record(2, "two", "pat", "dir/f")]);
    assert_eq!(collect_matches(&PathBuf::from("dir/f"), "pat", &lines, &vec![false, false, false]), vec![]);
}

#[test]
fn collect_matches_counts_missing_answers_as_no_match() {
    let lines = vec!["zero".to_string(), "one".to_string(), "two".to_string()];
    let found = collect_matches(&PathBuf::from("f"), "p", &lines, &vec![false, true]);
    assert_eq!(found, vec![record(1, "one", "p", "f")]);
    assert_eq!(collect_matches(&PathBuf::from("f"), "p", &lines, &vec![]), vec![]);
    let found = collect_matches(&PathBuf::from("f"), "p", &lines, &vec![true, true, true, true, true]);
    assert_eq!(found.len(), 3);
}

#[test]
fn searching_twice_gives_the_same_records() {
    let regex = Regex::new("Hello").unwrap();
    let first = search_file(&PathBuf::from("f"), &regex, Ok(greeting_file()));
    let second = search_file(&PathBuf::from("f"), &regex, Ok(greeting_file()));
    assert_eq!(first, second);
    assert_eq!(first.unwrap().len(), 2);
}
