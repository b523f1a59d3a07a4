use ccwc::{missing_file_message, CCWCFileReader, Counts, FileRecord, Flags};

fn args(v: &[&str]) -> Vec<String> {
    v.iter().map(|s| s.to_string()).collect()
}

fn start(v: &[&str]) -> (CCWCFileReader, Vec<String>) {
    match CCWCFileReader::new(args(v)) {
        Ok(p) => p,
        Err(m) => panic!("unexpected usage error: {}", m),
    }
}

#[test]
fn single_file_default_columns() {
    let (mut r, files) = start(&["a.txt"]);
    assert_eq!(files, args(&["a.txt"]));
    assert!(r.process_file("a.txt".to_string(), b"hello world\n"));
    assert_eq!(r.report(), "       1        2       12 a.txt\n");
}

#[test]
fn two_files_with_total_row() {
    let (mut r, _) = start(&["one", "two"]);
    assert!(r.process_file("one".to_string(), b"1\n2\n"));
    assert!(r.process_file("two".to_string(), b"3\n"));
    assert_eq!(
        r.report(),
        "       2        2        4 one\n       1        1        2 two\n       3        3        6 total\n"
    );
}

#[test]
fn lines_option_shows_only_lines() {
    let (mut r, _) = start(&["-l", "f"]);
    assert!(r.process_file("f".to_string(), b"a\nb\nc\nd\ne\n"));
    assert_eq!(r.report(), "       5 f\n");
}

#[test]
fn illegal_option_is_a_usage_error() {
    let r = CCWCFileReader::new(args(&["-z", "a.txt"]));
    assert_eq!(
        r.err(),
        Some("ccwc: illegal option -- z\nusage: ccwc [-clmw] [file ...]".to_string())
    );
}

#[test]
fn first_illegal_character_is_reported() {
    let r = CCWCFileReader::new(args(&["-l", "-wxq", "-y"]));
    assert_eq!(
        r.err(),
        Some("ccwc: illegal option -- x\nusage: ccwc [-clmw] [file ...]".to_string())
    );
}

#[test]
fn missing_file_notice_and_no_rows() {
    assert_eq!(
        missing_file_message("missing.txt"),
        "ccwc: missing.txt: open: No such file or directory"
    );
    let (r, files) = start(&["missing.txt"]);
    assert_eq!(files.len(), 1);
    assert_eq!(r.report(), "");
}

#[test]
fn bundled_options_keep_the_fixed_order() {
    let (mut r, _) = start(&["-lc", "f"]);
    assert!(r.flags.lines && r.flags.bytes && !r.flags.words && !r.flags.chars);
    assert!(r.process_file("f".to_string(), b"hello world\n"));
    assert_eq!(r.report(), "       1       12 f\n");
}

#[test]
fn chars_column_only_when_asked() {
    let (mut r, _) = start(&["-m", "f"]);
    assert!(r.process_file("f".to_string(), "h\u{e9}\n".as_bytes()));
    assert_eq!(r.report(), "       3 f\n");
    let (mut all, _) = start(&["-c", "-m", "-wl", "g"]);
    assert!(all.process_file("g".to_string(), "h\u{e9}\n".as_bytes()));
    assert_eq!(all.report(), "       1        1        4        3 g\n");
}

#[test]
fn options_stop_at_first_file() {
    let (options, files) = CCWCFileReader::parse_args(args(&["-l", "-w", "a", "-c", "b"]));
    assert_eq!(options, args(&["-l", "-w"]));
    assert_eq!(files, args(&["a", "-c", "b"]));
    let (r, files) = start(&["-l", "a", "-c"]);
    assert!(r.flags.lines && !r.flags.bytes);
    assert_eq!(files, args(&["a", "-c"]));
}

#[test]
fn empty_arguments_give_nothing() {
    let (options, files) = CCWCFileReader::parse_args(Vec::new());
    assert!(options.is_empty() && files.is_empty());
    let (r, files) = start(&[]);
    assert!(files.is_empty());
    assert_eq!(r.report(), "");
}

#[test]
fn lone_dash_sets_nothing() {
    let mut r = CCWCFileReader::with_flags(Flags::none());
    assert_eq!(CCWCFileReader::validate_option("-".to_string(), &mut r), Ok(()));
    assert_eq!(r.flags, Flags::none());
}

#[test]
fn validate_option_sets_letters_before_failing() {
    let mut r = CCWCFileReader::with_flags(Flags::none());
    let e = CCWCFileReader::validate_option("-lwz".to_string(), &mut r);
    assert_eq!(e, Err("ccwc: illegal option -- z\nusage: ccwc [-clmw] [file ...]".to_string()));
    assert!(r.flags.lines && r.flags.words && !r.flags.bytes && !r.flags.chars);
    let mut again = CCWCFileReader::with_flags(Flags::none());
    assert_eq!(CCWCFileReader::validate_option("-cc".to_string(), &mut again), Ok(()));
    assert!(again.flags.bytes);
}

#[test]
fn totals_are_sums_over_counted_files() {
    let (mut r, _) = start(&["x", "y", "z"]);
    let contents: [&[u8]; 3] = [b"alpha beta\n", "\u{e9}t\u{e9}\n\n".as_bytes(), b""];
    for (i, c) in contents.iter().enumerate() {
        assert!(r.process_file(format!("f{}", i), c));
    }
    assert_eq!(r.files.len(), 3);
    assert_eq!(r.total_bytes, r.files.iter().map(|f| f.counts.bytes).sum::<usize>());
    assert_eq!(r.total_chars, r.files.iter().map(|f| f.counts.chars).sum::<usize>());
    assert_eq!(r.total_words, r.files.iter().map(|f| f.counts.words).sum::<usize>());
    assert_eq!(r.total_lines, r.files.iter().map(|f| f.counts.lines).sum::<usize>());
    assert_eq!((r.total_bytes, r.total_chars, r.total_words, r.total_lines), (18, 16, 3, 3));
}

#[test]
fn wide_numbers_widen_the_field() {
    let (r, _) = start(&["-c", "-l", "big"]);
    let counts = Counts { bytes: 123_456_789, chars: 1, words: 1, lines: 12_345_678 };
    let wide = CCWCFileReader {
        files: vec![FileRecord { name: "big".to_string(), counts }],
        flags: r.flags,
        total_bytes: 123_456_789,
        total_chars: 1,
        total_words: 1,
        total_lines: 12_345_678,
    };
    assert_eq!(wide.report(), "12345678 123456789 big\n");
}

#[test]
fn over_full_totals_leave_the_session_unchanged() {
    let (mut r, _) = start(&["f"]);
    r.total_bytes = usize::MAX;
    assert!(!r.process_file("f".to_string(), b"x"));
    assert!(r.files.is_empty());
}
