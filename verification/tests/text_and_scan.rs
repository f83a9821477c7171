use file_scanner::text::{is_binary, str_eq, bytes_sub, string_from_bytes, str_occurs, split_char, split_lines, chop_trailing_cr};
use file_scanner::scan::{
    strip_leading_dots, ext_allowed, parse_extensions, DeadlineFlag, ScanAggregator,
    validate_scan_request, ScanRequestError, SCAN_FILE_SIZE_LIMIT, SEARCH_FILE_SIZE_LIMIT,
};
use file_scanner::structs::{FileContext, FunctionInfo};

#[test]
fn binary_sniffing_finds_null_bytes() {
    assert!(is_binary(&vec![1u8, 0u8, 2u8]));
    assert!(!is_binary(&vec![1u8, 2u8, 3u8]));
    assert!(!is_binary(&Vec::new()));
}

#[test]
fn string_equality_by_bytes() {
    assert!(str_eq("abc", "abc"));
    assert!(!str_eq("abc", "abd"));
    assert!(!str_eq("abc", "ab"));
    assert!(str_eq("", ""));
}

#[test]
fn byte_subranges_and_utf8() {
    let v = vec![104u8, 105u8, 33u8];
    assert_eq!(bytes_sub(&v, 0, 2), vec![104u8, 105u8]);
    assert_eq!(string_from_bytes(&vec![104u8, 105u8]), Some(String::from("hi")));
    assert_eq!(string_from_bytes(&vec![0xffu8, 0xfeu8]), None);
}

#[test]
fn substring_scan() {
    assert!(str_occurs("hello world", "o w"));
    assert!(str_occurs("hello", ""));
    assert!(!str_occurs("hello", "world"));
    assert!(!str_occurs("ab", "abc"));
}

#[test]
fn splitting_on_separators() {
    let f = split_char("a,b,,c", ',');
    assert_eq!(f, vec!["a".to_string(), "b".to_string(), "".to_string(), "c".to_string()]);
    assert_eq!(split_char("", ','), vec!["".to_string()]);
}

#[test]
fn line_splitting_matches_line_reading() {
    assert_eq!(split_lines("a\nb"), vec!["a".to_string(), "b".to_string()]);
    assert_eq!(split_lines("a\nb\n"), vec!["a".to_string(), "b".to_string()]);
    assert_eq!(split_lines("a\r\nb\r\n"), vec!["a".to_string(), "b".to_string()]);
    assert_eq!(split_lines(""), Vec::<String>::new());
    assert_eq!(split_lines("\n"), vec!["".to_string()]);
    assert_eq!(chop_trailing_cr("x\r"), "x");
    assert_eq!(chop_trailing_cr("x"), "x");
}

#[test]
fn extension_lists_tolerate_leading_dots() {
    assert_eq!(strip_leading_dots(".rs"), "rs");
    assert_eq!(strip_leading_dots("rs"), "rs");
    assert_eq!(strip_leading_dots("..rs"), "rs");
    let exts = vec![".rs".to_string(), "py".to_string()];
    assert!(ext_allowed("rs", &exts));
    assert!(ext_allowed("py", &exts));
    assert!(!ext_allowed("ts", &exts));
    // membership of the extension itself, not a suffix of the path text:
    // an extension such as "cpp_rs" is not in the list ["rs", "py"]
    assert!(!ext_allowed("cpp_rs", &exts));
}

#[test]
fn extension_csv_parsing() {
    assert_eq!(
        parse_extensions(" rs , py ,, "),
        vec!["rs".to_string(), "py".to_string()]
    );
    assert_eq!(parse_extensions(""), Vec::<String>::new());
    assert_eq!(parse_extensions(",,,"), Vec::<String>::new());
}

#[test]
fn deadline_flag_fires_once_and_stays_fired() {
    let mut flag = DeadlineFlag::new();
    assert!(!flag.fired);
    let (quit, tripped) = flag.observe(5, 10);
    assert!(!quit && !tripped);
    let (quit, tripped) = flag.observe(11, 10);
    assert!(quit && tripped);
    let (quit, tripped) = flag.observe(12, 10);
    assert!(quit && !tripped);
    // the flag never resets, even when a later observation is in budget
    let (quit, tripped) = flag.observe(1, 10);
    assert!(quit && !tripped);
}

#[test]
fn scan_aggregation() {
    let mut agg = ScanAggregator::new(true);
    agg.note_file();
    agg.note_file();
    agg.add_context(FileContext {
        path: "a.rs".to_string(),
        functions: vec![FunctionInfo { name: "f".to_string(), body: None, comment: None }],
    });
    agg.log("processed".to_string());
    agg.mark_timed_out();
    let result = agg.finish();
    assert_eq!(result.files_processed_before_timeout, 2);
    assert_eq!(result.file_contexts.len(), 1);
    assert!(result.timed_out_internally);
    assert_eq!(result.debug_log, Some(vec!["processed".to_string()]));
}

#[test]
fn scan_request_validation() {
    let exts = vec!["rs".to_string()];
    let none: Vec<String> = Vec::new();
    assert!(matches!(
        validate_scan_request("root", &exts, 0),
        Some(ScanRequestError::ZeroTimeout)
    ));
    assert!(matches!(
        validate_scan_request("", &exts, 100),
        Some(ScanRequestError::EmptyRoot)
    ));
    assert!(matches!(
        validate_scan_request("root", &none, 100),
        Some(ScanRequestError::NoExtensions)
    ));
    assert!(validate_scan_request("root", &exts, 100).is_none());
}

#[test]
fn size_limits() {
    assert_eq!(SCAN_FILE_SIZE_LIMIT, 1_000_000);
    assert_eq!(SEARCH_FILE_SIZE_LIMIT, 5_000_000);
}
