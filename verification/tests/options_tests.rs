use run_uproc::config::ReadLength;
use run_uproc::error::{ConfigFault, PipelineError};
use run_uproc::options::{
    configure, is_space_char, parse_threshold, parse_unsigned, trim, RawOptions,
};

fn raw() -> RawOptions {
    RawOptions {
        query: vec!["/in".to_string()],
        read_length: Some("long".to_string()),
        pthresh: Some("3".to_string()),
        othresh: Some("2".to_string()),
        uproc_db_dir: Some("/dbs".to_string()),
        uproc_model_dir: Some("/model".to_string()),
        out_dir: None,
        annotation_dir: Some("/annot".to_string()),
        num_concurrent_jobs: Some("8".to_string()),
        num_halt: Some("0".to_string()),
    }
}

#[test]
fn white_space_is_what_the_standard_library_calls_so() {
    let mut code: u32 = 0;
    while code <= 0x10FFFF {
        if let Some(c) = char::from_u32(code) {
            assert_eq!(is_space_char(c), c.is_whitespace(), "U+{:04X}", code);
        }
        code += 1;
    }
}

#[test]
fn trim_sets_white_space_at_both_ends_aside() {
    assert_eq!(trim("  a b \t\n"), "a b");
    assert_eq!(trim(""), "");
    assert_eq!(trim(" \u{3000}\u{a0}"), "");
    assert_eq!(trim("x"), "x");
    assert_eq!(trim("\u{2003}é \u{85}"), "é");
}

#[test]
fn numbers_are_read_as_the_standard_library_reads_them() {
    let samples = [
        "0", "3", " 3 ", "+7", "++7", "+", "", " ", "-1", "-0", "007", "4294967295", "4294967296",
        "99999999999999999999999", "12a", "a12", "1 2", "\t42\n", "\u{3000}5\u{a0}", "٣", "1_000",
        "0x10", "+0", "1.0", "١٢",
    ];
    for s in samples {
        assert_eq!(parse_threshold(s), s.trim().parse::<u32>().ok(), "{:?}", s);
        assert_eq!(parse_unsigned(s), s.parse::<u32>().ok(), "{:?}", s);
    }
    assert_eq!(parse_threshold(" 12 "), Some(12));
    assert_eq!(parse_threshold("4294967295"), Some(4294967295));
    assert_eq!(parse_threshold("4294967296"), None);
    assert_eq!(parse_unsigned(" 12"), None);
}

#[test]
fn configure_reads_every_option() {
    let cfg = configure(raw(), "/work").unwrap();
    assert_eq!(cfg.query, vec!["/in".to_string()]);
    assert_eq!(cfg.othresh, Some(2));
    assert_eq!(cfg.pthresh, Some(3));
    assert_eq!(cfg.read_length, ReadLength::LongReads);
    assert_eq!(cfg.uproc_db_dir, "/dbs");
    assert_eq!(cfg.uproc_model_dir, "/model");
    assert_eq!(cfg.annotation_dir, "/annot");
    assert_eq!(cfg.out_dir, "/work/uproc-out");
    assert_eq!(cfg.num_concurrent_jobs, Some(8));
    assert_eq!(cfg.num_halt, Some(0));
}

#[test]
fn configure_takes_the_named_output_directory() {
    let mut options = raw();
    options.out_dir = Some("results".to_string());
    options.read_length = Some("short".to_string());
    let cfg = configure(options, "/work").unwrap();
    assert_eq!(cfg.out_dir, "results");
    assert_eq!(cfg.read_length, ReadLength::ShortReads);
}

#[test]
fn unreadable_numbers_count_as_absent() {
    let mut options = raw();
    options.pthresh = Some("three".to_string());
    options.othresh = None;
    options.num_halt = Some("-1".to_string());
    options.read_length = Some("Short".to_string());
    let cfg = configure(options, "/work").unwrap();
    assert_eq!(cfg.pthresh, None);
    assert_eq!(cfg.othresh, None);
    assert_eq!(cfg.num_halt, None);
    assert_eq!(cfg.halt_threshold(), 1);
    assert_eq!(cfg.read_length, ReadLength::LongReads);
}

#[test]
fn missing_directories_are_reported_in_order() {
    let mut options = raw();
    options.uproc_db_dir = None;
    options.uproc_model_dir = None;
    assert!(matches!(
        configure(options, "/work"),
        Err(PipelineError::Configuration(ConfigFault::MissingDbDir))
    ));
    let mut options = raw();
    options.uproc_model_dir = None;
    options.annotation_dir = None;
    assert!(matches!(
        configure(options, "/work"),
        Err(PipelineError::Configuration(ConfigFault::MissingModelDir))
    ));
    let mut options = raw();
    options.annotation_dir = None;
    assert!(matches!(
        configure(options, "/work"),
        Err(PipelineError::Configuration(ConfigFault::MissingAnnotationDir))
    ));
}

#[test]
fn errors_are_reported_in_words() {
    assert_eq!(PipelineError::NoInput.message(), "No input files");
    assert_eq!(
        PipelineError::Configuration(ConfigFault::MissingDbDir).message(),
        "Must have --uproc_db_dir"
    );
    assert_eq!(
        PipelineError::Configuration(ConfigFault::MissingModelDir).message(),
        "Must have --uproc_model_dir"
    );
    assert_eq!(
        PipelineError::Configuration(ConfigFault::MissingAnnotationDir).message(),
        "Must have --annotation_dir"
    );
    assert_eq!(
        PipelineError::Configuration(ConfigFault::NoDatabases).message(),
        "No reference databases found"
    );
    assert_eq!(PipelineError::RunHalted(12).message(), "Run halted, failed jobs: 12");
    assert_eq!(
        PipelineError::UnrecognizedArtifact("/out/x.counts".to_string()).message(),
        "Unexpected file: /out/x.counts"
    );
    assert_eq!(PipelineError::MalformedTable.message(), "Malformed annotation table");
}
