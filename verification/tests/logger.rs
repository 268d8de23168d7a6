use bee_tangle::logger::{accepts_target, contains_any, sink_of, Error, Sink, LOGGER_STDOUT_NAME};

#[test]
fn the_output_named_stdout_writes_to_the_standard_output() {
    assert_eq!(LOGGER_STDOUT_NAME, "stdout");
    assert_eq!(sink_of("stdout"), Sink::Stdout);
    assert_eq!(sink_of("Stdout"), Sink::File);
    assert_eq!(sink_of("stdout.log"), Sink::File);
    assert_eq!(sink_of(""), Sink::File);
}

#[test]
fn an_output_takes_the_targets_that_its_filters_name() {
    let none: Vec<String> = vec![];
    let filters = vec!["tangle".to_string(), "storage".to_string()];
    let exclusions = vec!["cleaner".to_string()];

    assert!(accepts_target("anything", &none, &none));
    assert!(accepts_target("bee_tangle::worker", &filters, &none));
    // The target is compared in lowercase; the filters are taken as they are.
    assert!(accepts_target("BEE_TANGLE::Worker", &filters, &none));
    assert!(!accepts_target("bee_tangle", &vec!["Tangle".to_string()], &none));
    assert!(!accepts_target("bee_network", &filters, &none));

    assert!(accepts_target("bee_tangle::worker", &filters, &exclusions));
    assert!(!accepts_target("bee_tangle::Cleaner", &filters, &exclusions));
    assert!(!accepts_target("bee_tangle::cleaner", &none, &exclusions));
    assert!(accepts_target("bee_network", &none, &exclusions));

    assert!(contains_any("abc", &vec!["x".to_string(), "bc".to_string()]));
    assert!(contains_any("abc", &vec!["".to_string()]));
    assert!(!contains_any("abc", &vec!["cb".to_string(), "abcd".to_string()]));
    assert!(!contains_any("abc", &none));
}

#[test]
fn the_errors_of_the_logger_read_as_sentences() {
    assert_eq!(Error::CreatingFileFailed.message(), "Creating output file failed.");
    assert_eq!(Error::InitializationFailed.message(), "Initializing the logger backend failed.");
}
