use workingcopy::logger::TermLogger;

fn get_stdout(logger: &TermLogger) -> String {
    logger.output_text().clone()
}

fn get_stderr(logger: &TermLogger) -> String {
    logger.error_text().clone()
}

#[test]
fn test_quiet() {
    let mut logger = TermLogger::new().with_quiet(true);
    logger.info("hello");
    logger.warn("error");
    assert_eq!(get_stdout(&logger), "");
    assert_eq!(get_stderr(&logger), "error\n");
}

#[test]
fn test_default() {
    let mut logger = TermLogger::new();
    logger.info("status");
    logger.verbose("verbose");
    logger.warn("warn");
    assert_eq!(get_stdout(&logger), "status\n");
    assert_eq!(get_stderr(&logger), "warn\n");
}

#[test]
fn test_verbose() {
    let mut logger = TermLogger::new();
    logger.verbose(|| -> String {
        panic!("don't call me!");
    });
    assert_eq!(get_stdout(&logger), "");

    let mut logger = logger.with_verbose(true);
    logger.verbose(|| "okay".to_string());
    assert_eq!(get_stdout(&logger), "okay\n");
}

#[test]
fn test_info_keeps_trailing_newline() {
    let mut logger = TermLogger::new();
    logger.info("line\n");
    assert_eq!(get_stdout(&logger), "line\n");
}

#[test]
fn test_cli_name() {
    let logger = TermLogger::new();
    assert_eq!(logger.cli_name(), "hg");
}

#[test]
fn test_flush_changes_nothing() {
    let mut logger = TermLogger::new();
    logger.warn("oops");
    logger.flush();
    assert_eq!(get_stderr(&logger), "oops\n");
}
