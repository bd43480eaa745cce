use cad_core::logger::{escape_json, Delivery, Format, Logger, ProductChange, ProductInfo, Severity};

#[test]
fn messages_below_verbosity_are_dropped() {
    let mut l = Logger::new();
    assert!(matches!(l.message(Severity::Debug, "hidden", None, "t0"), Delivery::Filtered));
    assert_eq!(l.get_log(), "");
    assert_eq!(l.max_severity(), Severity::Notice);
}

#[test]
fn plain_messages_go_to_the_log() {
    let mut l = Logger::new();
    l.set_verbosity(Severity::Debug);
    assert!(matches!(l.message(Severity::Warning, "careful", None, "12:00:00"), Delivery::Buffered));
    assert_eq!(l.get_log(), "[Warning] [12:00:00] careful\n");
    assert_eq!(l.max_severity(), Severity::Warning);
    let p = ProductInfo { global_id: Some("2O2Fr$t4X7Zf8NOew3FLOH".to_string()), text: "#9=IFCWALL()".to_string() };
    assert!(matches!(l.set_product(Some(p), "t"), ProductChange::Announced(Delivery::Buffered)));
    l.message(Severity::Debug, "x", Some("#1=IFCWALL()"), "t");
    assert_eq!(
        l.get_log(),
        "[Warning] [12:00:00] careful\n[Debug] [t] {2O2Fr$t4X7Zf8NOew3FLOH} Begin processing\n#9=IFCWALL()\n[Debug] [t] {2O2Fr$t4X7Zf8NOew3FLOH} x\n#1=IFCWALL()\n"
    );
    assert_eq!(l.max_severity(), Severity::Warning);
    assert_eq!(l.product().map(|s| s.as_str()), Some("2O2Fr$t4X7Zf8NOew3FLOH"));
}

#[test]
fn clearing_the_product() {
    let mut l = Logger::new();
    let p = ProductInfo { global_id: None, text: "#1=X()".to_string() };
    assert!(matches!(l.set_product(Some(p), "t"), ProductChange::Quiet));
    assert_eq!(l.get_log(), "");
    assert!(l.product().is_none());
    l.set_print_perf_stats_on_element(true);
    assert!(matches!(l.set_product(None, "t"), ProductChange::PrintPerfStats));
    l.set_print_perf_stats_on_element(false);
    assert!(matches!(l.set_product(None, "t"), ProductChange::Quiet));
}

#[test]
fn long_instances_are_cut() {
    let mut l = Logger::new();
    let inst = "a".repeat(300);
    l.message(Severity::Error, "m", Some(&inst), "t");
    let expected = format!("[Error] [t] m\n{}...\n", "a".repeat(256));
    assert_eq!(l.get_log(), expected);
    let mut l = Logger::new();
    let inst = "b".repeat(259);
    l.message(Severity::Error, "m", Some(&inst), "t");
    assert_eq!(l.get_log(), format!("[Error] [t] m\n{}\n", inst));
}

#[test]
fn a_sink_gets_the_text() {
    let mut l = Logger::new();
    l.set_output(false, true);
    match l.message(Severity::Notice, "hi", None, "t") {
        Delivery::Write(t) => assert_eq!(t, "[Notice] [t] hi\n"),
        _ => panic!("expected a write"),
    }
    assert_eq!(l.get_log(), "");
    l.set_output_format(Format::Json);
    assert!(matches!(l.output_format(), Format::Json));
    assert!(matches!(l.message(Severity::Error, "e", None, "t"), Delivery::Json));
    assert_eq!(l.max_severity(), Severity::Error);
}

#[test]
fn status_and_progress() {
    let mut l = Logger::new();
    assert_eq!(l.status("loading", true), None);
    assert_eq!(l.get_log(), "loading\n");
    l.set_output(true, false);
    assert_eq!(l.status("x", false), Some("x".to_string()));
    let bar = l.progress_bar(3).unwrap();
    assert_eq!(bar, format!("\r[###{}]", " ".repeat(47)));
    let full = l.progress_bar(80).unwrap();
    assert_eq!(full, format!("\r[{}]", "#".repeat(50)));
}

#[test]
fn json_escapes() {
    assert_eq!(escape_json("a\"b\\c\n\r\t"), "a\\\"b\\\\c\\n\\r\\t");
    assert_eq!(escape_json("\u{1}\u{7f}é"), "\\u0001\\u007fé");
}

#[test]
fn severities() {
    assert_eq!(Severity::Perf.name(), "Performance");
    assert!(Severity::Perf.timestamp_with_millis());
    assert!(!Severity::Error.timestamp_with_millis());
    assert!(Severity::Warning.rank() > Severity::Notice.rank());
}

#[test]
fn an_error_is_logged_by_its_text() {
    let mut l = Logger::new();
    assert!(matches!(l.message_error(Severity::Error, "Expected ;", None, "10:00:00"), Delivery::Buffered));
    assert_eq!(l.get_log(), "[Error] [10:00:00] Expected ;\n");
    assert_eq!(l.max_severity(), Severity::Error);
    l.set_verbosity(Severity::Error);
    assert!(matches!(l.message_error(Severity::Warning, "dropped", None, "t"), Delivery::Filtered));
}

#[test]
fn smoke() {
    let mut l = Logger::new();
    l.set_output(false, false);
    l.set_output_format(Format::Plain);
    l.set_verbosity(Severity::Debug);
    let p = ProductInfo { global_id: Some("ABCDEF".to_string()), text: "Dummy(ABCDEF)".to_string() };
    l.set_product(Some(p), "t0");
    l.message(Severity::Notice, "Hello", None, "t1");
    l.message(Severity::Perf, "phase1", None, "t2");
    l.message(Severity::Perf, "done phase1", None, "t3");
    l.set_product(None, "t4");
    let s = l.get_log();
    assert!(s.contains("Hello"));
    assert!(s.contains("Performance"));
    assert!(s.contains("[Debug] [t0] {ABCDEF} Begin processing\nDummy(ABCDEF)\n"));
}

#[test]
fn performance_messages_pass_where_debug_messages_do() {
    let mut l = Logger::new();
    assert!(matches!(l.message(Severity::Perf, "p", None, "t"), Delivery::Filtered));
    assert!(!l.keeps(Severity::Perf));
    l.set_verbosity(Severity::Debug);
    assert!(l.keeps(Severity::Perf));
    assert!(matches!(l.message(Severity::Perf, "p", None, "t"), Delivery::Buffered));
    assert_eq!(l.get_log(), "[Performance] [t] p\n");
    l.set_verbosity(Severity::Perf);
    assert!(l.keeps(Severity::Perf));
}
