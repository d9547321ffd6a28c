use agent_book_translate::pipeline::qa::{
    assemble_qa_report, is_text_entry, sample_indices, scan_leakage, select_text_files,
    split_lines, LeakageHit, QaReport, LEAKAGE_PATTERNS,
};

#[test]
fn sample_indices_single_entry() {
    assert_eq!(sample_indices(1), vec![0]);
}

#[test]
fn sample_indices_two_entries() {
    let idx = sample_indices(2);
    assert!(idx.contains(&0));
    assert!(idx.contains(&1));
}

#[test]
fn sample_indices_many_entries() {
    let idx = sample_indices(10);
    assert_eq!(idx[0], 0);
    assert_eq!(*idx.last().unwrap(), 9);
}

#[test]
fn leakage_patterns_cover_known_wrappers() {
    let content = r#"<p>{"translation": "some text"}</p>"#;
    let hit = LEAKAGE_PATTERNS.iter().any(|p| content.contains(p));
    assert!(hit, "leakage pattern must match translation wrapper");
}

#[test]
fn leakage_patterns_do_not_match_clean_content() {
    let content = "<p>这是干净的中文段落。</p>";
    let hit = LEAKAGE_PATTERNS.iter().any(|p| content.contains(p));
    assert!(!hit, "clean content must not trigger leakage patterns");
}

#[test]
fn sample_indices_of_nothing_is_empty() {
    assert!(sample_indices(0).is_empty());
    assert_eq!(sample_indices(3), vec![0, 1, 2]);
    assert_eq!(sample_indices(7), vec![0, 3, 6]);
}

#[test]
fn lines_split_like_str_lines() {
    let text = "foo\r\nbar\n\nbaz\r";
    let chars: Vec<char> = text.chars().collect();
    let lines: Vec<String> = split_lines(&chars)
        .into_iter()
        .map(|l| l.into_iter().collect())
        .collect();
    let expected: Vec<String> = text.lines().map(|l| l.to_string()).collect();
    assert_eq!(lines, expected);
    assert_eq!(lines, vec!["foo", "bar", "", "baz\r"]);
    let trailing: Vec<char> = "a\nb\n".chars().collect();
    assert_eq!(split_lines(&trailing).len(), 2);
}

#[test]
fn leakage_scan_reports_file_pattern_line_and_excerpt() {
    let content = "<p>clean</p>\n<p>{\"translation\": \"x\", \"incorrect_terms\": []}</p>\n";
    let hits = scan_leakage("ch1.xhtml", content);
    assert_eq!(hits.len(), 2);
    assert_eq!(hits[0].file_name, "ch1.xhtml");
    assert_eq!(hits[0].pattern, "{\"translation\"");
    assert_eq!(hits[0].line_number, 2);
    assert_eq!(hits[1].pattern, "incorrect_terms");
    assert_eq!(hits[1].line_number, 2);
    assert_eq!(hits[1].line, "<p>{\"translation\": \"x\", \"incorrect_terms\": []}</p>");
}

#[test]
fn leakage_excerpt_keeps_the_first_120_characters() {
    let long_line = format!("{}refined_translation", "字".repeat(200));
    let hits = scan_leakage("a.html", &long_line);
    assert_eq!(hits.len(), 1);
    assert_eq!(hits[0].line.chars().count(), 120);
    assert_eq!(hits[0].line, "字".repeat(120));
}

#[test]
fn text_entries_are_matched_without_case() {
    assert!(is_text_entry("OEBPS/CH1.XHTML"));
    assert!(is_text_entry("Text/Part.Html"));
    assert!(is_text_entry("a.htm"));
    assert!(!is_text_entry("OEBPS/content.opf"));
    assert!(!is_text_entry("images/cover.jpg"));
    let names = vec![
        "mimetype".to_string(),
        "OEBPS/ch1.xhtml".to_string(),
        "OEBPS/style.css".to_string(),
        "OEBPS/CH2.HTML".to_string(),
    ];
    assert_eq!(select_text_files(&names), vec!["OEBPS/ch1.xhtml", "OEBPS/CH2.HTML"]);
}

#[test]
fn report_samples_first_middle_and_last_files() {
    let names = vec![
        "a.xhtml".to_string(),
        "b.xhtml".to_string(),
        "c.xhtml".to_string(),
        "d.xhtml".to_string(),
    ];
    let contents = vec![
        Ok("   \n".to_string()),
        Ok("<p>{\"role\": \"assistant\"}</p>".to_string()),
        Ok("<p>fine</p>".to_string()),
        Err("zip entry d.xhtml: broken".to_string()),
    ];
    let report = assemble_qa_report(true, &names, &contents);
    assert!(report.archive_ok);
    assert_eq!(report.text_file_count, 4);
    assert_eq!(report.leakage_hits.len(), 1);
    assert_eq!(report.leakage_hits[0].file_name, "b.xhtml");
    assert_eq!(report.leakage_hits[0].pattern, "{\"role\"");
    assert_eq!(
        report.sample_failures,
        vec![
            "a.xhtml: sampled file is empty".to_string(),
            "d.xhtml: read error: zip entry d.xhtml: broken".to_string(),
        ]
    );
    assert!(!report.passed());
}

#[test]
fn clean_book_passes() {
    let names = vec!["a.xhtml".to_string()];
    let contents = vec![Ok("<p>好</p>".to_string())];
    let report = assemble_qa_report(true, &names, &contents);
    assert!(report.passed());
    let broken = assemble_qa_report(false, &names, &contents);
    assert!(!broken.passed());
    let empty = QaReport::default();
    assert!(!empty.passed());
    assert_eq!(empty.text_file_count, 0);
}

#[test]
fn summary_lists_counts_hits_failures_and_verdict() {
    let report = QaReport {
        archive_ok: true,
        leakage_hits: vec![LeakageHit {
            file_name: "OEBPS/a.xhtml".to_string(),
            pattern: "refined_translation".to_string(),
            line_number: 12,
            line: "say \"hi\"".to_string(),
        }],
        sample_failures: vec!["OEBPS/b.xhtml is empty".to_string()],
        text_file_count: 3,
    };
    assert_eq!(
        report.summary_lines(),
        vec![
            "[PASS] archive integrity: ok".to_string(),
            "[FAIL] JSON leakage checks: leakage hits = 1".to_string(),
            "[INFO] text files: 3  leakage hits: 1  sample failures: 1".to_string(),
            "[FAIL] leakage in OEBPS/a.xhtml:12 pattern=\"refined_translation\" line=\"say \\\"hi\\\"\""
                .to_string(),
            "[FAIL] sample check: OEBPS/b.xhtml is empty".to_string(),
            "[FAIL] QA checks failed".to_string(),
        ]
    );
    let clean = QaReport {
        archive_ok: true,
        leakage_hits: Vec::new(),
        sample_failures: Vec::new(),
        text_file_count: 10,
    };
    assert_eq!(
        clean.summary_lines(),
        vec![
            "[PASS] archive integrity: ok".to_string(),
            "[PASS] JSON leakage checks: leakage hits = 0".to_string(),
            "[INFO] text files: 10  leakage hits: 0  sample failures: 0".to_string(),
            "[PASS] all QA checks passed".to_string(),
        ]
    );
}
