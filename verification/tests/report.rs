use reposync::{abandoned_outcome, collect, render_row, Distance, Outcome, StatusFlags};

fn outcome(name: &str) -> Outcome {
    Outcome {
        name: name.to_string(),
        status: Some(StatusFlags { staged: false, unstaged: false, untracked: false }),
        distance: Some(Distance::Same),
        branch_name: Some("main".to_string()),
        remote_name: Some("origin/main".to_string()),
        commit_summary: Some("initial".to_string()),
        fetch_failed: false,
        abandoned: false,
        failed: false,
    }
}

#[test]
fn collect_sorts_rows_by_name() {
    let results = vec![outcome("zeta"), outcome("alpha"), outcome("mid")];
    let report = collect(results);
    let names: Vec<&str> = report.iter().map(|o| o.name.as_str()).collect();
    assert_eq!(names, vec!["alpha", "mid", "zeta"]);
}

#[test]
fn collect_emits_one_row_per_result() {
    let results = vec![outcome("a"), outcome("b"), outcome("c")];
    assert_eq!(collect(results).len(), 3);
    let none: Vec<Outcome> = Vec::new();
    assert_eq!(collect(none).len(), 0);
}

#[test]
fn serial_and_parallel_arrival_orders_agree() {
    // three repositories: the order their results arrive in differs
    // between one worker and three, yet the reports must be identical
    let serial = vec![outcome("beta"), outcome("alpha"), outcome("gamma")];
    let parallel = vec![outcome("gamma"), outcome("beta"), outcome("alpha")];
    let report_serial = collect(serial);
    let report_parallel = collect(parallel);
    assert_eq!(report_serial, report_parallel);
    let rendered_serial: Vec<String> = report_serial
        .iter()
        .map(|o| {
            let r = render_row(o);
            format!(
                "{} {} {} {} {} {}",
                r.name, r.status_symbol, r.branch_name, r.distance_symbol, r.remote_name, r.summary
            )
        })
        .collect();
    let rendered_parallel: Vec<String> = report_parallel
        .iter()
        .map(|o| {
            let r = render_row(o);
            format!(
                "{} {} {} {} {} {}",
                r.name, r.status_symbol, r.branch_name, r.distance_symbol, r.remote_name, r.summary
            )
        })
        .collect();
    assert_eq!(rendered_serial, rendered_parallel);
}

#[test]
fn a_failed_fetch_never_touches_another_row() {
    let mut failing = outcome("exx");
    failing.fetch_failed = true;
    failing.status = None;
    failing.distance = None;
    failing.failed = true;
    let with_failure = vec![outcome("why"), failing, outcome("aay")];
    let healthy = vec![outcome("why"), outcome("exx"), outcome("aay")];
    let report_with_failure = collect(with_failure);
    let report_healthy = collect(healthy);
    assert_eq!(report_with_failure.len(), 3);
    // the unrelated rows are identical in both runs
    let why_a = report_with_failure.iter().find(|o| o.name == "why").unwrap();
    let why_b = report_healthy.iter().find(|o| o.name == "why").unwrap();
    assert_eq!(why_a, why_b);
    let aay_a = report_with_failure.iter().find(|o| o.name == "aay").unwrap();
    let aay_b = report_healthy.iter().find(|o| o.name == "aay").unwrap();
    assert_eq!(aay_a, aay_b);
}

#[test]
fn render_fills_every_column() {
    let mut o = outcome("widget");
    o.status = Some(StatusFlags { staged: true, unstaged: true, untracked: false });
    o.distance = Some(Distance::Ahead);
    let r = render_row(&o);
    assert_eq!(r.name, "widget");
    assert_eq!(r.status_symbol, "+*");
    assert_eq!(r.branch_name, "main");
    assert_eq!(r.distance_symbol, ">>");
    assert_eq!(r.remote_name, "origin/main");
    assert_eq!(r.summary, "initial");
}

#[test]
fn render_blanks_absent_fields() {
    let o = Outcome {
        name: "bare".to_string(),
        status: None,
        distance: None,
        branch_name: None,
        remote_name: None,
        commit_summary: None,
        fetch_failed: false,
        abandoned: false,
        failed: true,
    };
    let r = render_row(&o);
    assert_eq!(r.status_symbol, "");
    assert_eq!(r.branch_name, "");
    assert_eq!(r.distance_symbol, "");
    assert_eq!(r.remote_name, "");
    assert_eq!(r.summary, "");
}

#[test]
fn render_caps_the_summary() {
    let mut o = outcome("long");
    o.commit_summary = Some("z".repeat(80));
    let r = render_row(&o);
    assert_eq!(r.summary.chars().count(), 53);
    assert!(r.summary.ends_with("..."));
}

#[test]
fn an_abandoned_job_gets_one_failed_blank_row() {
    let left_behind = abandoned_outcome("stuck".to_string());
    assert!(left_behind.abandoned);
    assert!(left_behind.failed);
    assert!(!left_behind.fetch_failed);
    let report = collect(vec![outcome("ok"), left_behind]);
    assert_eq!(report.len(), 2);
    let row = render_row(&report[1]);
    assert_eq!(row.name, "stuck");
    assert_eq!(row.status_symbol, "");
    assert_eq!(row.branch_name, "");
    assert_eq!(row.distance_symbol, "");
    assert_eq!(row.remote_name, "");
    assert_eq!(row.summary, "");
    // the completed job's row is untouched
    assert_eq!(report[0], outcome("ok"));
}

#[test]
fn unavailable_distance_renders_empty() {
    let mut o = outcome("lonely");
    o.distance = Some(Distance::Unavailable);
    let r = render_row(&o);
    assert_eq!(r.distance_symbol, "");
}
