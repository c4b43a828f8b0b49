use zmanager_core::{healthcheck, ENGINE_NAME};

#[test]
fn healthcheck_reports_ready_core() {
    let report = healthcheck();

    assert_eq!(report.engine, ENGINE_NAME);
    assert_eq!(report.version, "0.1.0");
    assert!(report.ready);
}

#[test]
fn healthcheck_summary_is_stable() {
    let report = healthcheck();
    let expected = format!("zmanager-core {} (ready)", "0.1.0");

    assert_eq!(report.summary(), expected);
}

#[test]
fn summary_reports_not_ready_engines() {
    let mut report = healthcheck();
    report.ready = false;
    assert_eq!(report.summary(), "zmanager-core 0.1.0 (not ready)");
}
