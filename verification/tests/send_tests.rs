use zsnapmgr::send::{
    artifact_file_name, filter_command, parse_telemetry_line, partial_name, passphrase_line,
    render_status, send_command_line, sidecar_name, SendMonitor, SendOutcome, SendStep,
    TelemetryLine,
};
use zsnapmgr::zfs_error::ZfsErrorKind;

#[test]
fn artifact_names() {
    assert_eq!(
        artifact_file_name("tank/data@2024-01-01"),
        "tank_data@2024-01-01.zfs.zst.gpg"
    );
    assert_eq!(partial_name("a.zfs.zst.gpg"), "a.zfs.zst.gpg_partial");
    assert_eq!(sidecar_name("a.zfs.zst.gpg"), "a.zfs.zst.gpg.sha256sum");
    assert_eq!(
        sidecar_name(&partial_name("a.zfs.zst.gpg")),
        "a.zfs.zst.gpg_partial.sha256sum"
    );
}

#[test]
fn command_lines() {
    assert_eq!(
        send_command_line(true, true, Some("zstd | gpg")),
        "sudo zfs send --parsable --verbose -i @$0 $1  | zstd | gpg"
    );
    assert_eq!(
        send_command_line(false, false, None),
        "zfs send --parsable --verbose  $1 "
    );
    assert_eq!(
        filter_command(7),
        "zstd -T0 --size-hint=1000000000 | gpg --batch --symmetric --passphrase-fd 7 --output -"
    );
    assert_eq!(passphrase_line("secret"), "secret\n");
}

#[test]
fn telemetry_classification() {
    assert_eq!(parse_telemetry_line("incremental\tfoo\tbar"), TelemetryLine::Ignored);
    assert_eq!(parse_telemetry_line("full\ttank@x\t123"), TelemetryLine::Ignored);
    assert_eq!(parse_telemetry_line("size\t12345"), TelemetryLine::Size(12345));
    assert_eq!(parse_telemetry_line("size\t0"), TelemetryLine::Size(0));
    assert_eq!(parse_telemetry_line("size\t"), TelemetryLine::Malformed);
    assert_eq!(parse_telemetry_line("size\tabc"), TelemetryLine::Malformed);
    assert_eq!(
        parse_telemetry_line("12:34:56\t1000\t5000"),
        TelemetryLine::Progress { seconds: 12 * 3600 + 34 * 60 + 56, bytes_sent: 1000, bytes_total: 5000 }
    );
    assert_eq!(parse_telemetry_line("12:34\t1000\t5000"), TelemetryLine::Malformed);
    assert_eq!(parse_telemetry_line("aa:bb:cc\t1\t2"), TelemetryLine::Malformed);
    assert_eq!(parse_telemetry_line("1:2:3\t4\t5\t6"), TelemetryLine::Malformed);
    assert_eq!(parse_telemetry_line("garbage"), TelemetryLine::Malformed);
    assert_eq!(parse_telemetry_line(""), TelemetryLine::Malformed);
}

#[test]
fn status_line_rendering() {
    assert_eq!(
        render_status(0, 10, 500, 250, 1000),
        "00:00:10 50.0% 500B in 250B out (50.0% compressed)"
    );
    // Output larger than input shows a negative compression ratio.
    assert_eq!(
        render_status(0, 3661, 1000, 1500, 2000),
        "01:01:01 50.0% 1.0 kB in 1.5 kB out (-50.0% compressed)"
    );
    // An unknown total size and an empty transfer both show as zero.
    assert_eq!(
        render_status(5, 5, 0, 0, 0),
        "00:00:00 0.0% 0B in 0B out (0.0% compressed)"
    );
}

#[test]
fn empty_snapshot_is_success_with_no_artifact() {
    let mut m = SendMonitor::new(0);
    match m.step("size\t0", 0) {
        SendStep::EmptySnapshot => {}
        _ => panic!("a zero size must end the read as an empty snapshot"),
    }
    // No rename happens: the successful outcome discards the partial file.
    match m.finish(None, true, 0) {
        Ok(SendOutcome::DiscardPartial) => {}
        _ => panic!("an empty snapshot must succeed with no artifact"),
    }
}

#[test]
fn nonzero_exit_fails_without_promotion() {
    let mut m = SendMonitor::new(0);
    match m.step("size\t1000", 0) {
        SendStep::Announce(t) => assert_eq!(t, "Full size: 1.0 kB"),
        _ => panic!("a nonzero size must be announced"),
    }
    match m.step("00:00:01\t1000\t1000", 900) {
        SendStep::Status(_) => {}
        _ => panic!("a progress line must redraw the status"),
    }
    // All data was transferred, yet the exit code decides: no promotion.
    let r = m.finish(None, false, 3);
    match r {
        Err(e) => {
            assert_eq!(e.kind, ZfsErrorKind::ExternalProcess(3));
            assert_eq!(e.descr, "'zfs send' returned nonzero exit code: 3");
        }
        Ok(_) => panic!("a nonzero exit code must fail the operation"),
    }
}

#[test]
fn successful_transfer_promotes() {
    let mut m = SendMonitor::new(0);
    m.step("size\t10", 0);
    match m.finish(None, true, 0) {
        Ok(SendOutcome::Promote) => {}
        _ => panic!("a successful nonzero transfer must promote the partial files"),
    }
}

#[test]
fn hashing_failure_takes_priority() {
    let mut m = SendMonitor::new(0);
    m.step("size\t10", 0);
    match m.finish(Some("read error: broken pipe".to_string()), true, 0) {
        Err(e) => {
            assert_eq!(e.kind, ZfsErrorKind::Io);
            assert_eq!(e.descr, "read error: broken pipe");
        }
        Ok(_) => panic!("a hashing-path failure must surface even on pipeline success"),
    }
}

#[test]
fn malformed_telemetry_is_a_protocol_error() {
    let mut m = SendMonitor::new(0);
    match m.step("what is this", 0) {
        SendStep::Fail(e) => {
            assert_eq!(e.kind, ZfsErrorKind::Protocol);
            assert_eq!(e.descr, "Unrecognized output: what is this");
        }
        _ => panic!("unparseable telemetry must abort"),
    }
}

#[test]
fn status_line_blanks_the_previous_one() {
    let mut m = SendMonitor::new(0);
    m.step("size\t1000000", 0);
    let first = match m.step("00:00:01\t500000\t1000000", 400000) {
        SendStep::Status(t) => t,
        _ => panic!("expected a status"),
    };
    // A shorter follow-up line is padded with spaces to cover the first.
    let second = match m.step("00:00:02\t900\t1000000", 800) {
        SendStep::Status(t) => t,
        _ => panic!("expected a status"),
    };
    assert!(second.len() >= first.trim_end().len());
    assert!(second.starts_with("00:00:02 0.0% 900B in 800B out"));
    assert!(second.ends_with(' '));
}
