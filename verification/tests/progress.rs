use nightindex::double::{divide, double_of, multiply, to_parts, to_whole, Double};
use nightindex::progress::{
    format_bytes_human, format_progress_line, format_start_line, format_summary_line, human_bytes,
    human_duration_ns, rate_from_elapsed, CopyExecutionSummary, CopyProgressSnapshot,
};

fn float(x: &Double) -> f64 {
    x.m as f64 * (x.e as f64).exp2()
}

const SAMPLES: [u64; 12] = [
    1,
    3,
    7,
    999,
    1023,
    1024,
    1_000_003,
    123_456_789_012,
    9_007_199_254_740_993,
    9_007_199_254_740_995,
    u64::MAX - 1,
    u64::MAX,
];

#[test]
fn doubles_are_those_of_the_machine() {
    for a in SAMPLES {
        assert_eq!(float(&double_of(a)), a as f64);
        for b in SAMPLES {
            let x = double_of(a);
            let y = double_of(b);
            assert_eq!(float(&divide(&x, &y)), a as f64 / b as f64);
            assert_eq!(float(&multiply(&x, &y)), a as f64 * b as f64);
            let q = divide(&x, &y);
            assert_eq!(
                to_whole(&q, u64::MAX),
                (a as f64 / b as f64).round() as u64
            );
            if q.e >= -126 && q.e <= 50 {
                let parts = to_parts(&q, 1_000_000);
                let text = format!("{}.{:06}", parts / 1_000_000, parts % 1_000_000);
                assert_eq!(text, format!("{:.6}", a as f64 / b as f64));
            }
        }
    }
}

#[test]
fn rates_are_those_of_the_machine() {
    for bytes in SAMPLES {
        for ns in [1i64, 5, 999_999_999, 1_500_000_000, i64::MAX] {
            let rate = rate_from_elapsed(bytes, ns).expect("rate");
            assert_eq!(
                float(&rate),
                bytes as f64 / (ns as f64 / 1_000_000_000.0)
            );
        }
    }
    assert!(rate_from_elapsed(0, 1).is_none());
    assert!(rate_from_elapsed(1, 0).is_none());
}

fn expected_bytes(bytes: u64, digits: usize) -> String {
    let units = ["B", "KiB", "MiB", "GiB", "TiB"];
    let mut value = bytes as f64;
    let mut unit = 0;
    while value >= 1024.0 && unit + 1 < units.len() {
        value /= 1024.0;
        unit += 1;
    }
    if digits == 1 && unit == 0 {
        format!("{bytes} B")
    } else if digits == 1 {
        format!("{value:.1} {}", units[unit])
    } else {
        format!("{value:.2} {}", units[unit])
    }
}

#[test]
fn bytes_are_told_in_units() {
    assert_eq!(human_bytes(0), "0.00 B");
    assert_eq!(human_bytes(1536), "1.50 KiB");
    assert_eq!(format_bytes_human(512), "512 B");
    assert_eq!(format_bytes_human(1536), "1.5 KiB");
    for bytes in SAMPLES {
        assert_eq!(human_bytes(bytes), expected_bytes(bytes, 2));
        assert_eq!(format_bytes_human(bytes), expected_bytes(bytes, 1));
    }
}

#[test]
fn durations_are_told_in_days_hours_and_minutes() {
    assert_eq!(human_duration_ns(0), "00m 00s");
    assert_eq!(human_duration_ns(-5), "00m 00s");
    assert_eq!(human_duration_ns(61_000_000_000), "01m 01s");
    assert_eq!(human_duration_ns(3_661_000_000_000), "01h 01m 01s");
    assert_eq!(human_duration_ns(90_061_000_000_000), "1d 01h 01m");
}

#[test]
fn a_run_tells_its_start() {
    assert_eq!(
        format_start_line("copy-missing", 3, 2048, true, false),
        "[copy start] mode=copy-missing files=3 bytes=2.00 KiB dry_run=true overwrite=false"
    );
}

fn snapshot(copied_bytes: u64, elapsed_ns: i64) -> CopyProgressSnapshot {
    CopyProgressSnapshot {
        planned_files: 10,
        planned_bytes: 4096,
        completed_files: 4,
        copied_files: 3,
        skipped_existing: 1,
        skipped_conflict: 2,
        overwritten_files: 0,
        missing_source: 5,
        failed_files: 6,
        copied_bytes,
        elapsed_ns,
    }
}

#[test]
fn a_run_tells_how_far_it_has_come() {
    assert_eq!(
        format_progress_line(&snapshot(1024, 1_000_000_000)),
        "[copy progress] 4/10 files | copied=1.00 KiB | rate=1.00 KiB/s | eta=00m 03s | skipped=1 conflict=2 missing=5 failed=6"
    );
    assert_eq!(snapshot(1024, 1_000_000_000).eta_ns(), Some(3_000_000_000));
    assert_eq!(
        format_progress_line(&snapshot(0, 1)),
        "[copy progress] 4/10 files | copied=0.00 B | rate=n/a/s | eta=n/a | skipped=1 conflict=2 missing=5 failed=6"
    );
    assert_eq!(snapshot(0, 1).eta_ns(), None);
}

#[test]
fn a_run_tells_what_it_did() {
    let summary = CopyExecutionSummary {
        mode: "copy-missing".to_string(),
        dry_run: false,
        overwrite: true,
        left_label: "l".to_string(),
        right_label: "r".to_string(),
        planned_files: 9,
        copied_files: 8,
        skipped_existing: 1,
        skipped_conflict: 2,
        overwritten_files: 3,
        missing_source: 4,
        failed_files: 5,
        copied_bytes: 2048,
        deleted_files: 0,
        deleted_bytes: 0,
    };
    assert_eq!(
        format_summary_line(&summary, 2_000_000_000),
        "[copy summary] mode=copy-missing dry_run=false overwrite=true files=8/9 copied=2.00 KiB skipped=1 conflict=2 overwritten=3 missing=4 failed=5 elapsed=00m 02s rate=1.00 KiB/s"
    );
}
