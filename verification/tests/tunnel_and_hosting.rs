use fluxshare::hosting::{render_index_page, summarize_files, HostedFile};
use fluxshare::sizefmt::format_file_size;
use fluxshare::tunnel::{extract_url, resolve_exit_code, TunnelState};

fn hosted(path: &str, name: &str, size: u64) -> HostedFile {
    HostedFile { id: 0, path: path.to_string(), name: name.to_string(), size }
}

#[test]
fn start_is_idempotent_while_running() {
    let mut state = TunnelState::new();
    state.record_server(4040);
    state.record_started("https://abc.trycloudflare.com".to_string(), 2);
    state.record_monitor();

    let first = state.running_url().cloned();
    assert_eq!(first.as_deref(), Some("https://abc.trycloudflare.com"));
    let second = state.running_url().cloned();
    assert_eq!(first, second);
    assert_eq!(state.log_readers, 2);
    assert!(state.child_running);
}

#[test]
fn stop_when_idle_is_a_noop_with_sentinel() {
    let mut state = TunnelState::new();
    let plan = state.teardown();
    assert!(!plan.kill_child);
    assert_eq!(plan.join_readers, 0);
    assert!(!plan.shutdown_server);
    assert!(!plan.join_monitor);
    assert_eq!(resolve_exit_code(None), -1);
    assert_eq!(resolve_exit_code(Some(3)), 3);
}

#[test]
fn every_teardown_path_converges_to_idle() {
    let mut state = TunnelState::new();
    state.record_server(4040);
    state.host_files(vec![hosted("/tmp/a", "a", 10), hosted("/tmp/b", "b", 20)]);
    state.record_started("https://x.trycloudflare.com".to_string(), 2);
    state.record_monitor();

    let plan = state.teardown();
    assert!(plan.kill_child);
    assert_eq!(plan.join_readers, 2);
    assert!(plan.shutdown_server);
    assert!(plan.join_monitor);
    assert!(!state.child_running);
    assert!(state.url.is_none());
    assert!(state.server_port.is_none());
    assert_eq!(state.files.len(), 0);
    assert_eq!(state.next_file_id, 0);
}

#[test]
fn monitor_finalizes_only_on_exit() {
    let mut state = TunnelState::new();
    state.record_started("https://y.trycloudflare.com".to_string(), 1);
    state.record_monitor();
    assert!(!state.monitor_sees_exit(false));
    assert!(state.monitor_sees_exit(true));

    let mut idle = TunnelState::new();
    idle.record_monitor();
    assert!(!idle.monitor_sees_exit(true));
    assert!(!idle.exit_monitor);
}

#[test]
fn cleanup_reaps_exited_child() {
    let mut state = TunnelState::new();
    state.record_started("https://z.trycloudflare.com".to_string(), 2);
    let joined = state.cleanup_finished(true);
    assert_eq!(joined, 2);
    assert!(!state.child_running);
    assert!(state.url.is_none());
}

#[test]
fn hosted_file_ids_count_up_from_zero() {
    let mut state = TunnelState::new();
    state.host_files(vec![hosted("/p/x", "x", 1), hosted("/p/y", "y", 2), hosted("/p/z", "z", 3)]);
    let ids: Vec<u64> = state.files.iter().map(|f| f.id).collect();
    assert_eq!(ids, vec![0, 1, 2]);
    assert_eq!(state.next_file_id, 3);

    state.host_files(vec![hosted("/p/w", "w", 4)]);
    assert_eq!(state.files.len(), 1);
    assert_eq!(state.files[0].id, 0);
    assert_eq!(state.next_file_id, 1);
}

#[test]
fn status_snapshot_reports_liveness() {
    let mut state = TunnelState::new();
    state.record_server(5050);
    state.host_files(vec![hosted("/p/a", "a", 7)]);
    state.record_started("https://s.trycloudflare.com".to_string(), 1);

    let alive = state.status_snapshot(false);
    assert!(alive.running);
    assert_eq!(alive.url.as_deref(), Some("https://s.trycloudflare.com"));
    assert_eq!(alive.local_port, Some(5050));
    assert_eq!(alive.hosted_files.len(), 1);
    assert_eq!(alive.hosted_files[0].name, "a");

    let gone = state.status_snapshot(true);
    assert!(!gone.running);
    assert!(gone.url.is_none());
    assert_eq!(gone.local_port, Some(5050));
}

#[test]
fn url_extraction_matches_reference_scan() {
    fn reference(line: &str) -> Option<String> {
        line.split_whitespace()
            .find(|segment| segment.contains("trycloudflare.com"))
            .map(|segment| segment.trim_matches('"').to_string())
    }
    let lines = [
        "2024-01-01T00:00:00Z INF |  https://abc-def.trycloudflare.com  |",
        "visit \"https://quoted.trycloudflare.com\" now",
        "no url in this line",
        "prefix https://one.trycloudflare.com and https://two.trycloudflare.com",
        "trycloudflare.com",
        "\"\"trycloudflare.com\"\"",
        "\ttabbed\thttps://tab.trycloudflare.com\t",
        "\"\"\"\"",
    ];
    for line in lines {
        assert_eq!(extract_url(line), reference(line), "line {line:?}");
    }
}

#[test]
fn index_page_lists_files_with_escaped_names() {
    let files = vec![
        HostedFile { id: 0, path: "/tmp/a&b.txt".to_string(), name: "a&b <c>.txt".to_string(), size: 2048 },
    ];
    let summaries = summarize_files(&files);
    let page = render_index_page(&summaries);
    assert!(page.contains("<a href=\"/download/0\">a&amp;b &lt;c&gt;.txt</a>"));
    assert!(page.contains("<span class=\"size\">2.00 KB</span>"));
    assert!(page.starts_with("<!DOCTYPE html>"));
    assert!(page.ends_with("</div></body></html>"));

    let empty = render_index_page(&Vec::new());
    assert!(empty.contains("Nenhum arquivo hospedado."));
}

#[test]
fn file_sizes_format_like_double_arithmetic() {
    // The display rule stated over plain floating point, for comparison.
    fn reference(size: u64) -> String {
        const UNITS: [&str; 5] = ["B", "KB", "MB", "GB", "TB"];
        if size == 0 {
            return "0 B".into();
        }
        let mut value = size as f64;
        let mut unit_index = 0usize;
        while value >= 1024.0 && unit_index < UNITS.len() - 1 {
            value /= 1024.0;
            unit_index += 1;
        }
        if unit_index == 0 {
            format!("{size} {}", UNITS[unit_index])
        } else {
            format!("{value:.2} {}", UNITS[unit_index])
        }
    }
    assert_eq!(format_file_size(0), "0 B");
    assert_eq!(format_file_size(512), "512 B");
    assert_eq!(format_file_size(1024), "1.00 KB");
    assert_eq!(format_file_size(1536), "1.50 KB");
    assert_eq!(format_file_size(1048576), "1.00 MB");
    let samples: [u64; 16] = [
        1,
        1023,
        1024,
        1025,
        1152,
        999999,
        1048575,
        1048577,
        5_368_709_120,
        1_099_511_627_776,
        2_251_799_813_685_247,
        9_007_199_254_740_993,
        9_007_199_254_740_995,
        18_446_744_073_709_551_615,
        18_446_744_073_709_550_000,
        123_456_789_012_345_678,
    ];
    for size in samples {
        assert_eq!(format_file_size(size), reference(size), "size {size}");
    }
}
