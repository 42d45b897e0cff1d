//! History bounds, scheduler, state machine and renderer behaviour.

use humansize::{format_size, BINARY};
use remote_monitor::history::History;
use remote_monitor::render::render;
use remote_monitor::sched::is_due;
use remote_monitor::snapshot::parse;
use remote_monitor::state::{DashboardState, KeyInput, UiAction};

#[test]
fn history_fifo_bound() {
    let mut h = History::new();
    for i in 0..150u64 {
        h.push_sample(i);
    }
    // Exactly 100 retained: the last 100 pushed, oldest first.
    assert_eq!(h.sample_count(), 100);
    let v = h.to_vec();
    assert_eq!(v.len(), 100);
    for i in 0..100u64 {
        assert_eq!(v[i as usize], 50 + i);
        assert_eq!(h.sample_at(i as usize), 50 + i);
    }
}

#[test]
fn scheduler_due_threshold() {
    assert!(is_due(1000, 0, 1000));
    assert!(!is_due(999, 0, 1000));
    assert!(is_due(5000, 3000, 2000));
    assert!(is_due(100, 100, 0));
}

#[test]
fn refresh_success_updates_state() {
    let mut st = DashboardState::new(0);
    let out = b"%Cpu(s): 3.2 us, 1.1 sy, 95.7 id\n".to_vec();
    assert!(st.refresh_due(5000, 1000));
    st.apply_refresh(5000, Some(out));
    assert_eq!(st.snapshot.cpu_usage_milli, 4300);
    assert_eq!(st.history.sample_count(), 1);
    assert_eq!(st.history.sample_at(0), 4300);
    assert_eq!(st.last_refresh_ms, 5000);
    assert!(st.running);
}

#[test]
fn refresh_failure_preserves_state_and_retries() {
    let mut st = DashboardState::new(0);
    let out = b"%Cpu(s): 3.2 us, 1.1 sy, 95.7 id\nMem: 1000 400 600\n".to_vec();
    st.apply_refresh(5000, Some(out));
    let cpu_before = st.snapshot.cpu_usage_milli;
    let mem_before = st.snapshot.memory_total_bytes;
    let hist_before = st.history.to_vec();

    // A failed executor call changes nothing at all.
    st.apply_refresh(9000, None);
    assert_eq!(st.snapshot.cpu_usage_milli, cpu_before);
    assert_eq!(st.snapshot.memory_total_bytes, mem_before);
    assert_eq!(st.history.to_vec(), hist_before);
    assert_eq!(st.last_refresh_ms, 5000);
    // The very next due-check fires again: no backoff was added.
    assert!(st.refresh_due(9000, 1000));
}

#[test]
fn quit_key_stops_capture_resumes() {
    let mut st = DashboardState::new(0);
    assert_eq!(st.handle_key(KeyInput::Other), UiAction::Continue);
    assert!(st.running);
    assert_eq!(st.handle_key(KeyInput::SnapshotRequest), UiAction::Capture);
    assert!(st.running);
    assert_eq!(st.handle_key(KeyInput::Quit), UiAction::Exit);
    assert!(!st.running);
}

#[test]
fn render_zero_total_memory_is_zero_percent() {
    let snap = parse(b"");
    let h = History::new();
    let f = render(&snap, &h, 80);
    assert_eq!(f.memory_percent, 0);
    assert_eq!(f.swap_percent, 0);
}

#[test]
fn render_gauge_percentages() {
    let snap = parse(b"Mem: 1000 400 600\nSwap: 200 50 150\n");
    let h = History::new();
    let f = render(&snap, &h, 80);
    assert_eq!(f.memory_percent, 40);
    assert_eq!(f.swap_percent, 25);
}

#[test]
fn render_empty_history_pads_chart() {
    let snap = parse(b"%Cpu(s): 42.0 us, 0.0 sy\n");
    let h = History::new();
    let f = render(&snap, &h, 80);
    assert_eq!(f.chart_points.len(), 2);
    assert_eq!(f.chart_points[0].y_milli, 42000);
    assert_eq!(f.chart_points[1].y_milli, 42000);
    assert_eq!(f.chart_points[0].x_milli, 0);
    assert_eq!(f.chart_points[1].x_milli, 80_000);
}

#[test]
fn render_chart_spreads_samples() {
    let snap = parse(b"");
    let mut h = History::new();
    h.push_sample(10_000);
    h.push_sample(20_000);
    h.push_sample(30_000);
    let f = render(&snap, &h, 100);
    assert_eq!(f.chart_points.len(), 3);
    assert_eq!(f.chart_points[0].x_milli, 0);
    assert_eq!(f.chart_points[1].x_milli, 50_000);
    assert_eq!(f.chart_points[2].x_milli, 100_000);
    assert_eq!(f.chart_points[0].y_milli, 10_000);
    assert_eq!(f.chart_points[2].y_milli, 30_000);
}

#[test]
fn render_chart_title() {
    let snap = parse(b"%Cpu(s): 3.2 us, 1.1 sy, 95.7 id\n");
    let h = History::new();
    let f = render(&snap, &h, 80);
    assert_eq!(f.chart_title, b"CPU Usage: 4.3%".to_vec());
}

#[test]
fn render_header_is_uptime_line() {
    let snap = parse(b"up 3 days, load average: 1.00, 2.00, 3.00\n");
    let h = History::new();
    let f = render(&snap, &h, 80);
    assert_eq!(f.header_line, b"up 3 days, load average: 1.00, 2.00, 3.00".to_vec());
}

#[test]
fn render_disk_line_small_values() {
    let snap = parse(b"/dev/sda1 1000 400 600 40% /\n");
    let h = History::new();
    let f = render(&snap, &h, 80);
    assert_eq!(f.disk_lines.len(), 1);
    assert_eq!(f.disk_lines[0], b"/: 400 B / 1000 B (40%)".to_vec());
}

#[test]
fn render_disk_line_binary_units() {
    let snap = parse(b"/dev/sda2 1048576 524288 524288 50% /home\n");
    let h = History::new();
    let f = render(&snap, &h, 80);
    assert_eq!(f.disk_lines.len(), 1);
    let expected = format!(
        "/home: {} / {} (50%)",
        format_size(524288u64, BINARY),
        format_size(1048576u64, BINARY)
    );
    assert_eq!(f.disk_lines[0], expected.into_bytes());
}
