//! Snapshot parser behaviour on concrete command output.

use remote_monitor::snapshot::parse;

#[test]
fn empty_input_yields_zero_snapshot() {
    let s = parse(b"");
    assert_eq!(s.cpu_usage_milli, 0);
    assert_eq!(s.memory_total_bytes, 0);
    assert_eq!(s.memory_used_bytes, 0);
    assert_eq!(s.swap_total_bytes, 0);
    assert_eq!(s.swap_used_bytes, 0);
    assert_eq!(s.load_average_milli, (0, 0, 0));
    assert!(s.uptime_line.is_empty());
    assert!(s.disk_entries.is_empty());
}

#[test]
fn binary_garbage_is_total() {
    let mut garbage: Vec<u8> = Vec::new();
    for i in 0..4096u32 {
        garbage.push((i.wrapping_mul(251) % 256) as u8);
    }
    let s = parse(&garbage);
    // No panic, and every numeric field is in its declared domain.
    assert!(s.cpu_usage_milli <= u64::MAX);
    assert!(s.disk_entries.len() <= 4096);
}

#[test]
fn cpu_extraction_adds_user_and_system() {
    let s = parse(b"%Cpu(s): 3.2 us, 1.1 sy, 95.7 id");
    // 3.2% + 1.1% = 4.3%, in thousandths of a percent.
    assert_eq!(s.cpu_usage_milli, 4300);
}

#[test]
fn cpu_user_only_when_system_missing() {
    let s = parse(b"%Cpu(s): 3.2 us, 95.7 id");
    assert_eq!(s.cpu_usage_milli, 3200);
}

#[test]
fn cpu_marker_with_no_preceding_token_is_zero() {
    // The user marker is the very first token: there is no value before it.
    let s = parse(b"us, 1.0 %Cpu(s)\n");
    assert_eq!(s.cpu_usage_milli, 0);
}

#[test]
fn cpu_zero_without_marker_line() {
    let s = parse(b"nothing relevant\n1.0 us, 2.0 sy");
    assert_eq!(s.cpu_usage_milli, 0);
}

#[test]
fn memory_and_swap_extraction() {
    let s = parse(b"Mem: 1000 400 600\nSwap: 200 50 150\n");
    assert_eq!(s.memory_total_bytes, 1000);
    assert_eq!(s.memory_used_bytes, 400);
    assert_eq!(s.swap_total_bytes, 200);
    assert_eq!(s.swap_used_bytes, 50);
}

#[test]
fn malformed_memory_token_degrades_to_zero() {
    let s = parse(b"Mem: abc 400 600\n");
    assert_eq!(s.memory_total_bytes, 0);
    assert_eq!(s.memory_used_bytes, 400);
}

#[test]
fn load_average_extraction() {
    let s = parse(b" 10:02:01 up 3 days, load average: 0.10, 0.20, 0.30\n");
    assert_eq!(s.load_average_milli, (100, 200, 300));
    assert_eq!(s.uptime_line, b" 10:02:01 up 3 days, load average: 0.10, 0.20, 0.30".to_vec());
}

#[test]
fn load_average_needs_three_values() {
    let s = parse(b"up, load average: 0.10, 0.20\n");
    assert_eq!(s.load_average_milli, (0, 0, 0));
    // The line is still shown verbatim in the header.
    assert_eq!(s.uptime_line, b"up, load average: 0.10, 0.20".to_vec());
}

#[test]
fn disk_entries_preserve_input_order() {
    let out = b"/dev/sda1 1000 400 600 40% /\n/dev/sda2 2000 800 1200 40% /home\n";
    let s = parse(out);
    assert_eq!(s.disk_entries.len(), 2);
    assert_eq!(s.disk_entries[0].mount, b"/".to_vec());
    assert_eq!(s.disk_entries[0].total_bytes, 1000);
    assert_eq!(s.disk_entries[0].used_bytes, 400);
    assert_eq!(s.disk_entries[1].mount, b"/home".to_vec());
    assert_eq!(s.disk_entries[1].total_bytes, 2000);
    assert_eq!(s.disk_entries[1].used_bytes, 800);
}

#[test]
fn disk_line_needs_six_tokens() {
    let s = parse(b"/dev/sda1 1000 400\n");
    assert_eq!(s.disk_entries.len(), 0);
}

#[test]
fn combined_batch_output() {
    let out = b"top - 10:02:01 up 3 days\nTasks: 100 total\n%Cpu(s): 12.5 us, 2.5 sy, 85.0 id\nMem: 8000000 3000000 5000000\nSwap: 1000000 0 1000000\nFilesystem 1B-blocks Used Available Use% Mounted\n/dev/root 50000000 20000000 30000000 40% /\n 10:02:01 up 3 days, load average: 1.50, 0.75, 0.25\n";
    let s = parse(out);
    assert_eq!(s.cpu_usage_milli, 15000);
    assert_eq!(s.memory_total_bytes, 8000000);
    assert_eq!(s.memory_used_bytes, 3000000);
    assert_eq!(s.swap_total_bytes, 1000000);
    assert_eq!(s.swap_used_bytes, 0);
    assert_eq!(s.load_average_milli, (1500, 750, 250));
    assert_eq!(s.disk_entries.len(), 1);
    assert_eq!(s.disk_entries[0].mount, b"/".to_vec());
}
