use fleetmon::dashboard::{dashboard_row, database_process, normalize_gpu_user, normalize_gpu_users};
use fleetmon::gpu::{
    gpu_report, parse_device_query, parse_process_users, split_gpu_users, GpuUser, ParseError, ProcessSlot,
    ServerCardsInfo, SingleCardDetail,
};
use fleetmon::host::{_convert_sec_to_str, interface_address, MasterServerInfo};
use fleetmon::registry::{Registry, UpdateOutcome, PASSWORD, TTL_SECS};
use fleetmon::render::{compose_page, render_dashboard};
use fleetmon::snapshot::ServerInfo;

const DUMP_TWO_PROCS: &str = "\
+-----------------------------------------------------------------------------+
| NVIDIA-SMI 510.47.03    Driver Version: 510.47.03    CUDA Version: 11.6     |
|-------------------------------+----------------------+----------------------+
| GPU  Name        Persistence-M| Bus-Id        Disp.A | Volatile Uncorr. ECC |
|===============================+======================+======================|
|   0  NVIDIA GeForce ...  Off  | 00000000:3B:00.0 Off |                  N/A |
+-------------------------------+----------------------+----------------------+

+-----------------------------------------------------------------------------+
| Processes:                                                                  |
|  GPU   GI   CI        PID   Type   Process name                  GPU Memory |
|        ID   ID                                                   Usage      |
|=============================================================================|
|    0   N/A  N/A      1234      C   python                           2559MiB |
|    1   N/A  N/A      5678      C   python3                          7957MiB |
+-----------------------------------------------------------------------------+
";

const DUMP_NO_PROCS: &str = "\
| NVIDIA-SMI 530.41.03    Driver Version: 530.41.03    CUDA Version: 12.1     |
| Processes:                                                                  |
|=============================================================================|
|  No running processes found                                                 |
+-----------------------------------------------------------------------------+
";

fn pairs(items: &[(&str, &str)]) -> Vec<(String, String)> {
    items.iter().map(|(k, v)| (k.to_string(), v.to_string())).collect()
}

fn snapshot(host: &str, password: &str, users: &[&str]) -> ServerInfo {
    ServerInfo {
        password: password.to_string(),
        gpu: ServerCardsInfo {
            details: vec![],
            users: users.iter().map(|u| u.to_string()).collect(),
        },
        hostname: host.to_string(),
        net: pairs(&[("eth0", "10.0.0.5"), ("lo", "127.0.0.1"), ("wlan0", "null")]),
        mem: vec![],
        swap: vec![],
        cpu: vec![("system".to_string(), 300_000), ("user".to_string(), 200_000)],
        other: pairs(&[("uptime", "0 day 1 hour 0 minutes 0 sec")]),
    }
}

fn pids(slots: &[ProcessSlot]) -> Vec<String> {
    slots
        .iter()
        .map(|s| match s {
            ProcessSlot::NoProcess => "-".to_string(),
            ProcessSlot::Process { pid } => pid.clone(),
        })
        .collect()
}

#[test]
fn test_split() {
    let path = "/public/test";
    assert_eq!(normalize_gpu_user(path), "test");
}

#[test]
fn normalize_third_component() {
    assert_eq!(normalize_gpu_user("/a/b/c/d"), "c");
    assert_eq!(normalize_gpu_user("/home/alice/run.py"), "run.py");
}

#[test]
fn normalize_without_separator_is_unchanged() {
    assert_eq!(normalize_gpu_user("nogpu"), "nogpu");
}

#[test]
fn normalize_no_process_any_case() {
    assert_eq!(normalize_gpu_user("No running processes found"), "null");
    assert_eq!(normalize_gpu_user("no running processes found"), "null");
}

#[test]
fn normalize_driver_failed_passes_through() {
    assert_eq!(normalize_gpu_user("driver failed"), "driver failed");
}

#[test]
fn normalize_edge_paths() {
    assert_eq!(normalize_gpu_user("a/b"), "b");
    assert_eq!(normalize_gpu_user("/"), "");
    assert_eq!(
        normalize_gpu_users(&vec!["/x/y".to_string(), "nogpu".to_string()]),
        vec!["y".to_string(), "nogpu".to_string()]
    );
}

#[test]
fn process_users_from_dump() {
    let slots = parse_process_users(DUMP_TWO_PROCS).unwrap();
    assert_eq!(pids(&slots), vec!["1234".to_string(), "5678".to_string()]);
}

#[test]
fn process_users_none_running() {
    let slots = parse_process_users(DUMP_NO_PROCS).unwrap();
    assert_eq!(slots.len(), 1);
    assert!(matches!(slots[0], ProcessSlot::NoProcess));
}

#[test]
fn process_users_driver_unavailable() {
    let dump = "NVIDIA-SMI has failed because it couldn't communicate with the NVIDIA driver.";
    assert_eq!(parse_process_users(dump).err(), Some(ParseError::DriverUnavailable));
    assert_eq!(parse_process_users("").err(), Some(ParseError::DriverUnavailable));
}

#[test]
fn process_users_need_both_markers() {
    let dump = "Driver Version: 510.47.03\n|=====|\n| No running processes found |\n+";
    assert_eq!(parse_process_users(dump).err(), Some(ParseError::DriverUnavailable));
}

#[test]
fn split_users_without_banner_reads_whole_text() {
    let slots = split_gpu_users("| 0 N/A 42 C x |");
    assert_eq!(pids(&slots), vec!["42".to_string()]);
}

fn fields(c: &SingleCardDetail) -> Vec<String> {
    vec![
        c.name.clone(),
        c.driver_version.clone(),
        c.temperature_gpu.clone(),
        c.utilization_gpu.clone(),
        c.utilization_memory.clone(),
        c.memory_total.clone(),
        c.memory_free.clone(),
        c.memory_used.clone(),
    ]
}

#[test]
fn device_query_round_trips_fields() {
    let cards = parse_device_query(
        "NVIDIA GeForce RTX 3090 Ti, 530.41.03, 36, 0 %, 0 %, 24564 MiB, 24247 MiB, 0 MiB\n",
    );
    assert_eq!(cards.len(), 1);
    assert_eq!(
        fields(&cards[0]),
        vec!["NVIDIA GeForce RTX 3090 Ti", "530.41.03", "36", "0 %", "0 %", "24564 MiB", "24247 MiB", "0 MiB"]
    );
}

#[test]
fn device_query_missing_unit_gives_err_in_that_field_only() {
    let cards = parse_device_query(
        "A, 1, 40, 7 %, 5, 11264 MiB, 8456 MiB, 2562 MiB\nB, 1, 48, 0 %, 0 %, 11264 MiB, 3058, 7960 MiB",
    );
    assert_eq!(cards.len(), 2);
    assert_eq!(fields(&cards[0]), vec!["A", "1", "40", "7 %", "Err", "11264 MiB", "8456 MiB", "2562 MiB"]);
    assert_eq!(fields(&cards[1]), vec!["B", "1", "48", "0 %", "0 %", "11264 MiB", "Err", "7960 MiB"]);
}

#[test]
fn device_query_short_row_is_blank() {
    let cards = parse_device_query("only, three, fields");
    assert_eq!(cards.len(), 1);
    assert_eq!(fields(&cards[0]), vec![""; 8]);
    assert_eq!(fields(&SingleCardDetail::empty()), vec![""; 8]);
}

#[test]
fn empty_and_failure_snapshots() {
    let e = ServerCardsInfo::empty();
    assert_eq!(e.details.len(), 1);
    assert_eq!(e.users, vec!["null".to_string()]);
    let f = ServerCardsInfo::driver_failure();
    assert_eq!(f.details.len(), 1);
    assert_eq!(f.users, vec!["driver failed".to_string()]);
}

#[test]
fn snapshot_from_parts_keeps_user_texts() {
    let users = vec![GpuUser::NoProcess, GpuUser::WorkingDirectory("/home/bob/job".to_string())];
    let g = ServerCardsInfo::from_parts(vec![], &users);
    assert_eq!(g.users, vec!["no running processes found".to_string(), "/home/bob/job".to_string()]);
}

#[test]
fn uptime_text_decomposes() {
    assert_eq!(_convert_sec_to_str(90061), "1 day 1 hour 1 minutes 1 sec");
    assert_eq!(_convert_sec_to_str(0), "0 day 0 hour 0 minutes 0 sec");
    assert_eq!(_convert_sec_to_str(86399), "0 day 23 hour 59 minutes 59 sec");
}

#[test]
fn interface_addresses() {
    assert_eq!(interface_address(Some("V4(10.0.0.2)")), "10.0.0.2");
    assert_eq!(interface_address(Some("V6(fe80::1)")), "fe80::1");
    assert_eq!(interface_address(Some("Empty")), "null");
    assert_eq!(interface_address(None), "null");
}

#[test]
fn master_server_info_keeps_values() {
    let m = MasterServerInfo::new("123456", "http://h:7070/update");
    assert_eq!(m.password, "123456");
    assert_eq!(m.serveraddr, "http://h:7070/update");
}

#[test]
fn registry_entry_lives_for_ttl() {
    let mut reg = Registry::new(TTL_SECS);
    reg.put(snapshot("h1", PASSWORD, &[]), 1000);
    assert!(reg.get("h1", 1000 + TTL_SECS - 1).is_some());
    assert!(reg.get("h1", 1000 + TTL_SECS + 1).is_none());
    assert!(reg.get("h2", 1000).is_none());
}

#[test]
fn registry_rewrite_restarts_ttl() {
    let mut reg = Registry::new(TTL_SECS);
    reg.put(snapshot("h1", PASSWORD, &[]), 1000);
    reg.put(snapshot("h1", PASSWORD, &[]), 1030);
    assert_eq!(reg.live_entries(1030).len(), 1);
    assert!(reg.get("h1", 1030 + TTL_SECS - 1).is_some());
    assert!(reg.get("h1", 1000 + 2 * TTL_SECS).is_none());
}

#[test]
fn registry_wrong_password_keeps_stored_value() {
    let mut reg = Registry::new(TTL_SECS);
    let out = reg.update(snapshot("h1", PASSWORD, &["/a/b/first"]), PASSWORD, 1000, "10:00:00");
    assert_eq!(out, UpdateOutcome::Accepted);
    let out = reg.update(snapshot("h1", "guess", &["/a/b/second"]), PASSWORD, 1010, "10:00:10");
    assert_eq!(out, UpdateOutcome::WrongPassword);
    let stored = reg.get("h1", 1010).unwrap();
    assert_eq!(stored.gpu.users, vec!["/a/b/first".to_string()]);
    assert_eq!(out.reply("h1"), "password wrong!");
    assert_eq!(UpdateOutcome::Accepted.reply("h1"), "welcome h1!");
}

#[test]
fn registry_update_stamps_receipt_time() {
    let mut reg = Registry::new(TTL_SECS);
    reg.update(snapshot("h1", PASSWORD, &[]), PASSWORD, 1000, "10:00:00");
    let stored = reg.get("h1", 1000).unwrap();
    let last = stored.other.last().unwrap();
    assert_eq!(last.0, "new_nowtime");
    assert_eq!(last.1, "10:00:00");
}

#[test]
fn registry_lists_hosts_in_order() {
    let mut reg = Registry::new(TTL_SECS);
    reg.put(snapshot("node-b", PASSWORD, &[]), 0);
    reg.put(snapshot("node-a", PASSWORD, &[]), 0);
    reg.put(snapshot("node-c", PASSWORD, &[]), 0);
    let names: Vec<String> = reg.live_entries(1).iter().map(|e| e.hostname.clone()).collect();
    assert_eq!(names, vec!["node-a", "node-b", "node-c"]);
}

#[test]
fn dashboard_row_end_to_end() {
    let mut reg = Registry::new(TTL_SECS);
    let snap = snapshot("h1", PASSWORD, &["no running processes found"]);
    reg.update(snap, PASSWORD, 1000, "10:00:00");
    let live = reg.live_entries(1001);
    let rows = database_process(&live, "10:00:01");
    assert_eq!(rows.len(), 1);
    let row = &rows[0];
    assert_eq!(row.hostname, "h1");
    assert_eq!(row.cpu_system, "30 %");
    assert_eq!(row.cpu_user, "20 %");
    assert_eq!(row.cpu_temp, "0 C");
    assert_eq!(row.gpu_user, "null");
    assert_eq!(row.addr, "eth0: 10.0.0.5");
    assert_eq!(row.heartbeat, "10:00:00");
}

#[test]
fn dashboard_row_cells_for_cards() {
    let mut snap = snapshot("h2", PASSWORD, &["/home/alice/train.py", "no running processes found"]);
    snap.gpu.details = parse_device_query(
        "RTX A, 510.47.03, 40, 3 %, 1 %, 11264 MiB, 8456 MiB, 2562 MiB\nRTX B, 510.47.03, 48, 0 %, 0 %, 11264 MiB, 3058 MiB, 7960 MiB",
    );
    snap.cpu.push(("temp".to_string(), 45_500_000));
    snap.cpu.push(("system".to_string(), 125_000));
    let row = dashboard_row("h2", &snap, "12:00:00");
    assert_eq!(row.gpu_device, "RTX A (510.47.03)\nRTX B (510.47.03)");
    assert_eq!(row.gpu_util, "3 %\n0 %");
    assert_eq!(row.gpu_memory, "2562 MiB/11264 MiB\n7960 MiB/11264 MiB");
    assert_eq!(row.gpu_temp, "40 C\n48 C");
    assert_eq!(row.gpu_user, "train.py\nnull");
    assert_eq!(row.cpu_temp, "46 C");
    assert_eq!(row.cpu_system, "12 %");
    assert_eq!(row.heartbeat, "12:00:00");
}

#[test]
fn dashboard_drops_expired_host() {
    let mut reg = Registry::new(TTL_SECS);
    reg.put(snapshot("h1", PASSWORD, &[]), 1000);
    reg.put(snapshot("h2", PASSWORD, &[]), 1000);
    reg.put(snapshot("h2", PASSWORD, &[]), 1050);
    reg.put(snapshot("h2", PASSWORD, &[]), 1100);
    let now = 1000 + TTL_SECS + 10;
    let rows = database_process(&reg.live_entries(now), "x");
    let names: Vec<String> = rows.iter().map(|r| r.hostname.clone()).collect();
    assert_eq!(names, vec!["h2"]);
    let page = render_dashboard(&reg, now, "x", "2024-01-01 00:00:00", "0.1.0");
    assert!(page.contains("h2"));
    assert!(!page.contains("h1"));
}

#[test]
fn dashboard_page_layout() {
    let mut reg = Registry::new(TTL_SECS);
    reg.put(snapshot("h1", PASSWORD, &["no running processes found"]), 0);
    let page = render_dashboard(&reg, 1, "00:00:01", "2024-01-01 00:00:01", "0.1.0");
    assert!(page.starts_with(">> 2024-01-01 00:00:01 [AI Sec Lab]\n"));
    assert!(page.ends_with(">> gpu@t: gpu temperature\n>> Powered by Jay (v0.1.0)"));
    assert!(page.contains("30 %"));
    assert!(page.contains("cpu@s"));
    assert!(page.contains("heartbeat"));
    assert_eq!(
        compose_page("d", "T\n", "1"),
        ">> d [AI Sec Lab]\nT\n>> cpu@s: cpu system space utilization\n>> cpu@u: cpu user space utilization\n>> cpu@t: cpu temperature\n>> gpu@u: gpu utilization\n>> gpu@m: gpu memory\n>> gpu@t: gpu temperature\n>> Powered by Jay (v1)"
    );
}

#[test]
fn gpu_report_falls_back_to_empty() {
    let collected = ServerCardsInfo::from_parts(vec![], &vec![GpuUser::NoProcess]);
    let r = gpu_report(true, Some(collected));
    assert_eq!(r.users, vec!["no running processes found".to_string()]);
    assert_eq!(r.details.len(), 0);
    let r = gpu_report(true, None);
    assert_eq!(r.users, vec!["null".to_string()]);
    let collected = ServerCardsInfo::from_parts(vec![], &vec![GpuUser::NoProcess]);
    let r = gpu_report(false, Some(collected));
    assert_eq!(r.users, vec!["null".to_string()]);
    assert_eq!(r.details.len(), 1);
}

#[test]
fn address_cell_sorted_unique_without_loopback() {
    let mut snap = snapshot("h3", PASSWORD, &[]);
    snap.net = pairs(&[
        ("wlan0", "192.168.0.9"),
        ("eth1", "10.1.0.1"),
        ("lo6", "::1"),
        ("lo2", "127.0.1.1"),
        ("eth0", "10.0.0.1"),
        ("wlan0", "192.168.0.10"),
    ]);
    let row = dashboard_row("h3", &snap, "t");
    assert_eq!(row.addr, "eth0: 10.0.0.1\neth1: 10.1.0.1\nwlan0: 192.168.0.10");
}

#[test]
fn rounding_halves_to_even() {
    let mut snap = snapshot("h4", PASSWORD, &[]);
    snap.cpu = vec![("system".to_string(), 135_000), ("user".to_string(), 5_000)];
    let row = dashboard_row("h4", &snap, "t");
    assert_eq!(row.cpu_system, "14 %");
    assert_eq!(row.cpu_user, "0 %");
}

#[test]
fn escape_characters_never_reach_the_table() {
    let mut reg = Registry::new(TTL_SECS);
    let mut snap = snapshot("h\u{1b}[\u{1F468}\u{200D}\u{1F469}\u{200D}\u{1F467}\u{200D}\u{1F466}m", PASSWORD, &[]);
    snap.gpu.users = vec!["\u{1b}[31mred".to_string()];
    reg.put(snap, 0);
    let page = render_dashboard(&reg, 1, "t", "d", "v");
    assert!(!page.contains('\u{1b}'));
    assert!(page.contains("[31mred"));
}

#[test]
fn registry_entry_live_at_expiry_and_gone_after() {
    let mut reg = Registry::new(TTL_SECS);
    reg.put(snapshot("h1", PASSWORD, &[]), 1000);
    assert!(reg.get("h1", 1000 + TTL_SECS).is_some());
    assert!(reg.get("h1", 1000 + TTL_SECS + 1).is_none());
}

#[test]
fn registry_put_prunes_expired_entries() {
    let mut reg = Registry::new(TTL_SECS);
    reg.put(snapshot("old", PASSWORD, &[]), 0);
    reg.put(snapshot("new", PASSWORD, &[]), 1000);
    assert!(reg.get("old", 0).is_none());
    assert!(reg.get("new", 1000).is_some());
    assert_eq!(reg.live_entries(0).len(), 1);
}
