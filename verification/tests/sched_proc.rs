use lib::credentials::Credentials;
use lib::processor::{
    idle_deadline, idle_poll_wait, precise_idle_wait, processor_load, select_cpu_for_child, select_cpu_for_new_process,
    select_online_cpu, LocalRunQueue, IDLE_POLL_INTERVAL_NS,
};
use lib::procfs::{
    linux_state, parse_proc_path, parse_u32, process_name, render_comm, render_status, ProcPath,
    ProcState, ProcStatusSnapshot,
};

#[test]
fn run_queue_is_fifo_without_duplicates() {
    let mut q = LocalRunQueue::new();
    assert!(q.enqueue(5));
    assert!(q.enqueue(7));
    assert!(!q.enqueue(5));
    assert_eq!(q.len(), 2);
    assert_eq!(q.dequeue(), Some(5));
    assert!(q.enqueue(5));
    assert_eq!(q.dequeue(), Some(7));
    assert_eq!(q.dequeue(), Some(5));
    assert_eq!(q.dequeue(), None);
}

#[test]
fn cpu_selection() {
    assert_eq!(processor_load(true, 2), 3);
    assert_eq!(processor_load(false, 0), 0);
    let loads = vec![Some(2), None, Some(1), Some(1)];
    assert_eq!(select_online_cpu(&loads, 0, 9), 2);
    assert_eq!(select_online_cpu(&loads, 3, 9), 3);
    assert_eq!(select_online_cpu(&vec![Some(0), Some(0)], 1, 9), 1);
    assert_eq!(select_online_cpu(&vec![None, None], 0, 9), 9);
    assert_eq!(select_online_cpu(&vec![Some(usize::MAX)], 0, 4), 4);
    let mut counter = 5usize;
    assert_eq!(select_cpu_for_new_process(&mut counter, &vec![Some(0), Some(0)], 9), 1);
    assert_eq!(counter, 6);
    let mut counter = usize::MAX;
    select_cpu_for_new_process(&mut counter, &vec![Some(0)], 9);
    assert_eq!(counter, 0);
    assert_eq!(select_cpu_for_child(3, &vec![Some(5)], 9), 0);
    assert_eq!(select_cpu_for_child(0, &vec![Some(0), Some(0), Some(0)], 9), 1);
    assert_eq!(select_cpu_for_child(2, &vec![Some(0), Some(0), Some(0)], 9), 0);
}

#[test]
fn proc_states_and_names() {
    assert_eq!(linux_state(ProcState::Runnable), "R (running)");
    assert_eq!(linux_state(ProcState::Blocked), "S (sleeping)");
    assert_eq!(linux_state(ProcState::Exited), "Z (zombie)");
    assert_eq!(linux_state(ProcState::Faulted), "D (disk sleep)");
    let mut name = [0u8; 16];
    name[..4].copy_from_slice(b"init");
    assert_eq!(process_name(&name), "init");
    assert_eq!(render_comm(&name), b"init\n".to_vec());
    let full = [b'a'; 16];
    assert_eq!(process_name(&full), "a".repeat(16));
    let mut bad = [0u8; 16];
    bad[0] = 0xff;
    assert_eq!(process_name(&bad), "unknown");
}

#[test]
fn status_file() {
    let mut name = [0u8; 16];
    name[..2].copy_from_slice(b"sh");
    let mut creds = Credentials::root();
    creds.uid = 1000;
    creds.euid = 1001;
    creds.gid = 100;
    creds.supplementary_groups = vec![4, 24];
    let snap = ProcStatusSnapshot {
        pid: 12,
        parent: Some(1),
        state: ProcState::Running,
        name,
        credentials: creds,
        umask: 0o22,
    };
    let text = String::from_utf8(render_status(&snap)).unwrap();
    assert_eq!(
        text,
        "Name:\tsh\nState:\tR (running)\nTgid:\t12\nPid:\t12\nPPid:\t1\nUid:\t1000\t1001\t0\t0\nGid:\t100\t0\t0\t0\nGroups:\t4 24\nUmask:\t0022\n"
    );
    let orphan = ProcStatusSnapshot { parent: None, credentials: Credentials::root(), ..snap };
    let text = String::from_utf8(render_status(&orphan)).unwrap();
    assert!(text.contains("PPid:\t0\n"));
    assert!(text.contains("Groups:\t\nUmask"));
}

#[test]
fn proc_paths() {
    assert_eq!(parse_proc_path(b"/proc/self"), Some(ProcPath::SelfDir));
    assert_eq!(parse_proc_path(b"/proc/self/status"), Some(ProcPath::SelfStatus));
    assert_eq!(parse_proc_path(b"/proc/self/comm"), Some(ProcPath::SelfComm));
    assert_eq!(parse_proc_path(b"/proc/self/maps"), None);
    assert_eq!(parse_proc_path(b"/proc/42"), Some(ProcPath::PidDir(42)));
    assert_eq!(parse_proc_path(b"/proc/+42/status"), Some(ProcPath::PidStatus(42)));
    assert_eq!(parse_proc_path(b"/proc/42/comm"), Some(ProcPath::PidComm(42)));
    assert_eq!(parse_proc_path(b"/proc/42/"), Some(ProcPath::Missing));
    assert_eq!(parse_proc_path(b"/proc/42/status/x"), Some(ProcPath::Missing));
    assert_eq!(parse_proc_path(b"/proc/cpuinfo"), None);
    assert_eq!(parse_proc_path(b"/sys/42"), None);
    assert_eq!(parse_proc_path(b"/proc/4294967296"), None);
    assert_eq!(parse_u32(b"4294967295"), Some(u32::MAX));
    assert_eq!(parse_u32(b"+"), None);
    assert_eq!(parse_u32(b""), None);
    assert_eq!(parse_u32(b"-1"), None);
    assert_eq!(parse_u32(b"007"), Some(7));
}

#[test]
fn idle_cpus_spin_to_the_next_deadline() {
    assert_eq!(idle_deadline(Some(50), None, Some(30)), Some(30));
    assert_eq!(idle_deadline(None, Some(70), None), Some(70));
    assert_eq!(idle_deadline(None, None, None), None);
    assert_eq!(precise_idle_wait(Some(5_000_000), 1_000_000), Some(4_000_000));
    assert_eq!(precise_idle_wait(Some(50_000_000), 1_000_000), None);
    assert_eq!(precise_idle_wait(Some(10), 20), None);
    assert_eq!(precise_idle_wait(None, 20), None);
    assert_eq!(idle_poll_wait(Some(1_500), 1_000), 500);
    assert_eq!(idle_poll_wait(Some(50_000_000), 0), IDLE_POLL_INTERVAL_NS);
    assert_eq!(idle_poll_wait(Some(10), 20), 0);
    assert_eq!(idle_poll_wait(None, 0), IDLE_POLL_INTERVAL_NS);
}
