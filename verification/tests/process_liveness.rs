use code_core::process_liveness::{check_pid_alive, pid_proc_path};

#[test]
fn implausible_process_is_not_alive() {
    let pid = i32::MAX;
    assert_eq!(check_pid_alive(pid), Some(false));
}

#[test]
fn proc_path_names_the_pid() {
    assert_eq!(pid_proc_path(42), "/proc/42");
    assert_eq!(pid_proc_path(-7), "/proc/-7");
}
