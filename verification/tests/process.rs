use linmon::error::{ReadFailure, RecordError};
use linmon::procfs::listing::{pid_of_entry, Processes};
use linmon::procfs::process::Process;
use linmon::procfs::state::ProcessState;

#[test]
fn test_process_parse_412_kernel() {
    let pid1 = "1 (tmux: client) S 0 1 1 0 -1 4210944 61449 62034795 78 5512 161 316 380282 71962 20 0 1 0 5 229601280 3065 18446744073709551615 1 1 0 0 0 0 671173123 4096 1260 0 0 0 17 0 0 0 65755103 0 0 0 0 0 0 0 0 0 0";
    let p = Process::parse(pid1.to_string()).unwrap();
    let test = Process {
        pid: "1".parse::<i64>().unwrap(),
        comm: "(tmux: client)".to_string(),
        state: ProcessState::Sleeping,
        ppid: "0".parse::<i64>().unwrap(),
        pgrp: "1".parse::<i64>().unwrap(),
        session: "1".parse::<i64>().unwrap(),
        tty_nr: "0".parse::<i64>().unwrap(),
        tpgid: "-1".parse::<i64>().unwrap(),
        flags: "4210944".parse::<i64>().unwrap(),
        minflt: "61449".parse::<i64>().unwrap(),
        cminflt: "62034795".parse::<i64>().unwrap(),
        majflt: "78".parse::<i64>().unwrap(),
        cmajflt: "5512".parse::<i64>().unwrap(),
        utime: "161".parse::<i64>().unwrap(),
        stime: "316".parse::<i64>().unwrap(),
        cutime: "380282".parse::<i64>().unwrap(),
        cstime: "71962".parse::<i64>().unwrap(),
        priority: "20".parse::<i64>().unwrap(),
        nice: "0".parse::<i64>().unwrap(),
        num_threads: "1".parse::<i64>().unwrap(),
        itrealvalue: "0".parse::<i64>().unwrap(),
        starttime: "5".parse::<i128>().unwrap(),
        vsize: "229601280".parse::<i64>().unwrap(),
        rss: "3065".parse::<i64>().unwrap(),
        rsslim: "18446744073709551615".parse::<i128>().unwrap(),
        startcode: "1".parse::<i64>().unwrap(),
        endcode: "1".parse::<i64>().unwrap(),
        startstack: "0".parse::<i64>().unwrap(),
        kstkesp: "0".parse::<i64>().unwrap(),
        signal: "0".parse::<i64>().unwrap(),
        blocked: "0".parse::<i64>().unwrap(),
        sigignore: "671173123".parse::<i64>().unwrap(),
        sigcatch: "4096".parse::<i64>().unwrap(),
        wchan: "1260".parse::<i64>().unwrap(),
        nswap: "0".parse::<i64>().unwrap(),
        cnswap: "0".parse::<i64>().unwrap(),
        exit_signal: "0".parse::<i64>().unwrap(),
        processor: "17".parse::<i64>().unwrap(),
        rt_priority: "0".parse::<i64>().unwrap(),
        policy: "0".parse::<i64>().unwrap(),
        delayacct_blkio_ticks: "0".parse::<i128>().unwrap(),
        guest_time: "65755103".parse::<i64>().unwrap(),
        cguest_time: "0".parse::<i64>().unwrap(),
        start_data: "0".parse::<i64>().unwrap(),
        end_data: "0".parse::<i64>().unwrap(),
        start_brk: "0".parse::<i64>().unwrap(),
        arg_start: "0".parse::<i64>().unwrap(),
        arg_end: "0".parse::<i64>().unwrap(),
        env_start: "0".parse::<i64>().unwrap(),
        env_end: "0".parse::<i64>().unwrap(),
        exit_code: "0".parse::<i64>().unwrap(),
    };
    assert_eq!(p, test)
}

#[test]
fn test_process_parse_48_kernel() {
    let pid1 = "1 (systemd) S 0 1 1 0 -1 4194560 15260 9952373 112 2320 1425 1853 17764 8432 20 0 1 0 10 38981632 1187 18446744073709551615 1 1 0 0 0 0 671173123 4096 1260 0 0 0 17 1 0 0 7 0 0 0 0 0 0 0 0 0 0";
    let p = Process::parse(pid1.to_string()).unwrap();
    let test = Process {
        pid: "1".parse::<i64>().unwrap(),
        comm: "(systemd)".to_string(),
        state: ProcessState::Sleeping,
        ppid: "0".parse::<i64>().unwrap(),
        pgrp: "1".parse::<i64>().unwrap(),
        session: "1".parse::<i64>().unwrap(),
        tty_nr: "0".parse::<i64>().unwrap(),
        tpgid: "-1".parse::<i64>().unwrap(),
        flags: "4194560".parse::<i64>().unwrap(),
        minflt: "15260".parse::<i64>().unwrap(),
        cminflt: "9952373".parse::<i64>().unwrap(),
        majflt: "112".parse::<i64>().unwrap(),
        cmajflt: "2320".parse::<i64>().unwrap(),
        utime: "1425".parse::<i64>().unwrap(),
        stime: "1853".parse::<i64>().unwrap(),
        cutime: "17764".parse::<i64>().unwrap(),
        cstime: "8432".parse::<i64>().unwrap(),
        priority: "20".parse::<i64>().unwrap(),
        nice: "0".parse::<i64>().unwrap(),
        num_threads: "1".parse::<i64>().unwrap(),
        itrealvalue: "0".parse::<i64>().unwrap(),
        starttime: "10".parse::<i128>().unwrap(),
        vsize: "38981632".parse::<i64>().unwrap(),
        rss: "1187".parse::<i64>().unwrap(),
        rsslim: "18446744073709551615".parse::<i128>().unwrap(),
        startcode: "1".parse::<i64>().unwrap(),
        endcode: "1".parse::<i64>().unwrap(),
        startstack: "0".parse::<i64>().unwrap(),
        kstkesp: "0".parse::<i64>().unwrap(),
        signal: "0".parse::<i64>().unwrap(),
        blocked: "0".parse::<i64>().unwrap(),
        sigignore: "671173123".parse::<i64>().unwrap(),
        sigcatch: "4096".parse::<i64>().unwrap(),
        wchan: "1260".parse::<i64>().unwrap(),
        nswap: "0".parse::<i64>().unwrap(),
        cnswap: "0".parse::<i64>().unwrap(),
        exit_signal: "0".parse::<i64>().unwrap(),
        processor: "17".parse::<i64>().unwrap(),
        rt_priority: "1".parse::<i64>().unwrap(),
        policy: "0".parse::<i64>().unwrap(),
        delayacct_blkio_ticks: "0".parse::<i128>().unwrap(),
        guest_time: "7".parse::<i64>().unwrap(),
        cguest_time: "0".parse::<i64>().unwrap(),
        start_data: "0".parse::<i64>().unwrap(),
        end_data: "0".parse::<i64>().unwrap(),
        start_brk: "0".parse::<i64>().unwrap(),
        arg_start: "0".parse::<i64>().unwrap(),
        arg_end: "0".parse::<i64>().unwrap(),
        env_start: "0".parse::<i64>().unwrap(),
        env_end: "0".parse::<i64>().unwrap(),
        exit_code: "0".parse::<i64>().unwrap(),
    };
    assert_eq!(p, test)
}

#[test]
fn test_process_parse_44_kernel() {
    let pid1 = "1 (init) S 0 1 1 0 -1 4210944 41009 3455307792 28 1892 62 234 12822158 2328772 20 0 1 0 15 36491264 1007 18446744073709551615 1 1 0 0 0 0 0 4096 536962595 0 0 0 17 1 0 0 1 0 0 0 0 0 0 0 0 0 0";
    let p = Process::parse(pid1.to_string()).unwrap();
    let test = Process {
        pid: "1".parse::<i64>().unwrap(),
        comm: "(init)".to_string(),
        state: ProcessState::Sleeping,
        ppid: "0".parse::<i64>().unwrap(),
        pgrp: "1".parse::<i64>().unwrap(),
        session: "1".parse::<i64>().unwrap(),
        tty_nr: "0".parse::<i64>().unwrap(),
        tpgid: "-1".parse::<i64>().unwrap(),
        flags: "4210944".parse::<i64>().unwrap(),
        minflt: "41009".parse::<i64>().unwrap(),
        cminflt: "3455307792".parse::<i64>().unwrap(),
        majflt: "28".parse::<i64>().unwrap(),
        cmajflt: "1892".parse::<i64>().unwrap(),
        utime: "62".parse::<i64>().unwrap(),
        stime: "234".parse::<i64>().unwrap(),
        cutime: "12822158".parse::<i64>().unwrap(),
        cstime: "2328772".parse::<i64>().unwrap(),
        priority: "20".parse::<i64>().unwrap(),
        nice: "0".parse::<i64>().unwrap(),
        num_threads: "1".parse::<i64>().unwrap(),
        itrealvalue: "0".parse::<i64>().unwrap(),
        starttime: "15".parse::<i128>().unwrap(),
        vsize: "36491264".parse::<i64>().unwrap(),
        rss: "1007".parse::<i64>().unwrap(),
        rsslim: "18446744073709551615".parse::<i128>().unwrap(),
        startcode: "1".parse::<i64>().unwrap(),
        endcode: "1".parse::<i64>().unwrap(),
        startstack: "0".parse::<i64>().unwrap(),
        kstkesp: "0".parse::<i64>().unwrap(),
        signal: "0".parse::<i64>().unwrap(),
        blocked: "0".parse::<i64>().unwrap(),
        sigignore: "0".parse::<i64>().unwrap(),
        sigcatch: "4096".parse::<i64>().unwrap(),
        wchan: "536962595".parse::<i64>().unwrap(),
        nswap: "0".parse::<i64>().unwrap(),
        cnswap: "0".parse::<i64>().unwrap(),
        exit_signal: "0".parse::<i64>().unwrap(),
        processor: "17".parse::<i64>().unwrap(),
        rt_priority: "1".parse::<i64>().unwrap(),
        policy: "0".parse::<i64>().unwrap(),
        delayacct_blkio_ticks: "0".parse::<i128>().unwrap(),
        guest_time: "1".parse::<i64>().unwrap(),
        cguest_time: "0".parse::<i64>().unwrap(),
        start_data: "0".parse::<i64>().unwrap(),
        end_data: "0".parse::<i64>().unwrap(),
        start_brk: "0".parse::<i64>().unwrap(),
        arg_start: "0".parse::<i64>().unwrap(),
        arg_end: "0".parse::<i64>().unwrap(),
        env_start: "0".parse::<i64>().unwrap(),
        env_end: "0".parse::<i64>().unwrap(),
        exit_code: "0".parse::<i64>().unwrap(),
    };
    assert_eq!(p, test)
}

fn names(list: &[&str]) -> Vec<String> {
    list.iter().map(|s| s.to_string()).collect()
}

#[test]
fn test_is_alive() {
    let running = Processes::from_names(&names(&["1", "2", "self", "4242"])).unwrap();
    let t = Process::is_alive(1, &running);
    assert_eq!(t, true)
}

#[test]
fn is_alive_is_false_for_a_process_that_is_not_there() {
    let running = Processes::from_names(&names(&["1", "2", "self", "4242"])).unwrap();
    assert_eq!(Process::is_alive(100000000, &running), false);
    assert_eq!(Process::is_alive(-1, &running), false);
    let none = Processes::from_names(&names(&[])).unwrap();
    assert_eq!(Process::is_alive(1, &none), false);
    assert!(running.contains(4242));
    assert!(!running.contains(3));
}

const FULL: &str = "1 (systemd) S 0 1 1 0 -1 4194560 15260 9952373 112 2320 1425 1853 17764 8432 20 0 1 0 10 38981632 1187 18446744073709551615 1 1 0 0 0 0 671173123 4096 1260 0 0 0 17 1 0 0 7 0 0 0 0 0 0 0 0 0";

fn line_with(index: usize, token: &str) -> String {
    let mut toks: Vec<&str> = FULL.split(' ').collect();
    toks[index] = token;
    toks.join(" ")
}

fn first_fields(n: usize) -> String {
    let toks: Vec<&str> = FULL.split(' ').collect();
    toks[..n].join(" ")
}

#[test]
fn a_line_with_the_whole_schema_and_nothing_more_is_read() {
    assert_eq!(FULL.split(' ').count(), 51);
    let p = Process::parse(FULL.to_string()).unwrap();
    assert_eq!(p.get_pid(), 1);
    assert_eq!(p.comm, "(systemd)");
    assert_eq!(p.get_state(), "S");
    assert_eq!(p.ppid, 0);
    assert_eq!(p.tpgid, -1);
    assert_eq!(p.starttime, 10);
    assert_eq!(p.rsslim, 18446744073709551615);
    assert_eq!(p.rt_priority, 1);
    assert_eq!(p.guest_time, 7);
    assert_eq!(p.exit_code, 0);
}

#[test]
fn the_numbers_come_out_in_the_order_of_the_line() {
    let mut line = String::from("7 (a) R");
    for k in 0..48 {
        line.push_str(&format!(" {}", 100 + k));
    }
    let p = Process::parse(line).unwrap();
    let counters = p.counters();
    assert_eq!(counters.len(), 48);
    for k in 0..48 {
        assert_eq!(counters[k], 100 + k as i128);
    }
    assert_eq!(p.ppid, 100);
    assert_eq!(p.starttime, 118);
    assert_eq!(p.rsslim, 121);
    assert_eq!(p.kstkesp, 125);
    assert_eq!(p.signal, 126);
    assert_eq!(p.delayacct_blkio_ticks, 137);
    assert_eq!(p.start_brk, 142);
    assert_eq!(p.exit_code, 147);
}

#[test]
fn three_fields_fewer_than_the_schema_is_a_truncated_record() {
    assert_eq!(Process::parse(first_fields(48)).unwrap_err(), RecordError::TruncatedRecord);
    assert_eq!(Process::parse(first_fields(50)).unwrap_err(), RecordError::TruncatedRecord);
    assert_eq!(Process::parse(first_fields(3)).unwrap_err(), RecordError::TruncatedRecord);
    assert!(Process::parse(first_fields(51)).is_ok());
}

#[test]
fn a_line_that_ends_before_its_state_is_malformed() {
    assert_eq!(Process::parse(String::new()).unwrap_err(), RecordError::MalformedRecord);
    assert_eq!(Process::parse("   \n".to_string()).unwrap_err(), RecordError::MalformedRecord);
    assert_eq!(Process::parse("1".to_string()).unwrap_err(), RecordError::MalformedRecord);
    assert_eq!(Process::parse("1 (init)".to_string()).unwrap_err(), RecordError::MalformedRecord);
    assert_eq!(
        Process::parse("1 (tmux: client)".to_string()).unwrap_err(),
        RecordError::MalformedRecord
    );
}

#[test]
fn an_unknown_state_is_reported() {
    assert_eq!(Process::parse(line_with(2, "Q")).unwrap_err(), RecordError::UnknownState);
    assert_eq!(Process::parse(line_with(2, "SS")).unwrap_err(), RecordError::UnknownState);
    assert_eq!(Process::parse(line_with(2, "s")).unwrap_err(), RecordError::UnknownState);
    assert_eq!(Process::parse("1 (init) Q".to_string()).unwrap_err(), RecordError::UnknownState);
}

#[test]
fn a_field_that_is_no_number_is_reported() {
    assert_eq!(Process::parse(line_with(0, "one")).unwrap_err(), RecordError::InvalidNumber);
    assert_eq!(Process::parse(line_with(3, "0x10")).unwrap_err(), RecordError::InvalidNumber);
    assert_eq!(Process::parse(line_with(50, "-")).unwrap_err(), RecordError::InvalidNumber);
    // 2^64 - 1 fits the wide fields only
    assert_eq!(
        Process::parse(line_with(22, "18446744073709551615")).unwrap_err(),
        RecordError::InvalidNumber
    );
    assert!(Process::parse(line_with(21, "18446744073709551615")).is_ok());
    assert!(Process::parse(line_with(40, "18446744073709551615")).is_ok());
    assert_eq!(
        Process::parse(line_with(24, "170141183460469231731687303715884105728")).unwrap_err(),
        RecordError::InvalidNumber
    );
}

#[test]
fn the_first_field_that_fails_decides_the_error() {
    let toks: Vec<&str> = FULL.split(' ').collect();
    let mut short: Vec<&str> = toks[..40].to_vec();
    short[2] = "Q";
    assert_eq!(Process::parse(short.join(" ")).unwrap_err(), RecordError::UnknownState);
    short[2] = "S";
    short[10] = "x";
    assert_eq!(Process::parse(short.join(" ")).unwrap_err(), RecordError::InvalidNumber);
    short[0] = "x";
    short[2] = "Q";
    assert_eq!(Process::parse(short.join(" ")).unwrap_err(), RecordError::InvalidNumber);
}

#[test]
fn a_command_of_any_number_of_words_is_one_field() {
    let p = Process::parse(line_with(1, "(a b  c\td)")).unwrap();
    assert_eq!(p.comm, "(a b c d)");
    assert_eq!(p.state, ProcessState::Sleeping);
    let q = Process::parse(FULL.to_string()).unwrap();
    assert_eq!(p.counters(), q.counters());
    assert_eq!(p.pid, q.pid);
}

#[test]
fn the_command_ends_at_the_first_closing_field() {
    // `(a)` closes the name, so `b)` stands where the state should
    assert_eq!(Process::parse(line_with(1, "(a) b)")).unwrap_err(), RecordError::UnknownState);
    let p = Process::parse(line_with(1, "((a)")).unwrap();
    assert_eq!(p.comm, "((a)");
    let q = Process::parse(line_with(1, "(a (b) c)")).unwrap_err();
    assert_eq!(q, RecordError::UnknownState);
}

#[test]
fn a_command_without_parentheses_is_its_field_alone() {
    let p = Process::parse(line_with(1, "init")).unwrap();
    assert_eq!(p.comm, "init");
    assert_eq!(p.ppid, 0);
    // an opening field that nothing closes is the name by itself
    let q = Process::parse(line_with(1, "(init")).unwrap();
    assert_eq!(q.comm, "(init");
    assert_eq!(q.exit_code, 0);
}

#[test]
fn equality_leaves_the_process_id_out() {
    let a = Process::parse(FULL.to_string()).unwrap();
    let b = Process::parse(line_with(0, "2")).unwrap();
    assert!(a == b);
    assert!(!a.identical(&b));
    assert!(a.identical(&a.clone()));
    let c = Process::parse(line_with(50, "3")).unwrap();
    assert!(a != c);
    assert!(!a.identical(&c));
    let d = Process::parse(line_with(1, "(systemE)")).unwrap();
    assert!(a != d);
    let e = Process::parse(line_with(2, "R")).unwrap();
    assert!(a != e);
}

#[test]
fn each_state_has_its_letter() {
    let all = [
        (ProcessState::Running, "R"),
        (ProcessState::Sleeping, "S"),
        (ProcessState::Waiting, "D"),
        (ProcessState::Zombie, "Z"),
        (ProcessState::Stopped, "T"),
        (ProcessState::Tracing, "t"),
        (ProcessState::Dead, "X"),
        (ProcessState::Wakekill, "K"),
        (ProcessState::Waking, "W"),
        (ProcessState::Parked, "P"),
        (ProcessState::Idle, "I"),
    ];
    for (state, letter) in all {
        assert_eq!(state.to_string(), letter);
        assert_eq!(ProcessState::from_str(letter), Ok(state));
        assert_eq!(ProcessState::from_str(&state.to_string()), Ok(state));
    }
    assert_eq!(ProcessState::from_str(""), Err(RecordError::UnknownState));
    assert_eq!(ProcessState::from_str("RS"), Err(RecordError::UnknownState));
    assert_eq!(ProcessState::from_str("r"), Err(RecordError::UnknownState));
    assert_eq!(ProcessState::from_chars(&['Z']), Ok(ProcessState::Zombie));
}

#[test]
fn a_failed_read_becomes_an_error() {
    assert_eq!(
        Process::new(Err(ReadFailure::NotFound)).unwrap_err(),
        RecordError::ProcessNotFound
    );
    assert_eq!(
        Process::new(Err(ReadFailure::Unavailable)).unwrap_err(),
        RecordError::IoUnavailable
    );
    let p = Process::new(Ok(FULL.to_string())).unwrap();
    assert!(p.identical(&Process::parse(FULL.to_string()).unwrap()));
    assert_eq!(
        Processes::new(Err(ReadFailure::Unavailable)).unwrap_err(),
        RecordError::IoUnavailable
    );
    assert_eq!(
        Processes::new(Err(ReadFailure::NotFound)).unwrap_err(),
        RecordError::IoUnavailable
    );
}

#[test]
fn the_command_line_is_passed_on_or_replaced() {
    assert_eq!(Process::cmdline(Ok("/sbin/init\0splash\0".to_string())), "/sbin/init\0splash\0");
    assert_eq!(Process::cmdline(Ok(String::new())), "");
    assert_eq!(Process::cmdline(Err(ReadFailure::NotFound)), "Failed to find PID");
    assert_eq!(Process::cmdline(Err(ReadFailure::Unavailable)), "Failed to find PID");
}

#[test]
fn only_numeric_names_are_processes() {
    let listing = names(&[
        "1", "self", "4242", "net", "-7", "+3", "007", "1a", "", " 5", "thread-self",
        "9223372036854775807", "9223372036854775808", "\u{661}\u{662}", "12\n",
    ]);
    let ps = Processes::new(Ok(listing)).unwrap();
    assert_eq!(ps.processes(), vec![1, 4242, 7, 9223372036854775807]);
    assert_eq!(Processes::from_names(&names(&[])).unwrap().processes(), Vec::<i64>::new());
}

#[test]
fn an_entry_is_a_process_only_if_its_name_is_numeric() {
    assert_eq!(pid_of_entry("12", true), Some(12));
    assert_eq!(pid_of_entry("12", false), None);
    assert_eq!(pid_of_entry("-12", true), Some(-12));
    assert_eq!(pid_of_entry("self", true), None);
    assert_eq!(pid_of_entry("self", false), None);
}

#[test]
fn the_files_of_a_process_lie_under_its_id() {
    assert_eq!(Process::stat_path(1), "/proc/1/stat");
    assert_eq!(Process::cmdline_path(4242), "/proc/4242/cmdline");
    assert_eq!(Process::file_path(100000000, "status"), "/proc/100000000/status");
    assert_eq!(Process::file_path(0, ""), "/proc/0/");
    assert_eq!(Process::stat_path(-7), "/proc/-7/stat");
}
