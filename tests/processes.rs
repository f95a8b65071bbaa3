use netmon::models::ProcessIO;
use netmon::processes::{
    command_from_cmdline, is_pid_name, lookup_in_scan, parse_io_counters, process_name_from_status,
    socket_inode_of_link, CacheAnswer, ProcessCache, ProcessEntry,
};

fn entry(pid: &str, name: &str, inodes: Vec<u64>) -> ProcessEntry {
    ProcessEntry { pid: pid.to_string(), name: name.to_string(), command: format!("{} --run", name), inodes }
}

#[test]
fn status_file_gives_name() {
    assert_eq!(process_name_from_status(Some("Name:\tsshd\nUmask:\t0022\nState:\tS\n")), "sshd");
    assert_eq!(process_name_from_status(Some("Umask:\t0022\nName:\tbash")), "bash");
    assert_eq!(process_name_from_status(Some("Name: nospace\n")), "N/A");
    assert_eq!(process_name_from_status(None), "N/A");
}

#[test]
fn cmdline_file_gives_command() {
    assert_eq!(command_from_cmdline(Some("/usr/bin/python3\0-m\0http.server\0"), "12"), "/usr/bin/python3 -m http.server ");
    assert_eq!(command_from_cmdline(Some(""), "2"), "[2]");
    assert_eq!(command_from_cmdline(None, "2"), "N/A");
}

#[test]
fn socket_links_give_inodes() {
    assert_eq!(socket_inode_of_link("socket:[12345]"), Some(12345));
    assert_eq!(socket_inode_of_link("socket:[]"), None);
    assert_eq!(socket_inode_of_link("pipe:[12345]"), None);
    assert_eq!(socket_inode_of_link("/dev/null"), None);
    assert_eq!(socket_inode_of_link("socket:[12x]"), None);
}

#[test]
fn pid_names_are_digits() {
    assert!(is_pid_name("1234"));
    assert!(!is_pid_name("self"));
    assert!(!is_pid_name("12a"));
}

#[test]
fn io_file_gives_counters() {
    let text = "rchar: 1000\nwchar: 2000\nsyscr: 5\nsyscw: 6\nread_bytes: 0\n";
    assert_eq!(parse_io_counters(text), ProcessIO::new(1000, 2000));
    assert_eq!(parse_io_counters("rchar: x\nwchar:\n"), ProcessIO::new(0, 0));
    assert_eq!(parse_io_counters(""), ProcessIO::zero());
    assert_eq!(parse_io_counters("wchar: 7\nwchar: 9"), ProcessIO::new(0, 9));
}

#[test]
fn direct_lookup_takes_first_process_in_scan_order() {
    let scan = vec![entry("5", "", vec![9]), entry("6", "b", vec![9])];
    assert_eq!(lookup_in_scan(&scan, 9), ("".to_string(), "5".to_string(), " --run".to_string()));
}

#[test]
fn cache_answers_after_rebuild() {
    let mut cache = ProcessCache::new(0);
    assert!(matches!(cache.get_process_info(0, 0), CacheAnswer::Found(ref a, _, _) if a == "N/A"));
    assert!(matches!(cache.get_process_info(42, 100), CacheAnswer::Missing));
    assert!(matches!(cache.get_process_info(42, 5001), CacheAnswer::Stale));
    assert!(matches!(cache.get_process_info(42, 5000), CacheAnswer::Missing));

    let scan = vec![entry("10", "nginx", vec![42, 43]), entry("11", "N/A", vec![44]), entry("12", "redis", vec![43])];
    cache.update_cache(&scan, 6000);
    match cache.get_process_info(42, 6000) {
        CacheAnswer::Found(name, pid, command) => {
            assert_eq!(name, "nginx");
            assert_eq!(pid, "10");
            assert_eq!(command, "nginx --run");
        }
        _ => panic!("expected a cached process"),
    }
    match cache.get_process_info(43, 6000) {
        CacheAnswer::Found(name, pid, _) => {
            assert_eq!(name, "redis");
            assert_eq!(pid, "12");
        }
        _ => panic!("expected a cached process"),
    }
    assert!(matches!(cache.get_process_info(44, 6000), CacheAnswer::Missing));
    assert!(matches!(cache.get_process_info(44, 11001), CacheAnswer::Stale));

    cache.set_update_interval(100000);
    assert!(matches!(cache.get_process_info(42, 11001), CacheAnswer::Found(..)));
    cache.clear(11001);
    assert!(matches!(cache.get_process_info(42, 11001), CacheAnswer::Missing));
}

#[test]
fn cache_always_answers_from_scan() {
    let mut cache = ProcessCache::new(0);
    let scan = vec![entry("10", "nginx", vec![42]), entry("11", "", vec![77])];
    assert_eq!(cache.answer_from_scan(0, 0, &scan).1, "N/A");
    assert_eq!(cache.answer_from_scan(77, 10, &scan), ("".to_string(), "11".to_string(), " --run".to_string()));
    assert_eq!(cache.answer_from_scan(42, 6000, &scan).0, "nginx");
    assert!(matches!(cache.get_process_info(42, 6000), CacheAnswer::Found(..)));
    assert_eq!(cache.answer_from_scan(99, 6000, &scan).0, "N/A");
}
