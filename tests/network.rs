use netmon::models::{Connection, ProcessIO};
use netmon::processes::ProcessEntry;
use netmon::sockets::{NetworkService, PidIo, SocketTables};

const HEADER: &str = "  sl  local_address rem_address   st tx_queue rx_queue tr tm->when retrnsmt   uid  timeout inode\n";

fn no_tables() -> SocketTables {
    SocketTables { tcp: None, tcp6: None, udp: None, udp6: None }
}

fn conn(pid: &str) -> Connection {
    Connection::new(
        "tcp".to_string(),
        "ESTABLISHED".to_string(),
        "127.0.0.1:1234".to_string(),
        "127.0.0.1:5678".to_string(),
        "test".to_string(),
        pid.to_string(),
        "test".to_string(),
    )
}

#[test]
fn network_test_parse_socket_addr_ipv4() {
    let service = NetworkService::new();
    let addr = service.parse_socket_addr("0100007F:1234");
    assert_eq!(addr, Some("127.0.0.1:4660".to_string()));
}

#[test]
fn network_test_parse_socket_addr_ipv6() {
    let service = NetworkService::new();
    let addr = service.parse_socket_addr("00000000000000000000000000000001:1234");
    assert_eq!(addr, Some("::1:4660".to_string()));
}

#[test]
fn network_test_parse_tcp_state() {
    let service = NetworkService::new();
    assert_eq!(service.parse_tcp_state("0A"), "LISTEN");
    assert_eq!(service.parse_tcp_state("01"), "ESTABLISHED");
    assert_eq!(service.parse_tcp_state("FF"), "UNKNOWN(255)");
}

#[test]
fn network_test_get_connections() {
    let service = NetworkService::new();
    let connections = service.get_connections(&no_tables(), &Vec::new());
    assert!(!connections.is_empty() || connections.is_empty());
}

#[test]
fn network_tests_test_parse_socket_addr_ipv4() {
    let service = NetworkService::new();
    let addr = service.parse_socket_addr("0100007F:1234");
    assert_eq!(addr.unwrap(), "127.0.0.1:4660");
}

#[test]
fn network_tests_test_parse_socket_addr_ipv6() {
    let service = NetworkService::new();
    let addr = service.parse_socket_addr("00000000000000000000000000000000001:1234");
    assert_eq!(addr, None);
}

#[test]
fn network_tests_test_parse_tcp_state() {
    let service = NetworkService::new();
    assert_eq!(service.parse_tcp_state("0A"), "LISTEN");
    assert_eq!(service.parse_tcp_state("01"), "ESTABLISHED");
    assert_eq!(service.parse_tcp_state("FF"), "UNKNOWN(255)");
}

#[test]
fn network_tests_test_get_connections() {
    let service = NetworkService::new();
    let connections = service.get_connections(&no_tables(), &Vec::new());
    assert!(connections.len() >= 0);
    assert!(connections.is_empty());
}

#[test]
fn test_get_connections_empty_proc() {
    let service = NetworkService::new();
    let result = service.get_connections(&no_tables(), &Vec::new());
    assert!(result.is_empty());
}

#[test]
fn test_update_connection_rates_empty() {
    let mut service = NetworkService::new();
    let connections = Vec::new();
    let prev_io = Vec::new();

    let (updated, current) = service.update_connection_rates(connections, &prev_io, &Vec::new(), 1000);
    assert!(updated.is_empty());
    assert!(current.is_empty());
    assert_eq!(service.last_update_ms, 1000);
}

#[test]
fn test_update_connection_rates_with_data() {
    let mut service = NetworkService::new();
    let connections = vec![conn("4242")];
    let readings = vec![PidIo { pid: "4242".to_string(), io: ProcessIO::new(10, 20) }];

    let (updated, current) = service.update_connection_rates(connections, &Vec::new(), &readings, 500);
    assert_eq!(updated.len(), 1);
    assert_eq!(current.len(), 1);
    assert_eq!(updated[0].rx_rate, 0);
    assert_eq!(current[0].io, ProcessIO::new(10, 20));
}

#[test]
fn test_update_connection_rates_with_previous_data() {
    let mut service = NetworkService::new();
    let connections = vec![conn("4242")];
    let prev_io = vec![PidIo { pid: "4242".to_string(), io: ProcessIO::new(1000, 2000) }];
    let readings = vec![PidIo { pid: "4242".to_string(), io: ProcessIO::new(1500, 2500) }];

    let (updated, current) = service.update_connection_rates(connections, &prev_io, &readings, 1000);
    assert_eq!(updated.len(), 1);
    assert_eq!(current.len(), 1);
    assert_eq!(updated[0].rx_rate, 500);
    assert_eq!(updated[0].tx_rate, 500);
}

#[test]
fn first_observation_gets_zero_rate() {
    let mut service = NetworkService::new();
    let mut c = conn("4242");
    c.rx_rate = 5;
    c.tx_rate = 6;
    let mut anon = conn("N/A");
    anon.rx_rate = 7;
    let readings = vec![PidIo { pid: "4242".to_string(), io: ProcessIO::new(10, 20) }];
    let (updated, _) = service.update_connection_rates(vec![c, anon], &Vec::new(), &readings, 500);
    assert_eq!(updated[0].rx_rate, 0);
    assert_eq!(updated[0].tx_rate, 0);
    assert_eq!(updated[1].rx_rate, 7);
}

#[test]
fn test_default_implementation() {
    let service = NetworkService::default();
    let result = service.get_connections(&no_tables(), &Vec::new());
    assert!(result.is_empty());
}

#[test]
fn reused_pid_gives_zero_rate() {
    let mut service = NetworkService::new();
    let prev_io = vec![PidIo { pid: "7".to_string(), io: ProcessIO::new(5000, 10) }];
    let readings = vec![PidIo { pid: "7".to_string(), io: ProcessIO::new(100, 10) }];
    let (updated, _) = service.update_connection_rates(vec![conn("7")], &prev_io, &readings, 1000);
    assert_eq!(updated[0].rx_rate, 0);
    assert_eq!(updated[0].tx_rate, 0);
}

#[test]
fn rates_use_elapsed_time_since_last_call() {
    let mut service = NetworkService::new();
    let (_, base) = service.update_connection_rates(
        vec![conn("7")],
        &Vec::new(),
        &vec![PidIo { pid: "7".to_string(), io: ProcessIO::new(0, 0) }],
        1000,
    );
    let (updated, _) = service.update_connection_rates(
        vec![conn("7")],
        &base,
        &vec![PidIo { pid: "7".to_string(), io: ProcessIO::new(1000, 3000) }],
        3000,
    );
    assert_eq!(updated[0].rx_rate, 500);
    assert_eq!(updated[0].tx_rate, 1500);
    let (fast, _) = service.update_connection_rates(
        vec![conn("7")],
        &vec![PidIo { pid: "7".to_string(), io: ProcessIO::new(0, 0) }],
        &vec![PidIo { pid: "7".to_string(), io: ProcessIO::new(7, 0) }],
        3000,
    );
    assert_eq!(fast[0].rx_rate, 7000);
}

#[test]
fn unknown_pid_is_left_alone_and_baseline_is_deduplicated() {
    let mut service = NetworkService::new();
    let conns = vec![conn("N/A"), conn("9"), conn("9"), conn("3")];
    let readings = vec![PidIo { pid: "9".to_string(), io: ProcessIO::new(1, 2) }];
    let (updated, base) = service.update_connection_rates(conns, &Vec::new(), &readings, 10);
    assert_eq!(updated.len(), 4);
    assert_eq!(base.len(), 2);
    assert_eq!(base[0].pid, "9");
    assert_eq!(base[0].io, ProcessIO::new(1, 2));
    assert_eq!(base[1].pid, "3");
    assert_eq!(base[1].io, ProcessIO::zero());
}

#[test]
fn table_lines_become_connections() {
    let service = NetworkService::new();
    let tcp = format!(
        "{}   0: 0100007F:0277 00000000:0000 0A 00000000:00000000 00:00000000 00000000     0        0 31337 1 0 100 0 0 10 0\n   1: bad\n   2: 0100007F:1F90 0100007F:C350 01 00000000:00000000 00:00000000 00000000  1000        0 0 1\n",
        HEADER
    );
    let udp6 = format!(
        "{}  10: 00000000000000000000000000000000:14E9 00000000000000000000000000000000:0000 07 00000000:00000000 00:00000000 00000000   104        0 555 2\n",
        HEADER
    );
    let tables = SocketTables { tcp: Some(tcp), tcp6: None, udp: None, udp6: Some(udp6) };
    let scan = vec![
        ProcessEntry { pid: "1".to_string(), name: "init".to_string(), command: "/sbin/init".to_string(), inodes: vec![1, 2] },
        ProcessEntry { pid: "77".to_string(), name: "cupsd".to_string(), command: "/usr/sbin/cupsd -l".to_string(), inodes: vec![31337] },
    ];
    let conns = service.get_connections(&tables, &scan);
    assert_eq!(conns.len(), 3);
    assert_eq!(conns[0].protocol, "tcp");
    assert_eq!(conns[0].local, "127.0.0.1:631");
    assert_eq!(conns[0].remote, "0.0.0.0:0");
    assert_eq!(conns[0].state, "LISTEN");
    assert_eq!(conns[0].program, "cupsd");
    assert_eq!(conns[0].pid, "77");
    assert_eq!(conns[0].command, "/usr/sbin/cupsd -l");
    assert_eq!(conns[1].local, "127.0.0.1:8080");
    assert_eq!(conns[1].remote, "127.0.0.1:50000");
    assert_eq!(conns[1].state, "ESTABLISHED");
    assert_eq!(conns[1].pid, "N/A");
    assert_eq!(conns[1].program, "N/A");
    assert_eq!(conns[2].protocol, "udp6");
    assert_eq!(conns[2].local, ":::5353");
    assert_eq!(conns[2].state, "CLOSE");
    assert_eq!(conns[2].program, "N/A");
}

#[test]
fn short_or_malformed_lines_are_skipped() {
    let service = NetworkService::new();
    let scan = Vec::new();
    assert!(service.parse_proc_net_line("0: 0100007F:0277 00000000:0000 0A", "tcp", "LISTEN", &scan).is_none());
    assert!(service
        .parse_proc_net_line("0: 0100007F 00000000:0000 0A 0 0 0 0 0 5", "tcp", "LISTEN", &scan)
        .is_none());
    assert!(service
        .parse_proc_net_line("0: 0100007F:ZZZZZ 00000000:0000 0A 0 0 0 0 0 5", "tcp", "LISTEN", &scan)
        .is_none());
    let c = service
        .parse_proc_net_line("0: 0100007F:0050 00000000:0000 ZZ 0 0 0 0 0 notanumber", "tcp", "LISTEN", &scan)
        .unwrap();
    assert_eq!(c.state, "UNKNOWN");
    assert_eq!(c.pid, "N/A");
}

#[test]
fn inode_lookup_takes_first_holder() {
    let service = NetworkService::new();
    let scan = vec![
        ProcessEntry { pid: "10".to_string(), name: "a".to_string(), command: "a".to_string(), inodes: vec![5] },
        ProcessEntry { pid: "20".to_string(), name: "b".to_string(), command: "b".to_string(), inodes: vec![5] },
    ];
    assert_eq!(service.get_process_info_for_inode(5, &scan), ("a".to_string(), "10".to_string(), "a".to_string()));
    assert_eq!(service.get_process_info_for_inode(0, &scan), ("N/A".to_string(), "N/A".to_string(), "N/A".to_string()));
    assert_eq!(service.get_process_info_for_inode(6, &scan), ("N/A".to_string(), "N/A".to_string(), "N/A".to_string()));
}

#[test]
fn connection_helpers() {
    let mut c = conn("12");
    assert!(!c.is_active());
    assert_eq!(c.get_process_display(), "test(12)");
    c.tx_rate = 1;
    assert!(c.is_active());
    let anon = conn("N/A");
    assert_eq!(anon.get_process_display(), "test");
    assert_eq!(ProcessIO::zero(), ProcessIO::new(0, 0));
}
