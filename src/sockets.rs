//! Reading the kernel's socket tables into connections.
use vstd::prelude::*;
use vstd::string::StringExecFns;
use crate::address::{
    ipv4_octets_of, ipv4_text, ipv6_octets_of, ipv6_text, pairs_ok,
    parse_ipv4_hex, parse_ipv6_hex,
};
use crate::models::{Connection, ConnectionView, ProcessIO, not_available};
use crate::parsing::{
    IntParse, colon_count, int_parse, no_colon, parse_range, parse_tcp_state, split_socket_addr,
    tcp_state_text,
};
use crate::recovery::ErrorRecovery;
use crate::processes::{ProcessEntry, ProcessEntryView, lookup_in_scan, scan_lookup, scan_view, unknown_process};
use crate::text::{dec_text, push_char, push_decimal, str_chars, string_of};

verus! {

/// Index of the first colon of `s`, or -1.
pub open spec fn first_colon(s: Seq<char>) -> int
    decreases s.len(),
{
    if s.len() == 0 {
        -1
    } else if s[0] == ':' {
        0
    } else {
        let k = first_colon(s.drop_first());
        if k < 0 { -1 } else { k + 1 }
    }
}

proof fn lemma_first_colon(a: Seq<char>, b: Seq<char>)
    requires
        no_colon(a),
    ensures
        first_colon(a + seq![':'] + b) == a.len(),
    decreases a.len(),
{
    let s = a + seq![':'] + b;
    if a.len() > 0 {
        assert(s.drop_first() =~= a.drop_first() + seq![':'] + b);
        assert(s[0] == a[0]);
        lemma_first_colon(a.drop_first(), b);
    } else {
        assert(s[0] == ':');
    }
}

/// The text of a decoded address with its port.
pub open spec fn with_port(ip_text: Seq<char>, port: u64) -> Seq<char> {
    ip_text + ":"@ + dec_text(port as nat)
}

/// The readable form of a socket table address `ip_hex:port_hex`: the IPv4
/// (eight digits) or IPv6 (thirty-two digits) address and the decimal port.
pub open spec fn socket_addr_text(s: Seq<char>) -> Option<Seq<char>> {
    if colon_count(s) != 1 {
        None
    } else {
        let k = first_colon(s);
        let ip = s.subrange(0, k);
        let port = s.subrange(k + 1, s.len() as int);
        match int_parse(port, 0xffff, 16) {
            IntParse::Value(p) => if ip.len() == 8 && pairs_ok(ip, 4) {
                Some(with_port(ipv4_text(ipv4_octets_of(ip)), p))
            } else if ip.len() == 32 && pairs_ok(ip, 16) {
                Some(with_port(ipv6_text(ipv6_octets_of(ip)), p))
            } else {
                None
            },
            _ => None,
        }
    }
}

/// Decodes a socket table address into `ip:port`.
pub fn decode_socket_addr(addr_str: &str) -> (r: Option<String>)
    ensures
        r matches Some(t) ==> socket_addr_text(addr_str@) == Some(t@),
        r is None ==> socket_addr_text(addr_str@) is None,
{
    let (ip_hex, port_hex) = match split_socket_addr(addr_str) {
        Ok(parts) => parts,
        Err(_) => return None,
    };
    proof { lemma_first_colon(ip_hex@, port_hex@); }
    assert(ip_hex@ =~= addr_str@.subrange(0, ip_hex@.len() as int));
    assert(port_hex@ =~= addr_str@.subrange(ip_hex@.len() as int + 1, addr_str@.len() as int));
    let pcs = str_chars(port_hex);
    let port = match parse_range(&pcs, 0, pcs.len(), 0xffff, 16) {
        IntParse::Value(p) => p,
        _ => {
            assert(pcs@.subrange(0, pcs@.len() as int) =~= port_hex@);
            return None;
        },
    };
    assert(pcs@.subrange(0, pcs@.len() as int) =~= port_hex@);
    let mut text = if let Ok(a) = parse_ipv4_hex(ip_hex) {
        a.to_string()
    } else if let Ok(a) = parse_ipv6_hex(ip_hex) {
        a.to_string()
    } else {
        return None;
    };
    push_char(&mut text, ':');
    push_decimal(&mut text, port);
    proof { reveal_strlit(":"); }
    assert(text@ =~= socket_addr_text(addr_str@)->0);
    Some(text)
}


/// Whether `c` is white space as Unicode defines it.
pub open spec fn is_whitespace(c: char) -> bool {
    c == '\t' || c == '\n' || c == '\x0B' || c == '\x0C' || c == '\r' || c == ' ' || c == '\u{85}'
        || c == '\u{A0}' || c == '\u{1680}' || ('\u{2000}' <= c && c <= '\u{200A}') || c == '\u{2028}'
        || c == '\u{2029}' || c == '\u{202F}' || c == '\u{205F}' || c == '\u{3000}'
}

/// The words finished so far and the word under way, after reading `s`.
pub open spec fn word_fold(s: Seq<char>) -> (Seq<Seq<char>>, Seq<char>)
    decreases s.len(),
{
    if s.len() == 0 {
        (Seq::empty(), Seq::empty())
    } else {
        let (ws, cur) = word_fold(s.drop_last());
        if is_whitespace(s.last()) {
            if cur.len() > 0 { (ws.push(cur), Seq::empty()) } else { (ws, cur) }
        } else {
            (ws, cur.push(s.last()))
        }
    }
}

/// The maximal runs of characters that are not white space, in order.
pub open spec fn fields_of(s: Seq<char>) -> Seq<Seq<char>> {
    let (ws, cur) = word_fold(s);
    if cur.len() > 0 { ws.push(cur) } else { ws }
}

/// The lines finished so far and the line under way, after reading `s`.
pub open spec fn line_fold(s: Seq<char>) -> (Seq<Seq<char>>, Seq<char>)
    decreases s.len(),
{
    if s.len() == 0 {
        (Seq::empty(), Seq::empty())
    } else {
        let (ls, cur) = line_fold(s.drop_last());
        if s.last() == '\n' {
            (ls.push(strip_cr(cur)), Seq::empty())
        } else {
            (ls, cur.push(s.last()))
        }
    }
}

/// A line without the carriage return that ended it.
pub open spec fn strip_cr(l: Seq<char>) -> Seq<char> {
    if l.len() > 0 && l.last() == '\r' { l.drop_last() } else { l }
}

/// The lines of a text: ended by `\n` or `\r\n`, the last one also by the
/// end of the text; no empty line after a final line ending.
pub open spec fn text_lines(s: Seq<char>) -> Seq<Seq<char>> {
    let (ls, cur) = line_fold(s);
    if cur.len() > 0 { ls.push(cur) } else { ls }
}

/// Views of a vector of character vectors.
pub open spec fn views(v: Seq<Vec<char>>) -> Seq<Seq<char>> {
    v.map_values(|x: Vec<char>| x@)
}

/// Splits at white space.
pub fn split_fields(cs: &Vec<char>) -> (r: Vec<Vec<char>>)
    ensures
        views(r@) == fields_of(cs@),
{
    let mut words: Vec<Vec<char>> = Vec::new();
    let mut cur: Vec<char> = Vec::new();
    let mut i: usize = 0;
    while i < cs.len()
        invariant
            i <= cs.len(),
            (views(words@), cur@) == word_fold(cs@.subrange(0, i as int)),
        decreases cs.len() - i,
    {
        let c = cs[i];
        assert(cs@.subrange(0, i + 1).drop_last() =~= cs@.subrange(0, i as int));
        let ws = c == '\t' || c == '\n' || c == '\x0B' || c == '\x0C' || c == '\r' || c == ' '
            || c == '\u{85}' || c == '\u{A0}' || c == '\u{1680}' || ('\u{2000}' <= c && c <= '\u{200A}')
            || c == '\u{2028}' || c == '\u{2029}' || c == '\u{202F}' || c == '\u{205F}' || c == '\u{3000}';
        if ws {
            if cur.len() > 0 {
                let done = cur;
                words.push(done);
                cur = Vec::new();
                assert(views(words@) =~= word_fold(cs@.subrange(0, i + 1)).0);
            }
        } else {
            cur.push(c);
        }
        i += 1;
    }
    assert(cs@.subrange(0, cs@.len() as int) =~= cs@);
    if cur.len() > 0 {
        words.push(cur);
        assert(views(words@) =~= fields_of(cs@));
    }
    words
}

/// Splits into lines.
pub fn split_lines(cs: &Vec<char>) -> (r: Vec<Vec<char>>)
    ensures
        views(r@) == text_lines(cs@),
{
    let mut lines: Vec<Vec<char>> = Vec::new();
    let mut cur: Vec<char> = Vec::new();
    let mut i: usize = 0;
    while i < cs.len()
        invariant
            i <= cs.len(),
            (views(lines@), cur@) == line_fold(cs@.subrange(0, i as int)),
        decreases cs.len() - i,
    {
        let c = cs[i];
        assert(cs@.subrange(0, i + 1).drop_last() =~= cs@.subrange(0, i as int));
        if c == '\n' {
            let mut done = cur;
            let n = done.len();
            if n > 0 && done[n - 1] == '\r' {
                done.pop();
                assert(done@ =~= strip_cr(line_fold(cs@.subrange(0, i as int)).1));
            }
            lines.push(done);
            cur = Vec::new();
            assert(views(lines@) =~= line_fold(cs@.subrange(0, i + 1)).0);
        } else {
            cur.push(c);
        }
        i += 1;
    }
    assert(cs@.subrange(0, cs@.len() as int) =~= cs@);
    if cur.len() > 0 {
        lines.push(cur);
        assert(views(lines@) =~= text_lines(cs@));
    }
    lines
}

/// The connection that one line of a socket table describes, if the line
/// holds at least ten fields and both addresses decode.
pub open spec fn line_connection(
    line: Seq<char>,
    protocol: Seq<char>,
    default_state: Seq<char>,
    scan: Seq<ProcessEntryView>,
) -> Option<ConnectionView> {
    let f = fields_of(line);
    if f.len() < 10 {
        None
    } else {
        match (socket_addr_text(f[1]), socket_addr_text(f[2])) {
            (Some(local), Some(remote)) => {
                let state = if f.len() > 3 { tcp_state_text(f[3]) } else { default_state };
                let inode = match int_parse(f[9], u64::MAX as nat, 10) {
                    IntParse::Value(v) => v,
                    _ => 0,
                };
                let who = if inode == 0 {
                    (not_available(), not_available(), not_available())
                } else {
                    scan_lookup(scan, inode)
                };
                Some(ConnectionView {
                    protocol,
                    state,
                    local,
                    remote,
                    program: who.0,
                    pid: who.1,
                    command: who.2,
                    rx_rate: 0,
                    tx_rate: 0,
                })
            },
            _ => None,
        }
    }
}

/// The connections of the given lines, in order, skipping those that do
/// not describe one.
pub open spec fn lines_connections(
    ls: Seq<Seq<char>>,
    protocol: Seq<char>,
    default_state: Seq<char>,
    scan: Seq<ProcessEntryView>,
) -> Seq<ConnectionView>
    decreases ls.len(),
{
    if ls.len() == 0 {
        Seq::empty()
    } else {
        let rest = lines_connections(ls.drop_last(), protocol, default_state, scan);
        match line_connection(ls.last(), protocol, default_state, scan) {
            Some(c) => rest.push(c),
            None => rest,
        }
    }
}

/// The connections of a whole socket table: every line after the header.
pub open spec fn table_connections(
    text: Seq<char>,
    protocol: Seq<char>,
    default_state: Seq<char>,
    scan: Seq<ProcessEntryView>,
) -> Seq<ConnectionView> {
    let ls = text_lines(text);
    if ls.len() == 0 {
        Seq::empty()
    } else {
        lines_connections(ls.drop_first(), protocol, default_state, scan)
    }
}


/// Views of a vector of connections.
pub open spec fn conn_views(v: Seq<Connection>) -> Seq<ConnectionView> {
    v.map_values(|c: Connection| c@)
}

/// The connection that the fields of one line describe.
fn connection_of_fields(
    f: &Vec<Vec<char>>,
    protocol: &str,
    default_state: &str,
    scan: &Vec<ProcessEntry>,
) -> (r: Option<Connection>)
    ensures
        ({
            let line_fields = views(f@);
            let expected = if line_fields.len() < 10 {
                None
            } else {
                match (socket_addr_text(line_fields[1]), socket_addr_text(line_fields[2])) {
                    (Some(_), Some(_)) => Some(0int),
                    _ => None,
                }
            };
            &&& r is Some <==> expected is Some
            &&& forall|line: Seq<char>| #[trigger] fields_of(line) == line_fields ==> (
                r matches Some(c) ==> line_connection(line, protocol@, default_state@, scan_view(scan@)) == Some(c@))
            &&& forall|line: Seq<char>| #[trigger] fields_of(line) == line_fields ==> (
                r is None ==> line_connection(line, protocol@, default_state@, scan_view(scan@)) is None)
        }),
{
    if f.len() < 10 {
        return None;
    }
    let local_text = string_of(&f[1]);
    let remote_text = string_of(&f[2]);
    let local = match decode_socket_addr(local_text.as_str()) {
        Some(t) => t,
        None => return None,
    };
    let remote = match decode_socket_addr(remote_text.as_str()) {
        Some(t) => t,
        None => return None,
    };
    let state = if f.len() > 3 {
        let st = string_of(&f[3]);
        parse_tcp_state(st.as_str())
    } else {
        String::from_str(default_state)
    };
    let inode: u64 = match parse_range(&f[9], 0, f[9].len(), u64::MAX, 10) {
        IntParse::Value(v) => v,
        _ => 0,
    };
    assert(f@[9]@.subrange(0, f@[9]@.len() as int) =~= f@[9]@);
    let (program, pid, command) = if inode == 0 {
        unknown_process()
    } else {
        lookup_in_scan(scan, inode)
    };
    Some(Connection::new(String::from_str(protocol), state, local, remote, program, pid, command))
}

/// Decodes every line after the header of one socket table.
fn table_rows(
    text: &str,
    protocol: &str,
    default_state: &str,
    scan: &Vec<ProcessEntry>,
    out: &mut Vec<Connection>,
)
    ensures
        conn_views(final(out)@) == conn_views(old(out)@) + table_connections(text@, protocol@, default_state@, scan_view(scan@)),
{
    let cs = str_chars(text);
    let lines = split_lines(&cs);
    let ghost ls = views(lines@);
    let ghost start = conn_views(out@);
    if lines.len() == 0 {
        assert(conn_views(out@) =~= start + Seq::<ConnectionView>::empty());
        return;
    }
    let mut i: usize = 1;
    while i < lines.len()
        invariant
            1 <= i <= lines.len(),
            ls == views(lines@),
            ls == text_lines(text@),
            conn_views(out@) == start + lines_connections(ls.subrange(1, i as int), protocol@, default_state@, scan_view(scan@)),
        decreases lines.len() - i,
    {
        let f = split_fields(&lines[i]);
        let ghost line = ls[i as int];
        assert(lines@[i as int]@ == line);
        assert(fields_of(line) == views(f@));
        let c = connection_of_fields(&f, protocol, default_state, scan);
        assert(ls.subrange(1, i + 1).drop_last() =~= ls.subrange(1, i as int));
        assert(ls.subrange(1, i + 1).last() == line);
        match c {
            Some(c) => {
                assert(line_connection(line, protocol@, default_state@, scan_view(scan@)) == Some(c@));
                let ghost prev = conn_views(out@);
                out.push(c);
                assert(conn_views(out@) =~= prev.push(c@));
                assert(conn_views(out@) =~= start + lines_connections(ls.subrange(1, i + 1), protocol@, default_state@, scan_view(scan@)));
            },
            None => {},
        }
        i += 1;
    }
    assert(ls.subrange(1, lines.len() as int) =~= ls.drop_first());
}

/// The four socket tables of the kernel, each as read, or none where it
/// could not be read.
pub struct SocketTables {
    pub tcp: Option<String>,
    pub tcp6: Option<String>,
    pub udp: Option<String>,
    pub udp6: Option<String>,
}

/// The connections of one table, none where it could not be read.
pub open spec fn maybe_table(
    text: Option<String>,
    protocol: Seq<char>,
    default_state: Seq<char>,
    scan: Seq<ProcessEntryView>,
) -> Seq<ConnectionView> {
    match text {
        Some(t) => table_connections(t@, protocol, default_state, scan),
        None => Seq::empty(),
    }
}

/// All connections of the four tables: TCP, TCP over IPv6, UDP, UDP over IPv6.
pub open spec fn all_connections(t: SocketTables, scan: Seq<ProcessEntryView>) -> Seq<ConnectionView> {
    maybe_table(t.tcp, "tcp"@, "LISTEN"@, scan) + maybe_table(t.tcp6, "tcp6"@, "LISTEN"@, scan)
        + maybe_table(t.udp, "udp"@, ""@, scan) + maybe_table(t.udp6, "udp6"@, ""@, scan)
}

fn maybe_rows(
    text: &Option<String>,
    protocol: &str,
    default_state: &str,
    scan: &Vec<ProcessEntry>,
    out: &mut Vec<Connection>,
)
    ensures
        conn_views(final(out)@) == conn_views(old(out)@) + maybe_table(*text, protocol@, default_state@, scan_view(scan@)),
{
    match text {
        Some(t) => table_rows(t.as_str(), protocol, default_state, scan, out),
        None => {
            assert(conn_views(out@) =~= conn_views(out@) + Seq::<ConnectionView>::empty());
        },
    }
}


/// The counters read for one pid.
#[derive(Clone, Debug)]
pub struct PidIo {
    pub pid: String,
    pub io: ProcessIO,
}

/// The counters of the first entry for `pid`, if any.
pub open spec fn io_lookup(t: Seq<PidIo>, pid: Seq<char>) -> Option<ProcessIO>
    decreases t.len(),
{
    if t.len() == 0 {
        None
    } else if t[0].pid@ == pid {
        Some(t[0].io)
    } else {
        io_lookup(t.drop_first(), pid)
    }
}

/// The counters read for `pid`; zero where none were read.
pub open spec fn io_reading(t: Seq<PidIo>, pid: Seq<char>) -> ProcessIO {
    match io_lookup(t, pid) {
        Some(io) => io,
        None => ProcessIO { rx: 0, tx: 0 },
    }
}

/// `a - b`, or zero where the counter went back (a reused pid).
pub open spec fn counter_delta(a: u64, b: u64) -> nat {
    if a > b { (a - b) as nat } else { 0 }
}

/// Bytes per second for `delta` bytes over `elapsed_ms` milliseconds,
/// rounded down, at most the largest `u64`.
pub open spec fn rate_per_second(delta: nat, elapsed_ms: nat) -> u64 {
    let r = delta * 1000 / elapsed_ms;
    if r > u64::MAX { u64::MAX } else { r as u64 }
}

/// Milliseconds between two ticks, at least one.
pub open spec fn tick_elapsed(last: u64, now: u64) -> nat {
    if now > last { (now - last) as nat } else { 1 }
}

/// A connection with its rates stamped: for a known pid seen before, the
/// growth of its counters over the elapsed time; for a known pid seen for
/// the first time, zero; for an unknown pid, as it was.
pub open spec fn rated(c: ConnectionView, prev: Seq<PidIo>, readings: Seq<PidIo>, elapsed: nat) -> ConnectionView {
    if c.pid != not_available() && io_lookup(prev, c.pid) is Some {
        let p = io_lookup(prev, c.pid)->0;
        let cur = io_reading(readings, c.pid);
        ConnectionView {
            rx_rate: rate_per_second(counter_delta(cur.rx, p.rx), elapsed),
            tx_rate: rate_per_second(counter_delta(cur.tx, p.tx), elapsed),
            ..c
        }
    } else if c.pid != not_available() {
        ConnectionView { rx_rate: 0, tx_rate: 0, ..c }
    } else {
        c
    }
}

/// The new baseline: for each known pid of the connections, in order of
/// first appearance and once each, the counters read for it.
pub open spec fn baseline(conns: Seq<ConnectionView>, readings: Seq<PidIo>) -> Seq<(Seq<char>, ProcessIO)>
    decreases conns.len(),
{
    if conns.len() == 0 {
        Seq::empty()
    } else {
        let rest = baseline(conns.drop_last(), readings);
        let pid = conns.last().pid;
        if pid == not_available() || exists|j: int| 0 <= j < rest.len() && (#[trigger] rest[j]).0 == pid {
            rest
        } else {
            rest.push((pid, io_reading(readings, pid)))
        }
    }
}

/// Views of a snapshot table.
pub open spec fn pid_io_views(t: Seq<PidIo>) -> Seq<(Seq<char>, ProcessIO)> {
    t.map_values(|e: PidIo| (e.pid@, e.io))
}

fn find_io(t: &Vec<PidIo>, pid: &String) -> (r: Option<ProcessIO>)
    ensures
        r == io_lookup(t@, pid@),
{
    let mut i: usize = 0;
    assert(t@.subrange(0, t@.len() as int) =~= t@);
    while i < t.len()
        invariant
            i <= t.len(),
            io_lookup(t@, pid@) == io_lookup(t@.subrange(i as int, t@.len() as int), pid@),
        decreases t.len() - i,
    {
        let ghost rest = t@.subrange(i as int, t@.len() as int);
        assert(rest.drop_first() =~= t@.subrange(i + 1, t@.len() as int));
        if t[i].pid == *pid {
            return Some(t[i].io);
        }
        i += 1;
    }
    None
}

fn delta_rate(a: u64, b: u64, elapsed_ms: u64) -> (r: u64)
    requires
        elapsed_ms >= 1,
    ensures
        r == rate_per_second(counter_delta(a, b), elapsed_ms as nat),
{
    let d: u64 = if a > b { a - b } else { 0 };
    let wide: u128 = (d as u128) * 1000 / (elapsed_ms as u128);
    if wide > u64::MAX as u128 { u64::MAX } else { wide as u64 }
}

/// Service that reads the kernel's socket tables and stamps throughput.
pub struct NetworkService {
    /// The caller's clock, in milliseconds, at the last rate update.
    pub last_update_ms: u64,
}

impl Default for NetworkService {
    fn default() -> (r: NetworkService)
        ensures
            r.last_update_ms == 0,
    {
        NetworkService::new()
    }
}

impl NetworkService {
    /// A service whose clock starts at zero.
    pub fn new() -> (r: NetworkService)
        ensures
            r.last_update_ms == 0,
    {
        NetworkService { last_update_ms: 0 }
    }

    /// Every connection of the four tables, attributed to processes by a
    /// scan of the process table.
    pub fn get_connections(&self, tables: &SocketTables, scan: &Vec<ProcessEntry>) -> (r: Vec<Connection>)
        ensures
            conn_views(r@) == all_connections(*tables, scan_view(scan@)),
    {
        let mut out: Vec<Connection> = Vec::new();
        maybe_rows(&tables.tcp, "tcp", "LISTEN", scan, &mut out);
        maybe_rows(&tables.tcp6, "tcp6", "LISTEN", scan, &mut out);
        maybe_rows(&tables.udp, "udp", "", scan, &mut out);
        maybe_rows(&tables.udp6, "udp6", "", scan, &mut out);
        assert(conn_views(out@) =~= all_connections(*tables, scan_view(scan@)));
        out
    }

    /// The connection that one line of a socket table describes.
    pub fn parse_proc_net_line(
        &self,
        line: &str,
        protocol: &str,
        default_state: &str,
        scan: &Vec<ProcessEntry>,
    ) -> (r: Option<Connection>)
        ensures
            r matches Some(c) ==> line_connection(line@, protocol@, default_state@, scan_view(scan@)) == Some(c@),
            r is None ==> line_connection(line@, protocol@, default_state@, scan_view(scan@)) is None,
    {
        let cs = str_chars(line);
        let f = split_fields(&cs);
        connection_of_fields(&f, protocol, default_state, scan)
    }

    /// Decodes a socket table address into `ip:port`.
    pub fn parse_socket_addr(&self, addr_str: &str) -> (r: Option<String>)
        ensures
            r matches Some(t) ==> socket_addr_text(addr_str@) == Some(t@),
            r is None ==> socket_addr_text(addr_str@) is None,
    {
        decode_socket_addr(addr_str)
    }

    /// Decodes a state field.
    pub fn parse_tcp_state(&self, state_hex: &str) -> (r: String)
        ensures
            r@ == tcp_state_text(state_hex@),
    {
        parse_tcp_state(state_hex)
    }

    /// The process holding a socket inode, by a scan of the process table;
    /// inode zero is never looked up.
    pub fn get_process_info_for_inode(&self, inode: u64, scan: &Vec<ProcessEntry>) -> (r: (String, String, String))
        ensures
            inode == 0 ==> r.0@ == not_available() && r.1@ == not_available() && r.2@ == not_available(),
            inode != 0 ==> (r.0@, r.1@, r.2@) == scan_lookup(scan_view(scan@), inode),
    {
        if inode == 0 {
            return unknown_process();
        }
        lookup_in_scan(scan, inode)
    }

    /// Stamps each connection with its process's throughput since the last
    /// call, from the previous baseline and the counters read now, and gives
    /// the new baseline. `now_ms` is the caller's clock.
    pub fn update_connection_rates(
        &mut self,
        connections: Vec<Connection>,
        prev_io: &Vec<PidIo>,
        readings: &Vec<PidIo>,
        now_ms: u64,
    ) -> (r: (Vec<Connection>, Vec<PidIo>))
        ensures
            final(self).last_update_ms == now_ms,
            r.0@.len() == connections@.len(),
            forall|i: int| 0 <= i < connections@.len() ==> #[trigger] r.0@[i]@ == rated(
                connections@[i]@, prev_io@, readings@, tick_elapsed(old(self).last_update_ms, now_ms)),
            pid_io_views(r.1@) == baseline(conn_views(connections@), readings@),
    {
        let elapsed: u64 = if now_ms > self.last_update_ms { now_ms - self.last_update_ms } else { 1 };
        self.last_update_ms = now_ms;
        let ghost cv = conn_views(connections@);
        let mut updated: Vec<Connection> = Vec::new();
        let mut current: Vec<PidIo> = Vec::new();
        let na = String::from_str("N/A");
        let mut i: usize = 0;
        while i < connections.len()
            invariant
                i <= connections.len(),
                elapsed as nat == tick_elapsed(old(self).last_update_ms, now_ms),
                elapsed >= 1,
                na@ == not_available(),
                cv == conn_views(connections@),
                updated@.len() == i,
                forall|j: int| 0 <= j < i ==> #[trigger] updated@[j]@ == rated(connections@[j]@, prev_io@, readings@, elapsed as nat),
                pid_io_views(current@) == baseline(cv.subrange(0, i as int), readings@),
            decreases connections.len() - i,
        {
            let mut conn = connections[i].duplicate();
            assert(cv.subrange(0, i + 1).drop_last() =~= cv.subrange(0, i as int));
            assert(cv.subrange(0, i + 1).last() == conn@);
            if conn.pid != na {
                let io = match find_io(readings, &conn.pid) {
                    Some(x) => x,
                    None => ProcessIO::zero(),
                };
                match find_io(prev_io, &conn.pid) {
                    Some(p) => {
                        conn.rx_rate = delta_rate(io.rx, p.rx, elapsed);
                        conn.tx_rate = delta_rate(io.tx, p.tx, elapsed);
                    },
                    None => {
                        conn.rx_rate = 0;
                        conn.tx_rate = 0;
                    },
                }
                let mut k: usize = 0;
                let mut seen = false;
                let ghost cur_views = pid_io_views(current@);
                while k < current.len()
                    invariant
                        k <= current.len(),
                        cur_views == pid_io_views(current@),
                        !seen ==> forall|j: int| 0 <= j < k ==> (#[trigger] cur_views[j]).0 != conn.pid@,
                        seen ==> exists|j: int| 0 <= j < cur_views.len() && (#[trigger] cur_views[j]).0 == conn.pid@,
                    decreases current.len() - k,
                {
                    if current[k].pid == conn.pid {
                        assert(cur_views[k as int].0 == conn.pid@);
                        seen = true;
                    }
                    k += 1;
                }
                if !seen {
                    current.push(PidIo { pid: conn.pid.clone(), io });
                    assert(pid_io_views(current@) =~= cur_views.push((conn.pid@, io)));
                }
            }
            updated.push(conn);
            i += 1;
        }
        assert(cv.subrange(0, connections@.len() as int) =~= cv);
        (updated, current)
    }
}


/// The readable form of a socket table address, with port zero where the
/// port does not decode, and `fallback` where the address does not.
pub open spec fn socket_addr_text_or(s: Seq<char>, fallback: Seq<char>) -> Seq<char> {
    if colon_count(s) != 1 {
        fallback
    } else {
        let k = first_colon(s);
        let ip = s.subrange(0, k);
        let p = match int_parse(s.subrange(k + 1, s.len() as int), 0xffff, 16) {
            IntParse::Value(v) => v,
            _ => 0,
        };
        if ip.len() == 8 && pairs_ok(ip, 4) {
            with_port(ipv4_text(ipv4_octets_of(ip)), p)
        } else if ip.len() == 32 && pairs_ok(ip, 16) {
            with_port(ipv6_text(ipv6_octets_of(ip)), p)
        } else {
            fallback
        }
    }
}

/// The connection that a line describes, with every part that does not
/// decode replaced by a default, and the process left unattributed.
pub open spec fn recovered_line(line: Seq<char>, protocol: Seq<char>, default_state: Seq<char>) -> Option<ConnectionView> {
    let f = fields_of(line);
    if f.len() < 10 {
        None
    } else {
        let inode = match int_parse(f[9], u64::MAX as nat, 10) {
            IntParse::Value(v) => v,
            _ => 0,
        };
        Some(ConnectionView {
            protocol,
            state: if f.len() > 3 { tcp_state_text(f[3]) } else { default_state },
            local: socket_addr_text_or(f[1], "0.0.0.0:0"@),
            remote: socket_addr_text_or(f[2], "0.0.0.0:0"@),
            program: if inode > 0 { "Unknown"@ } else { not_available() },
            pid: not_available(),
            command: not_available(),
            rx_rate: 0,
            tx_rate: 0,
        })
    }
}

impl ErrorRecovery {
    /// Decodes a socket table address, with port zero where the port does
    /// not decode and `fallback` where the address does not.
    pub fn parse_socket_addr_with_fallback(addr_str: &str, fallback: &str) -> (r: String)
        ensures
            r@ == socket_addr_text_or(addr_str@, fallback@),
    {
        let (ip_hex, port_hex) = match split_socket_addr(addr_str) {
            Ok(parts) => parts,
            Err(_) => return String::from_str(fallback),
        };
        proof { lemma_first_colon(ip_hex@, port_hex@); }
        assert(ip_hex@ =~= addr_str@.subrange(0, ip_hex@.len() as int));
        assert(port_hex@ =~= addr_str@.subrange(ip_hex@.len() as int + 1, addr_str@.len() as int));
        let pcs = str_chars(port_hex);
        assert(pcs@.subrange(0, pcs@.len() as int) =~= port_hex@);
        let port: u64 = match parse_range(&pcs, 0, pcs.len(), 0xffff, 16) {
            IntParse::Value(p) => p,
            _ => 0,
        };
        let mut text = if let Ok(a) = parse_ipv4_hex(ip_hex) {
            a.to_string()
        } else if let Ok(a) = parse_ipv6_hex(ip_hex) {
            a.to_string()
        } else {
            return String::from_str(fallback);
        };
        push_char(&mut text, ':');
        push_decimal(&mut text, port);
        proof { reveal_strlit(":"); }
        assert(text@ =~= socket_addr_text_or(addr_str@, fallback@));
        text
    }

    /// Decodes a line as far as it goes, without attributing it to a process.
    pub fn parse_proc_net_line_with_recovery(line: &str, protocol: &str, default_state: &str) -> (r: Option<Connection>)
        ensures
            r matches Some(c) ==> recovered_line(line@, protocol@, default_state@) == Some(c@),
            r is None ==> recovered_line(line@, protocol@, default_state@) is None,
    {
        let cs = str_chars(line);
        let f = split_fields(&cs);
        if f.len() < 10 {
            return None;
        }
        let l = string_of(&f[1]);
        let local = ErrorRecovery::parse_socket_addr_with_fallback(l.as_str(), "0.0.0.0:0");
        let rm = string_of(&f[2]);
        let remote = ErrorRecovery::parse_socket_addr_with_fallback(rm.as_str(), "0.0.0.0:0");
        let state = if f.len() > 3 {
            let st = string_of(&f[3]);
            parse_tcp_state(st.as_str())
        } else {
            String::from_str(default_state)
        };
        assert(f@[9]@.subrange(0, f@[9]@.len() as int) =~= f@[9]@);
        let inode: u64 = match parse_range(&f[9], 0, f[9].len(), u64::MAX, 10) {
            IntParse::Value(v) => v,
            _ => 0,
        };
        let program = if inode > 0 { String::from_str("Unknown") } else { String::from_str("N/A") };
        Some(Connection::new(
            String::from_str(protocol),
            state,
            local,
            remote,
            program,
            String::from_str("N/A"),
            String::from_str("N/A"),
        ))
    }
}

} // verus!
