//! Attribution of sockets to the processes that hold them.
use vstd::prelude::*;
use vstd::string::StringExecFns;
use std::collections::HashMap;
use crate::models::{ProcessIO, ProcessInfo, not_available};
use crate::parsing::{IntParse, all_ascii_digits, int_parse, parse_range};
use crate::sockets::{fields_of, split_fields, split_lines, text_lines, views};
use crate::text::{chars_are, chars_start_with, push_char, push_str, slice_chars, str_chars, string_of};

verus! {

/// One process as a scan of the process table saw it.
#[derive(Clone, Debug)]
pub struct ProcessEntry {
    pub pid: String,
    pub name: String,
    pub command: String,
    /// Inodes of the sockets among its open descriptors.
    pub inodes: Vec<u64>,
}

/// What a scanned process holds, as values.
pub struct ProcessEntryView {
    pub pid: Seq<char>,
    pub name: Seq<char>,
    pub command: Seq<char>,
    pub inodes: Seq<u64>,
}

impl View for ProcessEntry {
    type V = ProcessEntryView;

    open spec fn view(&self) -> ProcessEntryView {
        ProcessEntryView { pid: self.pid@, name: self.name@, command: self.command@, inodes: self.inodes@ }
    }
}

/// Index of the first process of the scan that holds `inode`, or -1.
pub open spec fn first_holder(scan: Seq<ProcessEntryView>, inode: u64) -> int
    decreases scan.len(),
{
    if scan.len() == 0 {
        -1
    } else if scan[0].inodes.contains(inode) {
        0
    } else {
        let k = first_holder(scan.drop_first(), inode);
        if k < 0 { -1 } else { k + 1 }
    }
}

/// The `(program, pid, command)` of the first process in the scan that holds
/// the inode; the unknown triple when none does.
pub open spec fn scan_lookup(scan: Seq<ProcessEntryView>, inode: u64) -> (Seq<char>, Seq<char>, Seq<char>) {
    let k = first_holder(scan, inode);
    if k < 0 {
        (not_available(), not_available(), not_available())
    } else {
        (scan[k].name, scan[k].pid, scan[k].command)
    }
}


/// The views of a scan's entries.
pub open spec fn scan_view(scan: Seq<ProcessEntry>) -> Seq<ProcessEntryView> {
    scan.map_values(|e: ProcessEntry| e@)
}

fn holds_inode(inodes: &Vec<u64>, inode: u64) -> (r: bool)
    ensures
        r == inodes@.contains(inode),
{
    let mut i: usize = 0;
    while i < inodes.len()
        invariant
            i <= inodes.len(),
            forall|j: int| 0 <= j < i ==> inodes@[j] != inode,
        decreases inodes.len() - i,
    {
        if inodes[i] == inode {
            return true;
        }
        i += 1;
    }
    false
}

proof fn lemma_first_holder(scan: Seq<ProcessEntryView>, inode: u64, k: int)
    requires
        -1 <= k < scan.len(),
        forall|j: int| 0 <= j < k ==> !(#[trigger] scan[j]).inodes.contains(inode),
        k >= 0 ==> scan[k].inodes.contains(inode),
        k == -1 ==> forall|j: int| 0 <= j < scan.len() ==> !(#[trigger] scan[j]).inodes.contains(inode),
    ensures
        first_holder(scan, inode) == k,
    decreases scan.len(),
{
    if scan.len() > 0 && k != 0 {
        let t = scan.drop_first();
        assert(!scan[0].inodes.contains(inode));
        assert forall|j: int| 0 <= j < (if k < 0 { k } else { k - 1 }) implies !(#[trigger] t[j]).inodes.contains(inode) by {
            assert(t[j] == scan[j + 1]);
        }
        if k < 0 {
            assert forall|j: int| 0 <= j < t.len() implies !(#[trigger] t[j]).inodes.contains(inode) by {
                assert(t[j] == scan[j + 1]);
            }
            lemma_first_holder(t, inode, -1);
        } else {
            lemma_first_holder(t, inode, k - 1);
        }
    }
}

/// The unknown `(program, pid, command)`.
pub fn unknown_process() -> (r: (String, String, String))
    ensures
        r.0@ == not_available() && r.1@ == not_available() && r.2@ == not_available(),
{
    (String::from_str("N/A"), String::from_str("N/A"), String::from_str("N/A"))
}

/// Finds the first process of the scan that holds `inode`.
pub fn lookup_in_scan(scan: &Vec<ProcessEntry>, inode: u64) -> (r: (String, String, String))
    ensures
        (r.0@, r.1@, r.2@) == scan_lookup(scan_view(scan@), inode),
{
    let ghost sv = scan_view(scan@);
    let mut i: usize = 0;
    while i < scan.len()
        invariant
            i <= scan.len(),
            sv == scan_view(scan@),
            forall|j: int| 0 <= j < i ==> !(#[trigger] sv[j]).inodes.contains(inode),
        decreases scan.len() - i,
    {
        if holds_inode(&scan[i].inodes, inode) {
            proof { lemma_first_holder(sv, inode, i as int); }
            return (scan[i].name.clone(), scan[i].pid.clone(), scan[i].command.clone());
        }
        i += 1;
    }
    proof { lemma_first_holder(sv, inode, -1); }
    unknown_process()
}


/// Whether `s` begins with `p`.
pub open spec fn starts_with(s: Seq<char>, p: Seq<char>) -> bool {
    p.len() <= s.len() && s.subrange(0, p.len() as int) == p
}

/// The process name that a status file gives: the rest of its first line
/// that begins with `Name:` and a tab.
pub open spec fn status_name(ls: Seq<Seq<char>>) -> Option<Seq<char>>
    decreases ls.len(),
{
    if ls.len() == 0 {
        None
    } else if starts_with(ls[0], "Name:\t"@) {
        Some(ls[0].subrange(6, ls[0].len() as int))
    } else {
        status_name(ls.drop_first())
    }
}

/// The name shown for a process whose status file reads `status`, or that
/// could not be read.
pub open spec fn process_name_text(status: Option<Seq<char>>) -> Seq<char> {
    match status {
        Some(t) => match status_name(text_lines(t)) {
            Some(n) => n,
            None => not_available(),
        },
        None => not_available(),
    }
}

/// The name of a process from its status file.
pub fn process_name_from_status(status: Option<&str>) -> (r: String)
    ensures
        r@ == process_name_text(match status { Some(t) => Some(t@), None => None }),
{
    let t = match status {
        Some(t) => t,
        None => return String::from_str("N/A"),
    };
    let cs = str_chars(t);
    let lines = split_lines(&cs);
    let ghost ls = views(lines@);
    assert(ls.subrange(0, ls.len() as int) =~= ls);
    let mut i: usize = 0;
    while i < lines.len()
        invariant
            i <= lines.len(),
            ls == views(lines@),
            ls == text_lines(t@),
            status == Some(t),
            status_name(ls) == status_name(ls.subrange(i as int, ls.len() as int)),
        decreases lines.len() - i,
    {
        let ghost rest = ls.subrange(i as int, ls.len() as int);
        assert(rest.drop_first() =~= ls.subrange(i + 1, ls.len() as int));
        assert(rest[0] == lines@[i as int]@);
        if chars_start_with(&lines[i], "Name:\t") {
            proof { reveal_strlit("Name:\t"); }
            let n = slice_chars(&lines[i], 6, lines[i].len());
            assert(starts_with(rest[0], "Name:\t"@));
            assert(status_name(rest) == Some(n@));
            return string_of(&n);
        }
        i += 1;
    }
    String::from_str("N/A")
}

/// The command line that the cmdline file gives: its arguments joined by
/// spaces, `[pid]` where it is empty (a kernel thread), unknown where it
/// could not be read.
pub open spec fn command_text(cmdline: Option<Seq<char>>, pid: Seq<char>) -> Seq<char> {
    match cmdline {
        Some(c) => if c.len() > 0 {
            c.map_values(|x: char| if x == '\0' { ' ' } else { x })
        } else {
            "["@ + pid + "]"@
        },
        None => not_available(),
    }
}

/// The command line of a process from its cmdline file.
pub fn command_from_cmdline(cmdline: Option<&str>, pid: &str) -> (r: String)
    ensures
        r@ == command_text(match cmdline { Some(c) => Some(c@), None => None }, pid@),
{
    let c = match cmdline {
        Some(c) => c,
        None => return String::from_str("N/A"),
    };
    let cs = str_chars(c);
    if cs.len() == 0 {
        let mut s = String::from_str("[");
        push_str(&mut s, pid);
        push_str(&mut s, "]");
        return s;
    }
    let mut s = String::new();
    let mut i: usize = 0;
    while i < cs.len()
        invariant
            i <= cs.len(),
            s@ == cs@.subrange(0, i as int).map_values(|x: char| if x == '\0' { ' ' } else { x }),
        decreases cs.len() - i,
    {
        let x = cs[i];
        push_char(&mut s, if x == '\0' { ' ' } else { x });
        i += 1;
        assert(s@ =~= cs@.subrange(0, i as int).map_values(|x: char| if x == '\0' { ' ' } else { x }));
    }
    assert(cs@.subrange(0, cs@.len() as int) =~= cs@);
    s
}

/// The socket inode that a descriptor's link target names, as in
/// `socket:[12345]`.
pub open spec fn link_inode(link: Seq<char>) -> Option<u64> {
    if starts_with(link, "socket:["@) && link.len() > 0 && link.last() == ']' {
        match int_parse(link.subrange(8, link.len() - 1), u64::MAX as nat, 10) {
            IntParse::Value(v) => Some(v),
            _ => None,
        }
    } else {
        None
    }
}

/// Reads the socket inode out of a descriptor's link target.
pub fn socket_inode_of_link(link: &str) -> (r: Option<u64>)
    ensures
        r == link_inode(link@),
{
    let cs = str_chars(link);
    proof { reveal_strlit("socket:["); }
    if !chars_start_with(&cs, "socket:[") || cs.len() == 0 || cs[cs.len() - 1] != ']' {
        return None;
    }
    assert(cs@.subrange(0, 8)[7] == '[');
    match parse_range(&cs, 8, cs.len() - 1, u64::MAX, 10) {
        IntParse::Value(v) => Some(v),
        _ => None,
    }
}

/// Whether a directory name under the process root names a process.
pub fn is_pid_name(name: &str) -> (r: bool)
    ensures
        r == all_ascii_digits(name@),
{
    let cs = str_chars(name);
    let mut i: usize = 0;
    while i < cs.len()
        invariant
            i <= cs.len(),
            cs@ == name@,
            forall|j: int| 0 <= j < i ==> '0' <= #[trigger] cs@[j] <= '9',
        decreases cs.len() - i,
    {
        if !('0' <= cs[i] && cs[i] <= '9') {
            return false;
        }
        i += 1;
    }
    true
}

/// A decimal counter value, zero where it does not read as one.
pub open spec fn counter_value(v: Seq<char>) -> u64 {
    match int_parse(v, u64::MAX as nat, 10) {
        IntParse::Value(x) => x,
        _ => 0,
    }
}

/// The read and written byte counters of an I/O accounting file, line by
/// line: a `rchar:` or `wchar:` line with a second field sets the counter,
/// the last such line winning.
pub open spec fn io_counters(ls: Seq<Seq<char>>) -> ProcessIO
    decreases ls.len(),
{
    if ls.len() == 0 {
        ProcessIO { rx: 0, tx: 0 }
    } else {
        let acc = io_counters(ls.drop_last());
        let l = ls.last();
        let f = fields_of(l);
        if starts_with(l, "rchar:"@) {
            if f.len() > 1 { ProcessIO { rx: counter_value(f[1]), ..acc } } else { acc }
        } else if starts_with(l, "wchar:"@) {
            if f.len() > 1 { ProcessIO { tx: counter_value(f[1]), ..acc } } else { acc }
        } else {
            acc
        }
    }
}

fn counter_of(f: &Vec<char>) -> (r: u64)
    ensures
        r == counter_value(f@),
{
    assert(f@.subrange(0, f@.len() as int) =~= f@);
    match parse_range(f, 0, f.len(), u64::MAX, 10) {
        IntParse::Value(x) => x,
        _ => 0,
    }
}

/// The cumulative counters of a process from its I/O accounting file.
pub fn parse_io_counters(io_data: &str) -> (r: ProcessIO)
    ensures
        r == io_counters(text_lines(io_data@)),
{
    let cs = str_chars(io_data);
    let lines = split_lines(&cs);
    let ghost ls = views(lines@);
    let mut io = ProcessIO::zero();
    let mut i: usize = 0;
    while i < lines.len()
        invariant
            i <= lines.len(),
            ls == views(lines@),
            io == io_counters(ls.subrange(0, i as int)),
        decreases lines.len() - i,
    {
        let ghost sub = ls.subrange(0, i + 1);
        assert(sub.drop_last() =~= ls.subrange(0, i as int));
        assert(sub.last() == lines@[i as int]@);
        let f = split_fields(&lines[i]);
        if chars_start_with(&lines[i], "rchar:") {
            if f.len() > 1 {
                io = ProcessIO { rx: counter_of(&f[1]), tx: io.tx };
            }
        } else if chars_start_with(&lines[i], "wchar:") {
            if f.len() > 1 {
                io = ProcessIO { rx: io.rx, tx: counter_of(&f[1]) };
            }
        }
        i += 1;
    }
    assert(ls.subrange(0, lines.len() as int) =~= ls);
    io
}


/// Whether one of the first `m` items of `s` is `i`.
pub open spec fn in_prefix(s: Seq<u64>, m: int, i: u64) -> bool {
    exists|w: int| 0 <= w < m && #[trigger] s[w] == i
}

/// Whether a scanned process has a usable name, and so enters the cache.
pub open spec fn has_usable_name(e: ProcessEntryView) -> bool {
    e.name.len() > 0 && e.name != not_available()
}

/// Index of the last process of the first `n` of the scan that has a usable
/// name and holds `inode`, or -1.
pub open spec fn last_holder(scan: Seq<ProcessEntryView>, n: int, inode: u64) -> int
    decreases n,
{
    if n <= 0 {
        -1
    } else if has_usable_name(scan[n - 1]) && scan[n - 1].inodes.contains(inode) {
        n - 1
    } else {
        last_holder(scan, n - 1, inode)
    }
}

/// What a cache rebuilt from `scan` answers for each inode: the
/// `(program, pid, command)` of the last process with a usable name that
/// holds it.
pub open spec fn scan_index(scan: Seq<ProcessEntryView>) -> Map<u64, (Seq<char>, Seq<char>, Seq<char>)> {
    Map::new(
        |i: u64| last_holder(scan, scan.len() as int, i) >= 0,
        |i: u64| {
            let k = last_holder(scan, scan.len() as int, i);
            (scan[k].name, scan[k].pid, scan[k].command)
        },
    )
}

proof fn lemma_last_holder_at_least(scan: Seq<ProcessEntryView>, n: int, k: int, inode: u64)
    requires
        0 <= k < n <= scan.len(),
        has_usable_name(scan[k]),
        scan[k].inodes.contains(inode),
    ensures
        last_holder(scan, n, inode) >= k,
    decreases n,
{
    if n - 1 > k && !(has_usable_name(scan[n - 1]) && scan[n - 1].inodes.contains(inode)) {
        lemma_last_holder_at_least(scan, n - 1, k, inode);
    }
}

/// A cache rebuilt from a scan knows every inode that a process with a
/// usable name holds in that scan, so only sockets opened since, or held by
/// unnamed processes, need the direct scan.
pub proof fn rebuilt_cache_covers_scan(scan: Seq<ProcessEntryView>, k: int, inode: u64)
    requires
        0 <= k < scan.len(),
        has_usable_name(scan[k]),
        scan[k].inodes.contains(inode),
    ensures
        scan_index(scan).contains_key(inode),
{
    lemma_last_holder_at_least(scan, scan.len() as int, k, inode);
}

/// One process that the cache knows.
struct CachedProcess {
    pid: String,
    info: ProcessInfo,
}

/// What the cache can say about an inode.
#[derive(Debug)]
pub enum CacheAnswer {
    /// The `(program, pid, command)` of its process.
    Found(String, String, String),
    /// The cache is older than its update interval: rebuild it first.
    Stale,
    /// No cached process holds it: look it up by a direct scan.
    Missing,
}

/// Cache from socket inodes to the processes that hold them, rebuilt
/// wholesale from a scan of the process table.
pub struct ProcessCache {
    inode_to_pid: HashMap<u64, usize>,
    pid_to_process: Vec<CachedProcess>,
    last_update: u64,
    update_interval: u64,
}

impl Default for ProcessCache {
    /// An empty cache whose clock starts at zero.
    fn default() -> (r: ProcessCache)
        ensures
            r.wf(),
            r.entries() == Map::<u64, (Seq<char>, Seq<char>, Seq<char>)>::empty(),
            r.last_update() == 0,
            r.update_interval() == 5000,
    {
        ProcessCache::new(0)
    }
}

impl ProcessCache {
    /// The cache holds no dangling index.
    pub closed spec fn wf(&self) -> bool {
        forall|i: u64| #[trigger] self.inode_to_pid@.contains_key(i) ==> self.inode_to_pid@[i] < self.pid_to_process@.len()
    }

    /// What the cache answers for each inode it knows.
    pub closed spec fn entries(&self) -> Map<u64, (Seq<char>, Seq<char>, Seq<char>)> {
        Map::new(
            |i: u64| self.inode_to_pid@.contains_key(i),
            |i: u64| {
                let p = self.pid_to_process@[self.inode_to_pid@[i] as int];
                (p.info.name@, p.pid@, p.info.command@)
            },
        )
    }

    /// When it was last rebuilt or cleared, on the caller's clock in milliseconds.
    pub closed spec fn last_update(&self) -> u64 {
        self.last_update
    }

    /// How long, in milliseconds, it is trusted after that.
    pub closed spec fn update_interval(&self) -> u64 {
        self.update_interval
    }

    /// Whether it must be rebuilt before being trusted at time `now`.
    pub open spec fn is_stale(&self, now: u64) -> bool {
        now > self.last_update() && now - self.last_update() > self.update_interval()
    }

    /// An empty cache, trusted for five seconds from `now`.
    pub fn new(now: u64) -> (r: ProcessCache)
        ensures
            r.wf(),
            r.entries() == Map::<u64, (Seq<char>, Seq<char>, Seq<char>)>::empty(),
            r.last_update() == now,
            r.update_interval() == 5000,
    {
        let r = ProcessCache {
            inode_to_pid: HashMap::new(),
            pid_to_process: Vec::new(),
            last_update: now,
            update_interval: 5000,
        };
        assert(r.entries() =~= Map::<u64, (Seq<char>, Seq<char>, Seq<char>)>::empty());
        r
    }

    /// What the cache knows of `inode` at time `now`. Inode zero is never
    /// looked up.
    pub fn get_process_info(&self, inode: u64, now: u64) -> (r: CacheAnswer)
        requires
            self.wf(),
        ensures
            inode == 0 ==> (r matches CacheAnswer::Found(a, b, c) && a@ == not_available()
                && b@ == not_available() && c@ == not_available()),
            inode != 0 && self.is_stale(now) ==> r is Stale,
            inode != 0 && !self.is_stale(now) && self.entries().contains_key(inode) ==> (r matches
                CacheAnswer::Found(a, b, c) && (a@, b@, c@) == self.entries()[inode]),
            inode != 0 && !self.is_stale(now) && !self.entries().contains_key(inode) ==> r is Missing,
    {
        broadcast use vstd::std_specs::hash::group_hash_axioms;
        if inode == 0 {
            let (a, b, c) = unknown_process();
            return CacheAnswer::Found(a, b, c);
        }
        if now > self.last_update && now - self.last_update > self.update_interval {
            return CacheAnswer::Stale;
        }
        match self.inode_to_pid.get(&inode) {
            Some(k) => {
                let p = &self.pid_to_process[*k];
                CacheAnswer::Found(p.info.name.clone(), p.pid.clone(), p.info.command.clone())
            },
            None => CacheAnswer::Missing,
        }
    }

    /// Replaces both maps with those built from a fresh scan taken at `now`.
    pub fn update_cache(&mut self, scan: &Vec<ProcessEntry>, now: u64)
        ensures
            final(self).wf(),
            final(self).entries() == scan_index(scan_view(scan@)),
            final(self).last_update() == now,
            final(self).update_interval() == old(self).update_interval(),
    {
        broadcast use vstd::std_specs::hash::group_hash_axioms;
        let ghost sv = scan_view(scan@);
        let mut index: HashMap<u64, usize> = HashMap::new();
        let mut procs: Vec<CachedProcess> = Vec::new();
        let ghost mut origin: Seq<int> = Seq::empty();
        let mut k: usize = 0;
        while k < scan.len()
            invariant
                k <= scan.len(),
                sv == scan_view(scan@),
                origin.len() == procs@.len(),
                forall|j: int| 0 <= j < procs@.len() ==> 0 <= #[trigger] origin[j] < k
                    && procs@[j].pid@ == sv[origin[j]].pid && procs@[j].info.name@ == sv[origin[j]].name
                    && procs@[j].info.command@ == sv[origin[j]].command,
                forall|i: u64| #[trigger] index@.contains_key(i) <==> last_holder(sv, k as int, i) >= 0,
                forall|i: u64| #[trigger] index@.contains_key(i) ==> index@[i] < procs@.len()
                    && origin[index@[i] as int] == last_holder(sv, k as int, i),
            decreases scan.len() - k,
        {
            let e = &scan[k];
            let name_chars = str_chars(e.name.as_str());
            let usable = name_chars.len() > 0 && !chars_are(&name_chars, "N/A");
            assert(usable == has_usable_name(sv[k as int]));
            if usable {
                let slot = procs.len();
                procs.push(CachedProcess {
                    pid: e.pid.clone(),
                    info: ProcessInfo { name: e.name.clone(), command: e.command.clone(), last_seen: now },
                });
                proof { origin = origin.push(k as int); }
                let ghost before = index@;
                let mut m: usize = 0;
                while m < e.inodes.len()
                    invariant
                        m <= e.inodes.len(),
                        slot < procs@.len(),
                        forall|i: u64| #[trigger] index@.contains_key(i) <==> (before.contains_key(i)
                            || in_prefix(e.inodes@, m as int, i)),
                        forall|i: u64| #[trigger] index@.contains_key(i) ==> (
                            if in_prefix(e.inodes@, m as int, i) { index@[i] == slot } else { index@[i] == before[i] }),
                    decreases e.inodes.len() - m,
                {
                    index.insert(e.inodes[m], slot);
                    assert forall|i: u64| in_prefix(e.inodes@, m + 1, i) <==> (
                        in_prefix(e.inodes@, m as int, i) || i == e.inodes@[m as int]) by {
                        if i == e.inodes@[m as int] {
                            assert(e.inodes@[m as int] == i);
                        }
                    }
                    m += 1;
                }
                assert forall|i: u64| in_prefix(e.inodes@, e.inodes@.len() as int, i) <==> e.inodes@.contains(i) by {
                    if e.inodes@.contains(i) {
                        let w = choose|w: int| 0 <= w < e.inodes@.len() && e.inodes@[w] == i;
                        assert(e.inodes@[w] == i);
                    }
                }
            }
            assert forall|i: u64| #[trigger] index@.contains_key(i) <==> last_holder(sv, k + 1, i) >= 0 by {
                assert(sv[k as int].inodes == e.inodes@);
            }
            assert forall|i: u64| #[trigger] index@.contains_key(i) implies index@[i] < procs@.len()
                && origin[index@[i] as int] == last_holder(sv, k + 1, i) by {
                assert(sv[k as int].inodes == e.inodes@);
            }
            k += 1;
        }
        self.inode_to_pid = index;
        self.pid_to_process = procs;
        self.last_update = now;
        assert(self.entries() =~= scan_index(sv));
    }

    /// The `(program, pid, command)` of the process holding `inode` at time
    /// `now`, always answered: inode zero is unknown; a stale cache is first
    /// rebuilt from `scan`; an inode the cache does not know is looked up in
    /// `scan` directly.
    pub fn answer_from_scan(&mut self, inode: u64, now: u64, scan: &Vec<ProcessEntry>) -> (r: (String, String, String))
        requires
            old(self).wf(),
        ensures
            final(self).wf(),
            final(self).update_interval() == old(self).update_interval(),
            inode == 0 ==> r.0@ == not_available() && r.1@ == not_available() && r.2@ == not_available()
                && final(self).entries() == old(self).entries() && final(self).last_update() == old(self).last_update(),
            inode != 0 && old(self).is_stale(now) ==> final(self).entries() == scan_index(scan_view(scan@))
                && final(self).last_update() == now,
            inode != 0 && !old(self).is_stale(now) ==> final(self).entries() == old(self).entries()
                && final(self).last_update() == old(self).last_update(),
            inode != 0 ==> (r.0@, r.1@, r.2@) == if final(self).entries().contains_key(inode) {
                final(self).entries()[inode]
            } else {
                scan_lookup(scan_view(scan@), inode)
            },
    {
        if inode == 0 {
            return unknown_process();
        }
        if let CacheAnswer::Stale = self.get_process_info(inode, now) {
            self.update_cache(scan, now);
        }
        match self.get_process_info(inode, now) {
            CacheAnswer::Found(a, b, c) => (a, b, c),
            _ => lookup_in_scan(scan, inode),
        }
    }

    /// Empties the cache; it counts as fresh from `now`.
    pub fn clear(&mut self, now: u64)
        ensures
            final(self).wf(),
            final(self).entries() == Map::<u64, (Seq<char>, Seq<char>, Seq<char>)>::empty(),
            final(self).last_update() == now,
            final(self).update_interval() == old(self).update_interval(),
    {
        broadcast use vstd::std_specs::hash::group_hash_axioms;
        self.inode_to_pid.clear();
        self.pid_to_process.clear();
        self.last_update = now;
        assert(self.entries() =~= Map::<u64, (Seq<char>, Seq<char>, Seq<char>)>::empty());
    }

    /// Sets how long, in milliseconds, the cache is trusted after a rebuild.
    pub fn set_update_interval(&mut self, interval: u64)
        requires
            old(self).wf(),
        ensures
            final(self).wf(),
            final(self).entries() == old(self).entries(),
            final(self).last_update() == old(self).last_update(),
            final(self).update_interval() == interval,
    {
        self.update_interval = interval;
    }
}

} // verus!
