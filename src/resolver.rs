//! Naming remote endpoints: fixed names for well-known addresses, a cache
//! of looked-up host names, and at most one lookup in flight per IP.
use vstd::prelude::*;
use vstd::string::StringExecFns;
use crate::processes::starts_with;
use crate::sockets::{fields_of, split_fields, split_lines, text_lines, views};
use crate::text::{chars_are, chars_start_with, push_char, push_chars, slice_chars, str_chars, string_of};

verus! {

/// The fixed name of a wildcard, loopback or mDNS address, if it is one.
pub open spec fn fixed_name(addr: Seq<char>) -> Option<Seq<char>> {
    if addr == "0.0.0.0:*"@ || addr == "*:*"@ || addr == "[::]:*"@ {
        Some("ANY"@)
    } else if starts_with(addr, "127.0.0.1:"@) || starts_with(addr, "[::1]:"@) {
        Some("LOCALHOST"@)
    } else if starts_with(addr, "224.0.0.251:"@) {
        Some("MDNS"@)
    } else {
        None
    }
}

/// Index of the last colon of `s`, or -1.
pub open spec fn last_colon(s: Seq<char>) -> int
    decreases s.len(),
{
    if s.len() == 0 {
        -1
    } else if s.last() == ':' {
        s.len() - 1
    } else {
        last_colon(s.drop_last())
    }
}

/// `s` without the square brackets around it, if it has them.
pub open spec fn unbracketed(s: Seq<char>) -> Seq<char> {
    if s.len() >= 2 && s[0] == '[' && s.last() == ']' {
        s.subrange(1, s.len() - 1)
    } else {
        s
    }
}

/// The bare IP and the port of an address: split at its last colon, the IP
/// without brackets; without a colon, the whole address and no port.
pub open spec fn host_and_port(addr: Seq<char>) -> (Seq<char>, Seq<char>) {
    let k = last_colon(addr);
    if k < 0 {
        (addr, Seq::empty())
    } else {
        (unbracketed(addr.subrange(0, k)), addr.subrange(k + 1, addr.len() as int))
    }
}

/// A lookup that the caller is to run: the address as asked for, its bare
/// IP and its port.
#[derive(Clone, Debug)]
pub struct LookupRequest {
    pub addr: String,
    pub ip: String,
    pub port: String,
}

/// The value that the cache holds for `key`: that of its last entry.
pub open spec fn cached(c: Seq<(Seq<char>, Seq<char>)>, key: Seq<char>) -> Option<Seq<char>>
    decreases c.len(),
{
    if c.len() == 0 {
        None
    } else if c.last().0 == key {
        Some(c.last().1)
    } else {
        cached(c.drop_last(), key)
    }
}

/// Views of cache entries.
pub open spec fn pair_views(c: Seq<(String, String)>) -> Seq<(Seq<char>, Seq<char>)> {
    c.map_values(|p: (String, String)| (p.0@, p.1@))
}

/// The IPs of a pending list.
pub open spec fn ip_set(p: Seq<String>) -> Set<Seq<char>> {
    Set::new(|x: Seq<char>| exists|i: int| 0 <= i < p.len() && (#[trigger] p[i])@ == x)
}

/// What a resolver holds, as values.
pub struct ResolverView {
    pub cache: Seq<(Seq<char>, Seq<char>)>,
    pub pending: Set<Seq<char>>,
    pub resolve_hosts: bool,
}

/// Resolver of remote endpoints to host names. It never blocks: a lookup
/// that it decides on is handed to the caller, who reports its outcome.
pub struct AddressResolver {
    cache: Vec<(String, String)>,
    pending: Vec<String>,
    resolve_hosts: bool,
}

impl View for AddressResolver {
    type V = ResolverView;

    closed spec fn view(&self) -> ResolverView {
        ResolverView { cache: pair_views(self.cache@), pending: ip_set(self.pending@), resolve_hosts: self.resolve_hosts }
    }
}

/// What `resolve_address` returns for `addr` in state `s`, whether it asks
/// for a lookup, and the state after.
pub open spec fn resolve_step(s: ResolverView, addr: Seq<char>) -> (Seq<char>, bool, ResolverView) {
    if fixed_name(addr) is Some {
        (fixed_name(addr)->0, false, s)
    } else if !s.resolve_hosts {
        (addr, false, s)
    } else if cached(s.cache, addr) is Some {
        (cached(s.cache, addr)->0, false, s)
    } else {
        let ip = host_and_port(addr).0;
        if s.pending.contains(ip) {
            (addr, false, s)
        } else {
            (addr, true, ResolverView { pending: s.pending.insert(ip), ..s })
        }
    }
}

/// The resolver after the lookup of `addr` (bare IP `ip`, port `port`)
/// ended with `output`: the name it gave is cached under the address, and
/// the IP leaves the pending set.
pub open spec fn complete_step(
    s: ResolverView,
    addr: Seq<char>,
    ip: Seq<char>,
    port: Seq<char>,
    output: Option<Seq<char>>,
) -> ResolverView {
    ResolverView {
        cache: s.cache.push((addr, resolved_text(output, addr, port))),
        pending: s.pending.remove(ip),
        resolve_hosts: s.resolve_hosts,
    }
}

/// Whether `t` occurs in `s`.
pub open spec fn has_sub(s: Seq<char>, t: Seq<char>) -> bool {
    exists|i: int| 0 <= i && i + t.len() <= s.len() && #[trigger] s.subrange(i, i + t.len()) == t
}

/// `s` without the dots at its end.
pub open spec fn trim_dots(s: Seq<char>) -> Seq<char>
    decreases s.len(),
{
    if s.len() > 0 && s.last() == '.' { trim_dots(s.drop_last()) } else { s }
}

/// Index of the first word that is `pointer` or `alias` and has a word
/// after it, or -1.
pub open spec fn marker_index(w: Seq<Seq<char>>, from: int) -> int
    decreases w.len() - from,
{
    if from < 0 || from + 1 >= w.len() {
        -1
    } else if w[from] == "pointer"@ || w[from] == "alias"@ {
        from
    } else {
        marker_index(w, from + 1)
    }
}

/// The host name that one line of the lookup's output gives, if any.
pub open spec fn line_host(line: Seq<char>) -> Option<Seq<char>> {
    if has_sub(line, "domain name pointer"@) || has_sub(line, "is an alias for"@) {
        let w = fields_of(line);
        let k = marker_index(w, 0);
        if k >= 0 { Some(trim_dots(w[k + 1])) } else { None }
    } else {
        None
    }
}

/// The host name that the last naming line among `ls` gives, if any.
pub open spec fn output_host(ls: Seq<Seq<char>>) -> Option<Seq<char>>
    decreases ls.len(),
{
    if ls.len() == 0 {
        None
    } else {
        match line_host(ls.last()) {
            Some(h) => Some(h),
            None => output_host(ls.drop_last()),
        }
    }
}

/// The display text that a lookup's output gives for `addr`: the host name
/// with the port the address had, or the address itself where the output names no
/// host or the lookup could not run.
pub open spec fn resolved_text(output: Option<Seq<char>>, addr: Seq<char>, port: Seq<char>) -> Seq<char> {
    match output {
        Some(o) => match output_host(text_lines(o)) {
            Some(h) => if port.len() == 0 { h } else { h + ":"@ + port },
            None => addr,
        },
        None => addr,
    }
}


fn fixed_name_of(cs: &Vec<char>) -> (r: Option<String>)
    ensures
        r matches Some(t) ==> fixed_name(cs@) == Some(t@),
        r is None ==> fixed_name(cs@) is None,
{
    if chars_are(cs, "0.0.0.0:*") || chars_are(cs, "*:*") || chars_are(cs, "[::]:*") {
        Some(String::from_str("ANY"))
    } else if chars_start_with(cs, "127.0.0.1:") || chars_start_with(cs, "[::1]:") {
        Some(String::from_str("LOCALHOST"))
    } else if chars_start_with(cs, "224.0.0.251:") {
        Some(String::from_str("MDNS"))
    } else {
        None
    }
}

proof fn lemma_last_colon(s: Seq<char>, k: int)
    requires
        -1 <= k < s.len(),
        k >= 0 ==> s[k] == ':',
        forall|j: int| k < j < s.len() ==> s[j] != ':',
    ensures
        last_colon(s) == k,
    decreases s.len(),
{
    if s.len() > 0 && k != s.len() - 1 {
        lemma_last_colon(s.drop_last(), k);
    }
}

fn split_host(cs: &Vec<char>) -> (r: (Vec<char>, Vec<char>))
    ensures
        (r.0@, r.1@) == host_and_port(cs@),
{
    let mut k: usize = cs.len();
    while k > 0 && cs[k - 1] != ':'
        invariant
            k <= cs.len(),
            forall|j: int| k <= j < cs.len() ==> cs@[j] != ':',
        decreases k,
    {
        k -= 1;
    }
    if k == 0 {
        proof { lemma_last_colon(cs@, -1); }
        return (slice_chars(cs, 0, cs.len()), Vec::new());
    }
    proof { lemma_last_colon(cs@, k - 1); }
    let colon = k - 1;
    let port = slice_chars(cs, colon + 1, cs.len());
    if colon >= 2 && cs[0] == '[' && cs[colon - 1] == ']' {
        let ip = slice_chars(cs, 1, colon - 1);
        assert(ip@ =~= unbracketed(cs@.subrange(0, colon as int)));
        (ip, port)
    } else {
        let ip = slice_chars(cs, 0, colon);
        (ip, port)
    }
}

fn in_pending(p: &Vec<String>, ip: &String) -> (r: bool)
    ensures
        r == ip_set(p@).contains(ip@),
{
    let mut i: usize = 0;
    while i < p.len()
        invariant
            i <= p.len(),
            forall|j: int| 0 <= j < i ==> (#[trigger] p@[j])@ != ip@,
        decreases p.len() - i,
    {
        if p[i] == *ip {
            assert(p@[i as int]@ == ip@);
            return true;
        }
        i += 1;
    }
    false
}

fn cache_get(c: &Vec<(String, String)>, key: &Vec<char>) -> (r: Option<String>)
    ensures
        r matches Some(v) ==> cached(pair_views(c@), key@) == Some(v@),
        r is None ==> cached(pair_views(c@), key@) is None,
{
    let ghost cv = pair_views(c@);
    let mut i: usize = c.len();
    assert(cv.subrange(0, cv.len() as int) =~= cv);
    while i > 0
        invariant
            i <= c.len(),
            cv == pair_views(c@),
            cached(cv, key@) == cached(cv.subrange(0, i as int), key@),
        decreases i,
    {
        let ghost sub = cv.subrange(0, i as int);
        assert(sub.drop_last() =~= cv.subrange(0, i - 1));
        let k = str_chars(c[i - 1].0.as_str());
        if chars_are_vec(&k, key) {
            return Some(c[i - 1].1.clone());
        }
        i -= 1;
    }
    None
}

fn chars_are_vec(a: &Vec<char>, b: &Vec<char>) -> (r: bool)
    ensures
        r == (a@ == b@),
{
    if a.len() != b.len() {
        return false;
    }
    let mut i: usize = 0;
    while i < a.len()
        invariant
            i <= a.len(),
            a@.len() == b@.len(),
            forall|j: int| 0 <= j < i ==> a@[j] == b@[j],
        decreases a.len() - i,
    {
        if a[i] != b[i] {
            return false;
        }
        i += 1;
    }
    assert(a@ =~= b@);
    true
}

impl AddressResolver {
    /// An empty resolver; `resolve_hosts` says whether it looks names up.
    pub fn new(resolve_hosts: bool) -> (r: AddressResolver)
        ensures
            r@.cache.len() == 0,
            r@.pending == Set::<Seq<char>>::empty(),
            r@.resolve_hosts == resolve_hosts,
    {
        let r = AddressResolver { cache: Vec::new(), pending: Vec::new(), resolve_hosts };
        assert(r@.pending =~= Set::<Seq<char>>::empty());
        r
    }

    /// The text to show for `addr` now, and the lookup to start, if any.
    /// Fixed names come first; with lookups off the address is shown as it
    /// is; a cached name is shown; otherwise the address is shown and a
    /// lookup is asked for unless one is already pending for its IP.
    pub fn resolve_address(&mut self, addr: &str) -> (r: (String, Option<LookupRequest>))
        ensures
            (r.0@, r.1 is Some, final(self)@) == resolve_step(old(self)@, addr@),
            r.1 matches Some(q) ==> q.addr@ == addr@ && (q.ip@, q.port@) == host_and_port(addr@),
    {
        let cs = str_chars(addr);
        if let Some(t) = fixed_name_of(&cs) {
            return (t, None);
        }
        if !self.resolve_hosts {
            return (String::from_str(addr), None);
        }
        if let Some(v) = cache_get(&self.cache, &cs) {
            return (v, None);
        }
        let (ip_chars, port_chars) = split_host(&cs);
        let ip = string_of(&ip_chars);
        if in_pending(&self.pending, &ip) {
            return (String::from_str(addr), None);
        }
        let ghost before = self.pending@;
        self.pending.push(ip.clone());
        assert(ip_set(self.pending@) =~= ip_set(before).insert(ip@)) by {
            assert forall|x: Seq<char>| ip_set(self.pending@).contains(x) == ip_set(before).insert(ip@).contains(x) by {
                if ip_set(before).contains(x) {
                    let i = choose|i: int| 0 <= i < before.len() && (#[trigger] before[i])@ == x;
                    assert(self.pending@[i]@ == x);
                }
                if x == ip@ {
                    assert(self.pending@[before.len() as int]@ == x);
                }
                if ip_set(self.pending@).contains(x) {
                    let i = choose|i: int| 0 <= i < self.pending@.len() && (#[trigger] self.pending@[i])@ == x;
                    if i < before.len() {
                        assert(before[i]@ == x);
                    }
                }
            }
        }
        let q = LookupRequest { addr: String::from_str(addr), ip, port: string_of(&port_chars) };
        (String::from_str(addr), Some(q))
    }

    /// Turns lookups on or off; turning them off empties the cache.
    pub fn set_resolve_hosts(&mut self, resolve: bool)
        ensures
            final(self)@.resolve_hosts == resolve,
            final(self)@.pending == old(self)@.pending,
            resolve ==> final(self)@.cache == old(self)@.cache,
            !resolve ==> final(self)@.cache.len() == 0,
    {
        self.resolve_hosts = resolve;
        if !resolve {
            self.cache.clear();
        }
    }

    /// Whether lookups are on.
    pub fn get_resolve_hosts(&self) -> (r: bool)
        ensures
            r == self@.resolve_hosts,
    {
        self.resolve_hosts
    }

    /// Forgets every looked-up name.
    pub fn clear_cache(&mut self)
        ensures
            final(self)@.cache.len() == 0,
            final(self)@.pending == old(self)@.pending,
            final(self)@.resolve_hosts == old(self)@.resolve_hosts,
    {
        self.cache.clear();
    }
}


fn find_sub(s: &Vec<char>, t: &str) -> (r: bool)
    ensures
        r == has_sub(s@, t@),
{
    let tc = str_chars(t);
    if tc.len() > s.len() {
        return false;
    }
    let last = s.len() - tc.len();
    let mut i: usize = 0;
    loop
        invariant
            tc@ == t@,
            tc.len() <= s.len(),
            last == s.len() - tc.len(),
            i <= last,
            forall|j: int| 0 <= j < i ==> #[trigger] s@.subrange(j, j + tc@.len()) != t@,
        ensures
            forall|j: int| 0 <= j <= last ==> #[trigger] s@.subrange(j, j + tc@.len()) != t@,
        decreases last - i,
    {
        let piece = slice_chars(s, i, i + tc.len());
        if chars_are_vec(&piece, &tc) {
            return true;
        }
        assert(s@.subrange(i as int, i + tc@.len()) != t@);
        if i == last {
            break;
        }
        i += 1;
    }
    assert forall|j: int| 0 <= j && j + t@.len() <= s@.len() implies #[trigger] s@.subrange(j, j + t@.len()) != t@ by {
        assert(j <= last);
    }
    false
}

fn trim_dots_of(w: &Vec<char>) -> (r: Vec<char>)
    ensures
        r@ == trim_dots(w@),
{
    let mut n: usize = w.len();
    assert(w@.subrange(0, n as int) =~= w@);
    while n > 0 && w[n - 1] == '.'
        invariant
            n <= w.len(),
            trim_dots(w@) == trim_dots(w@.subrange(0, n as int)),
        decreases n,
    {
        assert(w@.subrange(0, n as int).drop_last() =~= w@.subrange(0, n - 1));
        n -= 1;
    }
    slice_chars(w, 0, n)
}

fn host_of_line(line: &Vec<char>) -> (r: Option<Vec<char>>)
    ensures
        r matches Some(h) ==> line_host(line@) == Some(h@),
        r is None ==> line_host(line@) is None,
{
    if !find_sub(line, "domain name pointer") && !find_sub(line, "is an alias for") {
        return None;
    }
    let w = split_fields(line);
    let ghost wv = views(w@);
    let mut i: usize = 0;
    while i < w.len() && i + 1 < w.len()
        invariant
            i <= w.len(),
            has_sub(line@, "domain name pointer"@) || has_sub(line@, "is an alias for"@),
            wv == views(w@),
            wv == fields_of(line@),
            marker_index(wv, 0) == marker_index(wv, i as int),
        decreases w.len() - i,
    {
        assert(wv[i as int] == w@[i as int]@);
        if chars_are(&w[i], "pointer") || chars_are(&w[i], "alias") {
            assert(marker_index(wv, i as int) == i);
            assert(wv[i + 1] == w@[i + 1]@);
            let h = trim_dots_of(&w[i + 1]);
            assert(marker_index(fields_of(line@), 0) == i);
            assert(line_host(line@) == Some(trim_dots(wv[i + 1])));
            return Some(h);
        }
        i += 1;
    }
    None
}

/// The text to show once a lookup of `addr` (with `port`) has ended:
/// `output` is what the lookup printed, none where it could not run.
pub fn resolved_name(output: Option<&str>, addr: &str, port: &str) -> (r: String)
    ensures
        r@ == resolved_text(match output { Some(o) => Some(o@), None => None }, addr@, port@),
{
    let o = match output {
        Some(o) => o,
        None => return String::from_str(addr),
    };
    let cs = str_chars(o);
    let lines = split_lines(&cs);
    let ghost ls = views(lines@);
    let mut i: usize = lines.len();
    assert(ls.subrange(0, ls.len() as int) =~= ls);
    while i > 0
        invariant
            i <= lines.len(),
            ls == views(lines@),
            ls == text_lines(o@),
            output == Some(o),
            output_host(ls) == output_host(ls.subrange(0, i as int)),
        decreases i,
    {
        let ghost sub = ls.subrange(0, i as int);
        assert(sub.drop_last() =~= ls.subrange(0, i - 1));
        assert(sub.last() == lines@[i - 1]@);
        if let Some(h) = host_of_line(&lines[i - 1]) {
            let pc = str_chars(port);
            let mut t = string_of(&h);
            if pc.len() > 0 {
                push_char(&mut t, ':');
                push_chars(&mut t, &pc);
                proof { reveal_strlit(":"); }
                assert(t@ =~= h@ + ":"@ + port@);
            }
            return t;
        }
        i -= 1;
    }
    String::from_str(addr)
}

impl AddressResolver {
    /// Records the end of a lookup asked for by `resolve_address`: the name
    /// it gave (or the address itself) is cached under the address as it was
    /// asked for, and its IP leaves the pending set, whether it succeeded or not.
    pub fn complete_lookup(&mut self, request: &LookupRequest, output: Option<&str>)
        ensures
            final(self)@ == complete_step(old(self)@, request.addr@, request.ip@, request.port@,
                match output { Some(o) => Some(o@), None => None }),
    {
        let name = resolved_name(output, request.addr.as_str(), request.port.as_str());
        let ghost old_cache = self.cache@;
        self.cache.push((request.addr.clone(), name));
        assert(pair_views(self.cache@) =~= pair_views(old_cache).push((request.addr@, name@)));
        let ghost before = self.pending@;
        let mut kept: Vec<String> = Vec::new();
        let mut i: usize = 0;
        while i < self.pending.len()
            invariant
                i <= self.pending@.len(),
                self.pending@ == before,
                ip_set(kept@) == ip_set(before.subrange(0, i as int)).remove(request.ip@),
            decreases self.pending@.len() - i,
        {
            let ghost prev = kept@;
            if self.pending[i] != request.ip {
                kept.push(self.pending[i].clone());
            }
            assert(ip_set(kept@) =~= ip_set(before.subrange(0, i + 1)).remove(request.ip@)) by {
                assert forall|x: Seq<char>| ip_set(kept@).contains(x) == ip_set(before.subrange(0, i + 1)).remove(request.ip@).contains(x) by {
                    let sub = before.subrange(0, i + 1);
                    if ip_set(kept@).contains(x) {
                        let j = choose|j: int| 0 <= j < kept@.len() && (#[trigger] kept@[j])@ == x;
                        if j < prev.len() {
                            assert(ip_set(prev).contains(x));
                            let m = choose|m: int| 0 <= m < i && (#[trigger] before.subrange(0, i as int)[m])@ == x;
                            assert(sub[m]@ == x);
                        } else {
                            assert(sub[i as int]@ == x);
                        }
                    }
                    if ip_set(sub).remove(request.ip@).contains(x) {
                        let m = choose|m: int| 0 <= m < sub.len() && (#[trigger] sub[m])@ == x;
                        if m < i {
                            assert(before.subrange(0, i as int)[m]@ == x);
                            assert(ip_set(prev).contains(x));
                            let j = choose|j: int| 0 <= j < prev.len() && (#[trigger] prev[j])@ == x;
                            assert(kept@[j]@ == x);
                        } else {
                            assert(kept@[kept@.len() - 1]@ == x);
                        }
                    }
                }
            }
            i += 1;
        }
        assert(before.subrange(0, before.len() as int) =~= before);
        self.pending = kept;
    }
}

/// The wildcard address is named `ANY` and every loopback address
/// `LOCALHOST`, whatever the resolver's state: no lookup is asked for and the
/// state does not change.
pub proof fn fixed_names_ignore_state(s: ResolverView, port: Seq<char>)
    ensures
        resolve_step(s, "0.0.0.0:*"@) == ("ANY"@, false, s),
        resolve_step(s, "127.0.0.1:"@ + port) == ("LOCALHOST"@, false, s),
{
    reveal_strlit("127.0.0.1:");
    reveal_strlit("0.0.0.0:*");
    reveal_strlit("*:*");
    reveal_strlit("[::]:*");
    let a = "127.0.0.1:"@ + port;
    assert(a[0] == '1');
    assert(a.subrange(0, 10) =~= "127.0.0.1:"@);
    assert(starts_with(a, "127.0.0.1:"@));
}

/// At most one lookup per IP is in flight: once a lookup for an IP has been
/// asked for, asking again for any address of that IP, before the lookup
/// completes, starts none; in particular two calls for the same address in a
/// row ask for at most one lookup.
pub proof fn one_lookup_per_ip(s: ResolverView, a: Seq<char>, b: Seq<char>)
    requires
        resolve_step(s, a).1,
        host_and_port(a).0 == host_and_port(b).0,
    ensures
        resolve_step(s, a).2.pending.contains(host_and_port(a).0),
        !resolve_step(resolve_step(s, a).2, b).1,
{
}

/// A lookup asked for and then completed releases its IP and answers the
/// address from then on: asking again shows the looked-up name and starts
/// no lookup, while a later address of the same IP may be looked up anew.
pub proof fn completed_lookup_answers(s: ResolverView, a: Seq<char>, output: Option<Seq<char>>)
    requires
        resolve_step(s, a).1,
    ensures
        ({
            let (ip, port) = host_and_port(a);
            let done = complete_step(resolve_step(s, a).2, a, ip, port, output);
            &&& !done.pending.contains(ip)
            &&& cached(done.cache, a) == Some(resolved_text(output, a, port))
            &&& resolve_step(done, a) == (resolved_text(output, a, port), false, done)
        }),
{
}

} // verus!
