//! IP addresses as the kernel's socket tables write them, and their text forms.
use vstd::prelude::*;
use vstd::string::{StringExecFns, StrSliceExecFns};
use crate::error::{NetworkMonitorError, Result};
use crate::parsing::{IntParse, digit_value, int_parse, parse_failure, parse_hex_u8, scan_digits};
use crate::text::{dec_text, push_char, push_decimal, push_str};

verus! {

/// The two characters that encode byte `i` of a hex-encoded address.
pub open spec fn hex_pair(s: Seq<char>, i: int) -> Seq<char> {
    s.subrange(2 * i, 2 * i + 2)
}

/// Whether pair `i` reads as a byte.
pub open spec fn pair_ok(s: Seq<char>, i: int) -> bool {
    int_parse(hex_pair(s, i), 0xff, 16) is Value
}

/// Whether the first `n` pairs read as bytes.
pub open spec fn pairs_ok(s: Seq<char>, n: int) -> bool {
    forall|i: int| 0 <= i < n ==> #[trigger] pair_ok(s, i)
}

/// The byte that pair `i` reads as.
pub open spec fn pair_byte(s: Seq<char>, i: int) -> u8 {
    match int_parse(hex_pair(s, i), 0xff, 16) {
        IntParse::Value(v) => v as u8,
        _ => 0,
    }
}

/// The error for the first pair of the first `n` that does not read as a byte.
pub open spec fn bad_pair_error(s: Seq<char>, n: int, context: Seq<char>, e: NetworkMonitorError) -> bool {
    exists|k: int|
        0 <= k < n && pairs_ok(s, k) && !#[trigger] pair_ok(s, k)
            && (e matches NetworkMonitorError::HexParseError(m)
            && m@ == parse_failure(context, "hex "@, hex_pair(s, k), int_parse(hex_pair(s, k), 0xff, 16)))
}

/// The four bytes of an IPv4 address written as one little-endian 32-bit
/// word: byte `i` comes from pair `3 - i`.
pub open spec fn ipv4_octets_of(s: Seq<char>) -> Seq<u8> {
    seq![pair_byte(s, 3), pair_byte(s, 2), pair_byte(s, 1), pair_byte(s, 0)]
}

/// The sixteen bytes of an IPv6 address, pairs taken left to right.
pub open spec fn ipv6_octets_of(s: Seq<char>) -> Seq<u8> {
    Seq::new(16, |i: int| pair_byte(s, i))
}

/// An IPv4 address as its four bytes, most significant first.
#[derive(Clone, Copy, Debug)]
pub struct Ipv4Address {
    pub octets: [u8; 4],
}

/// An IPv6 address as its sixteen bytes, most significant first.
#[derive(Clone, Copy, Debug)]
pub struct Ipv6Address {
    pub octets: [u8; 16],
}

/// Reads the first `n` pairs of `s` into bytes, stopping at the first
/// pair that is no byte.
fn read_pairs(s: &str, n: usize, context: &str) -> (r: Result<Vec<u8>>)
    requires
        n <= 16,
        2 * n <= s@.len(),
    ensures
        r is Ok <==> pairs_ok(s@, n as int),
        r matches Ok(v) ==> v@.len() == n && forall|i: int| 0 <= i < n ==> v@[i] == pair_byte(s@, i),
        r matches Err(e) ==> bad_pair_error(s@, n as int, context@, e),
{
    let mut out: Vec<u8> = Vec::new();
    let mut i: usize = 0;
    while i < n
        invariant
            i <= n <= 16,
            2 * n <= s@.len(),
            out@.len() == i,
            pairs_ok(s@, i as int),
            forall|j: int| 0 <= j < i ==> out@[j] == pair_byte(s@, j),
        decreases n - i,
    {
        let chunk = s.substring_char(2 * i, 2 * i + 2);
        match parse_hex_u8(chunk, context) {
            Ok(b) => {
                out.push(b);
                assert(pair_ok(s@, i as int));
            },
            Err(e) => {
                assert(!pair_ok(s@, i as int));
                assert(bad_pair_error(s@, n as int, context@, e));
                return Err(e);
            },
        }
        i += 1;
    }
    Ok(out)
}

fn length_error(lead: &str, len: usize, tail: &str) -> (r: NetworkMonitorError)
    ensures
        r matches NetworkMonitorError::InvalidAddress(m) && m@ == lead@ + dec_text(len as nat) + tail@,
{
    let mut m = String::from_str(lead);
    push_decimal(&mut m, len as u64);
    push_str(&mut m, tail);
    NetworkMonitorError::InvalidAddress(m)
}

/// Decodes an IPv4 address from its eight hex digits in little-endian word order.
pub fn parse_ipv4_hex(ip_hex: &str) -> (r: Result<Ipv4Address>)
    ensures
        r is Ok <==> ip_hex@.len() == 8 && pairs_ok(ip_hex@, 4),
        r matches Ok(a) ==> a.octets@ == ipv4_octets_of(ip_hex@),
        ip_hex@.len() != 8 ==> (r matches Err(NetworkMonitorError::InvalidAddress(m))
            && m@ == "Invalid IPv4 hex length: "@ + dec_text(ip_hex@.len()) + " (expected 8)"@),
        ip_hex@.len() == 8 ==> (r matches Err(e) ==> bad_pair_error(ip_hex@, 4, "IPv4 byte"@, e)),
{
    let len = ip_hex.unicode_len();
    if len != 8 {
        return Err(length_error("Invalid IPv4 hex length: ", len, " (expected 8)"));
    }
    let b = read_pairs(ip_hex, 4, "IPv4 byte")?;
    let a = Ipv4Address { octets: [b[3], b[2], b[1], b[0]] };
    assert(a.octets@ =~= ipv4_octets_of(ip_hex@));
    Ok(a)
}

/// Decodes an IPv6 address from its thirty-two hex digits, left to right.
pub fn parse_ipv6_hex(ip_hex: &str) -> (r: Result<Ipv6Address>)
    ensures
        r is Ok <==> ip_hex@.len() == 32 && pairs_ok(ip_hex@, 16),
        r matches Ok(a) ==> a.octets@ == ipv6_octets_of(ip_hex@),
        ip_hex@.len() != 32 ==> (r matches Err(NetworkMonitorError::InvalidAddress(m))
            && m@ == "Invalid IPv6 hex length: "@ + dec_text(ip_hex@.len()) + " (expected 32)"@),
        ip_hex@.len() == 32 ==> (r matches Err(e) ==> bad_pair_error(ip_hex@, 16, "IPv6 byte"@, e)),
{
    let len = ip_hex.unicode_len();
    if len != 32 {
        return Err(length_error("Invalid IPv6 hex length: ", len, " (expected 32)"));
    }
    let b = read_pairs(ip_hex, 16, "IPv6 byte")?;
    let mut octets = [0u8; 16];
    let mut i: usize = 0;
    while i < 16
        invariant
            i <= 16,
            b@.len() == 16,
            forall|j: int| 0 <= j < 16 ==> b@[j] == pair_byte(ip_hex@, j),
            forall|j: int| 0 <= j < i ==> octets@[j] == b@[j],
        decreases 16 - i,
    {
        octets[i] = b[i];
        i += 1;
    }
    let a = Ipv6Address { octets };
    assert(a.octets@ =~= ipv6_octets_of(ip_hex@));
    Ok(a)
}


/// Dotted-decimal text of four bytes.
pub open spec fn ipv4_text(o: Seq<u8>) -> Seq<char> {
    dec_text(o[0] as nat) + "."@ + dec_text(o[1] as nat) + "."@ + dec_text(o[2] as nat) + "."@
        + dec_text(o[3] as nat)
}

/// The lower-case hex digit for `d < 16`.
pub open spec fn lower_hex_char(d: nat) -> char {
    if d < 10 {
        (d + '0' as nat) as char
    } else {
        (d - 10 + 'a' as nat) as char
    }
}

/// Lower-case hexadecimal text of `n`, without leading zeros.
pub open spec fn lower_hex_text(n: nat) -> Seq<char>
    decreases n,
{
    if n < 16 {
        seq![lower_hex_char(n)]
    } else {
        lower_hex_text(n / 16).push(lower_hex_char(n % 16))
    }
}

/// The eight 16-bit groups of sixteen bytes.
pub open spec fn ipv6_segments(o: Seq<u8>) -> Seq<nat> {
    Seq::new(8, |k: int| (o[2 * k] as nat) * 256 + o[2 * k + 1] as nat)
}

/// Groups in hex, separated by colons.
pub open spec fn join_groups(g: Seq<nat>) -> Seq<char>
    decreases g.len(),
{
    if g.len() == 0 {
        Seq::empty()
    } else if g.len() == 1 {
        lower_hex_text(g[0])
    } else {
        join_groups(g.drop_last()) + ":"@ + lower_hex_text(g.last())
    }
}

/// How many zero groups follow one another from group `i` on.
pub open spec fn zero_run_at(g: Seq<nat>, i: int) -> nat
    decreases g.len() - i,
{
    if 0 <= i < g.len() && g[i] == 0 {
        1 + zero_run_at(g, i + 1)
    } else {
        0
    }
}

/// The first longest run of zero groups that starts before group `n`:
/// its start and length.
pub open spec fn longest_zero_run(g: Seq<nat>, n: int) -> (int, nat)
    decreases n,
{
    if n <= 0 {
        (0, 0)
    } else {
        let (s, l) = longest_zero_run(g, n - 1);
        if zero_run_at(g, n - 1) > l {
            (n - 1, zero_run_at(g, n - 1))
        } else {
            (s, l)
        }
    }
}

/// Whether the bytes hold an IPv4 address mapped into IPv6 (`::ffff:a.b.c.d`).
pub open spec fn is_ipv4_mapped(o: Seq<u8>) -> bool {
    let g = ipv6_segments(o);
    g[0] == 0 && g[1] == 0 && g[2] == 0 && g[3] == 0 && g[4] == 0 && g[5] == 0xffff
}

/// The text of an IPv6 address: a mapped IPv4 address as `::ffff:` and its
/// dotted form; otherwise groups in lower-case hex, the first longest run of
/// two or more zero groups written as `::`.
pub open spec fn ipv6_text(o: Seq<u8>) -> Seq<char> {
    let g = ipv6_segments(o);
    if is_ipv4_mapped(o) {
        "::ffff:"@ + ipv4_text(o.subrange(12, 16))
    } else {
        let (s, l) = longest_zero_run(g, 8);
        if l > 1 {
            join_groups(g.subrange(0, s)) + "::"@ + join_groups(g.subrange(s + l as int, 8))
        } else {
            join_groups(g)
        }
    }
}

fn push_lower_hex(s: &mut String, n: u64)
    ensures
        final(s)@ == old(s)@ + lower_hex_text(n as nat),
    decreases n,
{
    if n >= 16 {
        push_lower_hex(s, n / 16);
    }
    let d: u64 = n % 16;
    let c: char = if d < 10 { ((d as u8) + 48u8) as char } else { ((d as u8) + 87u8) as char };
    push_char(s, c);
    assert(final(s)@ =~= old(s)@ + lower_hex_text(n as nat));
}

fn push_ipv4(s: &mut String, a: u8, b: u8, c: u8, d: u8)
    ensures
        final(s)@ == old(s)@ + ipv4_text(seq![a, b, c, d]),
{
    let ghost start = s@;
    push_decimal(s, a as u64);
    push_char(s, '.');
    push_decimal(s, b as u64);
    push_char(s, '.');
    push_decimal(s, c as u64);
    push_char(s, '.');
    push_decimal(s, d as u64);
    proof { reveal_strlit("."); }
    assert(s@ =~= start + ipv4_text(seq![a, b, c, d]));
}

fn push_groups(s: &mut String, g: &Vec<u16>, lo: usize, hi: usize)
    requires
        lo <= hi <= g.len(),
    ensures
        final(s)@ == old(s)@ + join_groups(g@.subrange(lo as int, hi as int).map_values(|x: u16| x as nat)),
{
    let ghost start = s@;
    let ghost gs = g@.map_values(|x: u16| x as nat);
    let mut i: usize = lo;
    while i < hi
        invariant
            lo <= i <= hi <= g.len(),
            gs == g@.map_values(|x: u16| x as nat),
            s@ == start + join_groups(gs.subrange(lo as int, i as int)),
        decreases hi - i,
    {
        let ghost prev = s@;
        if i > lo {
            push_char(s, ':');
        }
        push_lower_hex(s, g[i] as u64);
        proof {
            reveal_strlit(":");
            let sub = gs.subrange(lo as int, i + 1);
            assert(sub.drop_last() =~= gs.subrange(lo as int, i as int));
            if i == lo {
                assert(sub.len() == 1);
            }
        }
        i += 1;
        assert(s@ =~= start + join_groups(gs.subrange(lo as int, i as int)));
    }
    assert(g@.subrange(lo as int, hi as int).map_values(|x: u16| x as nat) =~= gs.subrange(lo as int, hi as int));
}

impl Ipv4Address {
    /// Dotted-decimal form, as in `127.0.0.1`.
    pub fn to_string(&self) -> (r: String)
        ensures
            r@ == ipv4_text(self.octets@),
    {
        let mut s = String::new();
        push_ipv4(&mut s, self.octets[0], self.octets[1], self.octets[2], self.octets[3]);
        assert(self.octets@ =~= seq![self.octets[0], self.octets[1], self.octets[2], self.octets[3]]);
        assert(s@ =~= ipv4_text(self.octets@));
        s
    }
}

impl Ipv6Address {
    /// The eight groups as numbers.
    pub fn segments(&self) -> (r: Vec<u16>)
        ensures
            r@.map_values(|x: u16| x as nat) == ipv6_segments(self.octets@),
            r@.len() == 8,
    {
        let mut g: Vec<u16> = Vec::new();
        let mut k: usize = 0;
        while k < 8
            invariant
                k <= 8,
                g@.len() == k,
                forall|j: int| 0 <= j < k ==> g@[j] as nat == ipv6_segments(self.octets@)[j],
            decreases 8 - k,
        {
            let v: u16 = (self.octets[2 * k] as u16) * 256 + self.octets[2 * k + 1] as u16;
            g.push(v);
            k += 1;
        }
        assert(g@.map_values(|x: u16| x as nat) =~= ipv6_segments(self.octets@));
        g
    }

    /// Text form, as in `::1` or `fe80::1:2`.
    pub fn to_string(&self) -> (r: String)
        ensures
            r@ == ipv6_text(self.octets@),
    {
        let g = self.segments();
        let ghost gs = ipv6_segments(self.octets@);
        let mut s = String::new();
        if g[0] == 0 && g[1] == 0 && g[2] == 0 && g[3] == 0 && g[4] == 0 && g[5] == 0xffff {
            push_str(&mut s, "::ffff:");
            push_ipv4(&mut s, self.octets[12], self.octets[13], self.octets[14], self.octets[15]);
            assert(self.octets@.subrange(12, 16) =~= seq![self.octets[12], self.octets[13], self.octets[14], self.octets[15]]);
            assert(s@ =~= ipv6_text(self.octets@));
            return s;
        }
        assert(gs[0] == g@[0] as nat && gs[1] == g@[1] as nat && gs[2] == g@[2] as nat);
        assert(gs[3] == g@[3] as nat && gs[4] == g@[4] as nat && gs[5] == g@[5] as nat);
        assert(!is_ipv4_mapped(self.octets@));
        let mut best_start: usize = 0;
        let mut best_len: usize = 0;
        let mut i: usize = 0;
        while i < 8
            invariant
                i <= 8,
                g@.len() == 8,
                gs == g@.map_values(|x: u16| x as nat),
                best_start <= i,
                best_len <= 8 - best_start,
                longest_zero_run(gs, i as int) == (best_start as int, best_len as nat),
            decreases 8 - i,
        {
            let mut j: usize = i;
            while j < 8 && g[j] == 0
                invariant
                    i <= j <= 8,
                    g@.len() == 8,
                    gs == g@.map_values(|x: u16| x as nat),
                    zero_run_at(gs, i as int) == (j - i) + zero_run_at(gs, j as int),
                decreases 8 - j,
            {
                j += 1;
            }
            assert(zero_run_at(gs, j as int) == 0);
            if j - i > best_len {
                best_start = i;
                best_len = j - i;
            }
            i += 1;
        }
        if best_len > 1 {
            push_groups(&mut s, &g, 0, best_start);
            push_str(&mut s, "::");
            push_groups(&mut s, &g, best_start + best_len, 8);
            assert(g@.subrange(0, best_start as int).map_values(|x: u16| x as nat) =~= gs.subrange(0, best_start as int));
            assert(g@.subrange((best_start + best_len) as int, 8).map_values(|x: u16| x as nat) =~= gs.subrange((best_start + best_len) as int, 8));
        } else {
            push_groups(&mut s, &g, 0, 8);
            assert(g@.subrange(0, 8) =~= g@);
            assert(g@.map_values(|x: u16| x as nat) =~= gs);
        }
        assert(s@ =~= ipv6_text(self.octets@));
        s
    }
}


/// The upper-case hex digit for `d < 16`, as the kernel writes them.
pub open spec fn upper_hex_char(d: nat) -> char {
    if d < 10 {
        (d + '0' as nat) as char
    } else {
        (d - 10 + 'A' as nat) as char
    }
}

/// Two upper-case hex digits for a byte.
pub open spec fn upper_hex_byte(b: u8) -> Seq<char> {
    seq![upper_hex_char(b as nat / 16), upper_hex_char(b as nat % 16)]
}

/// The kernel's hex form of an IPv4 address: the bytes as one little-endian
/// 32-bit word, so the last byte comes first.
pub open spec fn ipv4_hex_text(o: Seq<u8>) -> Seq<char> {
    upper_hex_byte(o[3]) + upper_hex_byte(o[2]) + upper_hex_byte(o[1]) + upper_hex_byte(o[0])
}

/// Whether `c` is a digit or an upper-case letter of hexadecimal.
pub open spec fn is_upper_hex_digit(c: char) -> bool {
    ('0' <= c <= '9') || ('A' <= c <= 'F')
}

fn upper_hex_of(d: u8) -> (c: char)
    requires
        d < 16,
    ensures
        c == upper_hex_char(d as nat),
{
    if d < 10 { (d + 48u8) as char } else { (d + 55u8) as char }
}

/// Encodes an address in the kernel's hex form.
pub fn encode_ipv4_hex(addr: &Ipv4Address) -> (r: String)
    ensures
        r@ == ipv4_hex_text(addr.octets@),
{
    let mut s = String::new();
    let mut k: usize = 4;
    while k > 0
        invariant
            k <= 4,
            s@ =~= ipv4_hex_text(addr.octets@).subrange(0, 2 * (4 - k)),
        decreases k,
    {
        k -= 1;
        let b = addr.octets[k];
        push_char(&mut s, upper_hex_of(b / 16));
        push_char(&mut s, upper_hex_of(b % 16));
        assert(s@ =~= ipv4_hex_text(addr.octets@).subrange(0, 2 * (4 - k)));
    }
    s
}

/// Whether `c` is a hexadecimal digit of either case.
pub open spec fn is_hex_digit(c: char) -> bool {
    is_upper_hex_digit(c) || ('a' <= c <= 'f')
}

/// `c` with a lower-case hexadecimal letter made upper-case.
pub open spec fn upper_hex_case(c: char) -> char {
    if 'a' <= c <= 'f' { ((c as u32) - 32) as char } else { c }
}

proof fn lemma_upper_hex_digit(c: char)
    requires
        is_hex_digit(c),
    ensures
        0 <= digit_value(c, 16) < 16,
        upper_hex_char(digit_value(c, 16) as nat) == upper_hex_case(c),
{
}

proof fn lemma_digit_of_upper_hex(d: nat)
    requires
        d < 16,
    ensures
        is_upper_hex_digit(upper_hex_char(d)),
        digit_value(upper_hex_char(d), 16) == d,
{
}

proof fn lemma_two_digits(p: Seq<char>)
    requires
        p.len() == 2,
        0 <= digit_value(p[0], 16),
        0 <= digit_value(p[1], 16),
        p[0] != '+',
    ensures
        int_parse(p, 0xff, 16) == IntParse::Value((digit_value(p[0], 16) * 16 + digit_value(p[1], 16)) as u64),
{
    assert(p.drop_last() =~= seq![p[0]]);
    assert(seq![p[0]].drop_last() =~= Seq::<char>::empty());
    assert(seq![p[0]].last() == p[0]);
    let a = digit_value(p[0], 16);
    let b = digit_value(p[1], 16);
    assert(scan_digits(Seq::<char>::empty(), 0xff, 16) == IntParse::Value(0));
    assert(scan_digits(seq![p[0]], 0xff, 16) == IntParse::Value(a as u64));
    assert(a * 16 + b <= 0xff) by (nonlinear_arith)
        requires 0 <= a < 16, 0 <= b < 16;
}

proof fn lemma_pair_byte(s: Seq<char>, i: int)
    requires
        0 <= i,
        2 * i + 2 <= s.len(),
        is_hex_digit(s[2 * i]),
        is_hex_digit(s[2 * i + 1]),
    ensures
        pair_ok(s, i),
        upper_hex_byte(pair_byte(s, i)) == hex_pair(s, i).map_values(|c: char| upper_hex_case(c)),
{
    let p = hex_pair(s, i);
    lemma_upper_hex_digit(p[0]);
    lemma_upper_hex_digit(p[1]);
    lemma_two_digits(p);
    let a = digit_value(p[0], 16);
    let b = digit_value(p[1], 16);
    let v = pair_byte(s, i);
    assert(v as nat == a * 16 + b);
    assert(v as nat / 16 == a && v as nat % 16 == b) by (nonlinear_arith)
        requires v as nat == a * 16 + b, 0 <= a < 16, 0 <= b < 16;
    assert(upper_hex_byte(v) =~= p.map_values(|c: char| upper_hex_case(c)));
}

/// Decoding the kernel's hex form of an IPv4 address and encoding the result
/// again gives back the same text up to the case of its letters, for every
/// eight hexadecimal digits.
pub proof fn ipv4_hex_round_trip_any_case(s: Seq<char>)
    requires
        s.len() == 8,
        forall|i: int| 0 <= i < 8 ==> is_hex_digit(#[trigger] s[i]),
    ensures
        pairs_ok(s, 4),
        ipv4_hex_text(ipv4_octets_of(s)) == s.map_values(|c: char| upper_hex_case(c)),
{
    assert forall|i: int| 0 <= i < 4 implies #[trigger] pair_ok(s, i) by {
        lemma_pair_byte(s, i);
    }
    lemma_pair_byte(s, 0);
    lemma_pair_byte(s, 1);
    lemma_pair_byte(s, 2);
    lemma_pair_byte(s, 3);
    assert(ipv4_hex_text(ipv4_octets_of(s)) =~= s.map_values(|c: char| upper_hex_case(c)));
}

/// Decoding the kernel's hex form of an IPv4 address and encoding the result
/// again gives back the same text, for every eight digits written in upper
/// case as the kernel does.
pub proof fn ipv4_hex_round_trip(s: Seq<char>)
    requires
        s.len() == 8,
        forall|i: int| 0 <= i < 8 ==> is_upper_hex_digit(#[trigger] s[i]),
    ensures
        pairs_ok(s, 4),
        ipv4_hex_text(ipv4_octets_of(s)) == s,
{
    assert forall|i: int| 0 <= i < 8 implies is_hex_digit(#[trigger] s[i]) by {}
    ipv4_hex_round_trip_any_case(s);
    assert(s.map_values(|c: char| upper_hex_case(c)) =~= s);
}

/// Encoding an address in the kernel's hex form and decoding that text gives
/// back the same four bytes.
pub proof fn ipv4_hex_decodes_encoding(o: Seq<u8>)
    requires
        o.len() == 4,
    ensures
        ipv4_hex_text(o).len() == 8,
        pairs_ok(ipv4_hex_text(o), 4),
        ipv4_octets_of(ipv4_hex_text(o)) == o,
{
    let s = ipv4_hex_text(o);
    assert forall|i: int| 0 <= i < 8 implies is_upper_hex_digit(#[trigger] s[i]) by {
        let b = o[3 - i / 2];
        assert(b as nat / 16 < 16 && b as nat % 16 < 16);
        lemma_digit_of_upper_hex(b as nat / 16);
        lemma_digit_of_upper_hex(b as nat % 16);
    }
    ipv4_hex_round_trip(s);
    assert forall|i: int| 0 <= i < 4 implies pair_byte(s, i) == o[3 - i] by {
        lemma_pair_byte(s, i);
        let b = o[3 - i];
        assert(hex_pair(s, i) =~= upper_hex_byte(b));
        lemma_digit_of_upper_hex(b as nat / 16);
        lemma_digit_of_upper_hex(b as nat % 16);
        lemma_two_digits(hex_pair(s, i));
        assert(b as nat == (b as nat / 16) * 16 + b as nat % 16);
    }
    assert(ipv4_octets_of(s) =~= o);
}

} // verus!
