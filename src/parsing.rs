//! Parsing of the numbers, states and addresses found in kernel socket tables.
use vstd::prelude::*;
use vstd::string::{StringExecFns, StrSliceExecFns};
use crate::error::{NetworkMonitorError, Result};
use crate::text::{dec_text, push_decimal, push_str, str_chars, chars_are};

verus! {

/// The value of `c` as a digit in `radix` (10 or 16), or -1 if it is none.
pub open spec fn digit_value(c: char, radix: nat) -> int {
    if '0' <= c <= '9' && (c as int - '0' as int) < radix {
        c as int - '0' as int
    } else if radix == 16 && 'a' <= c <= 'f' {
        c as int - 'a' as int + 10
    } else if radix == 16 && 'A' <= c <= 'F' {
        c as int - 'A' as int + 10
    } else {
        -1
    }
}

/// How reading a string as an unsigned integer ends.
#[derive(PartialEq, Eq, Structural, Clone, Copy, Debug)]
pub enum IntParse {
    Value(u64),
    Empty,
    InvalidDigit,
    Overflow,
}

/// Reads the digits left to right, stopping at the first character that is
/// no digit or the first digit that takes the value past `max`.
pub open spec fn scan_digits(d: Seq<char>, max: nat, radix: nat) -> IntParse
    decreases d.len(),
{
    if d.len() == 0 {
        IntParse::Value(0)
    } else {
        match scan_digits(d.drop_last(), max, radix) {
            IntParse::Value(v) => {
                let dv = digit_value(d.last(), radix);
                if dv < 0 {
                    IntParse::InvalidDigit
                } else if v * radix + dv > max {
                    IntParse::Overflow
                } else {
                    IntParse::Value((v * radix + dv) as u64)
                }
            },
            other => other,
        }
    }
}

/// Reading `s` as an unsigned integer of at most `max` in `radix`, as the
/// standard library's `from_str_radix` does: one leading `+` is allowed.
pub open spec fn int_parse(s: Seq<char>, max: nat, radix: nat) -> IntParse {
    if s.len() == 0 {
        IntParse::Empty
    } else if s[0] == '+' {
        if s.len() == 1 {
            IntParse::InvalidDigit
        } else {
            scan_digits(s.drop_first(), max, radix)
        }
    } else {
        scan_digits(s, max, radix)
    }
}

/// The value that `int_parse` gives, or none.
pub open spec fn parsed_value(s: Seq<char>, max: nat, radix: nat) -> Option<u64> {
    match int_parse(s, max, radix) {
        IntParse::Value(v) => Some(v),
        _ => None,
    }
}

/// The standard library's wording of a failed integer read.
pub open spec fn int_error_reason(p: IntParse) -> Seq<char> {
    match p {
        IntParse::Empty => "cannot parse integer from empty string"@,
        IntParse::InvalidDigit => "invalid digit found in string"@,
        _ => "number too large to fit in target type"@,
    }
}

/// The detail of the error for a failed read of `input`.
pub open spec fn parse_failure(context: Seq<char>, what: Seq<char>, input: Seq<char>, p: IntParse) -> Seq<char> {
    context + ": Failed to parse "@ + what + "'"@ + input + "': "@ + int_error_reason(p)
}

proof fn lemma_scan_failure_persists(s: Seq<char>, k: int, j: int, max: nat, radix: nat)
    requires
        0 <= k <= j <= s.len(),
        !(scan_digits(s.subrange(0, k), max, radix) is Value),
    ensures
        scan_digits(s.subrange(0, j), max, radix) == scan_digits(s.subrange(0, k), max, radix),
    decreases j - k,
{
    if j > k {
        lemma_scan_failure_persists(s, k, j - 1, max, radix);
        assert(s.subrange(0, j).drop_last() =~= s.subrange(0, j - 1));
    }
}

fn scan_range(cs: &Vec<char>, lo: usize, hi: usize, max: u64, radix: u64) -> (r: IntParse)
    requires
        lo <= hi <= cs.len(),
        radix == 10 || radix == 16,
    ensures
        r == scan_digits(cs@.subrange(lo as int, hi as int), max as nat, radix as nat),
{
    let mut acc: u64 = 0;
    let mut i: usize = lo;
    while i < hi
        invariant
            lo <= i <= hi <= cs.len(),
            radix == 10 || radix == 16,
            acc <= max,
            scan_digits(cs@.subrange(lo as int, i as int), max as nat, radix as nat) == IntParse::Value(acc),
        decreases hi - i,
    {
        let c = cs[i];
        let ghost whole = cs@.subrange(lo as int, hi as int);
        let ghost sub = cs@.subrange(lo as int, i as int + 1);
        assert(sub.drop_last() =~= cs@.subrange(lo as int, i as int));
        assert(sub =~= whole.subrange(0, i - lo + 1));
        assert(whole =~= whole.subrange(0, hi - lo));
        let dv: u64 = if '0' <= c && c <= '9' && ((c as u32 - 48) as u64) < radix {
            (c as u32 - 48) as u64
        } else if radix == 16 && 'a' <= c && c <= 'f' {
            (c as u32 - 87) as u64
        } else if radix == 16 && 'A' <= c && c <= 'F' {
            (c as u32 - 55) as u64
        } else {
            proof { lemma_scan_failure_persists(whole, i - lo + 1, hi - lo, max as nat, radix as nat); }
            return IntParse::InvalidDigit;
        };
        assert(dv as int == digit_value(c, radix as nat));
        if dv > max {
            assert(acc * radix + dv > max) by (nonlinear_arith)
                requires dv > max, radix > 0, acc >= 0;
            proof { lemma_scan_failure_persists(whole, i - lo + 1, hi - lo, max as nat, radix as nat); }
            return IntParse::Overflow;
        }
        let q: u64 = (max - dv) / radix;
        if acc > q {
            assert(acc * radix + dv > max) by (nonlinear_arith)
                requires acc > q, q == (max - dv) / (radix as int), radix > 0, dv <= max;
            proof { lemma_scan_failure_persists(whole, i - lo + 1, hi - lo, max as nat, radix as nat); }
            return IntParse::Overflow;
        }
        assert(acc * radix + dv <= max) by (nonlinear_arith)
            requires acc <= q, q == (max - dv) / (radix as int), radix > 0, dv <= max;
        acc = acc * radix + dv;
        i += 1;
    }
    IntParse::Value(acc)
}

/// Reads `cs[lo..hi]` as `int_parse` does.
pub fn parse_range(cs: &Vec<char>, lo: usize, hi: usize, max: u64, radix: u64) -> (r: IntParse)
    requires
        lo <= hi <= cs.len(),
        radix == 10 || radix == 16,
    ensures
        r == int_parse(cs@.subrange(lo as int, hi as int), max as nat, radix as nat),
{
    let ghost s = cs@.subrange(lo as int, hi as int);
    if lo == hi {
        return IntParse::Empty;
    }
    if cs[lo] == '+' {
        if hi - lo == 1 {
            return IntParse::InvalidDigit;
        }
        assert(s.drop_first() =~= cs@.subrange(lo + 1, hi as int));
        return scan_range(cs, lo + 1, hi, max, radix);
    }
    scan_range(cs, lo, hi, max, radix)
}

fn reason_text(p: IntParse) -> (r: &'static str)
    ensures
        r@ == int_error_reason(p),
{
    match p {
        IntParse::Empty => "cannot parse integer from empty string",
        IntParse::InvalidDigit => "invalid digit found in string",
        _ => "number too large to fit in target type",
    }
}

fn failure_text(context: &str, what: &str, input: &str, p: IntParse) -> (r: String)
    ensures
        r@ == parse_failure(context@, what@, input@, p),
{
    let mut m = String::from_str(context);
    push_str(&mut m, ": Failed to parse ");
    push_str(&mut m, what);
    push_str(&mut m, "'");
    push_str(&mut m, input);
    push_str(&mut m, "': ");
    push_str(&mut m, reason_text(p));
    assert(m@ =~= parse_failure(context@, what@, input@, p));
    m
}

fn parse_hex_bounded(input: &str, context: &str, max: u64) -> (r: Result<u64>)
    ensures
        match int_parse(input@, max as nat, 16) {
            IntParse::Value(v) => r == Ok::<u64, NetworkMonitorError>(v),
            p => r matches Err(NetworkMonitorError::HexParseError(m))
                && m@ == parse_failure(context@, "hex "@, input@, p),
        },
{
    let cs = str_chars(input);
    let p = parse_range(&cs, 0, cs.len(), max, 16);
    assert(cs@.subrange(0, cs@.len() as int) =~= input@);
    match p {
        IntParse::Value(v) => Ok(v),
        _ => Err(NetworkMonitorError::HexParseError(failure_text(context, "hex ", input, p))),
    }
}

/// Reads a hexadecimal byte; a failure names `context` and the input.
pub fn parse_hex_u8(input: &str, context: &str) -> (r: Result<u8>)
    ensures
        match int_parse(input@, 0xff, 16) {
            IntParse::Value(v) => r == Ok::<u8, NetworkMonitorError>(v as u8),
            p => r matches Err(NetworkMonitorError::HexParseError(m))
                && m@ == parse_failure(context@, "hex "@, input@, p),
        },
{
    match parse_hex_bounded(input, context, 0xff) {
        Ok(v) => Ok(v as u8),
        Err(e) => Err(e),
    }
}

/// Reads a hexadecimal 16-bit value; a failure names `context` and the input.
pub fn parse_hex_u16(input: &str, context: &str) -> (r: Result<u16>)
    ensures
        match int_parse(input@, 0xffff, 16) {
            IntParse::Value(v) => r == Ok::<u16, NetworkMonitorError>(v as u16),
            p => r matches Err(NetworkMonitorError::HexParseError(m))
                && m@ == parse_failure(context@, "hex "@, input@, p),
        },
{
    match parse_hex_bounded(input, context, 0xffff) {
        Ok(v) => Ok(v as u16),
        Err(e) => Err(e),
    }
}

/// Reads a hexadecimal 64-bit value; a failure names `context` and the input.
pub fn parse_hex_u64(input: &str, context: &str) -> (r: Result<u64>)
    ensures
        match int_parse(input@, u64::MAX as nat, 16) {
            IntParse::Value(v) => r == Ok::<u64, NetworkMonitorError>(v),
            p => r matches Err(NetworkMonitorError::HexParseError(m))
                && m@ == parse_failure(context@, "hex "@, input@, p),
        },
{
    parse_hex_bounded(input, context, u64::MAX)
}

/// Reads a decimal 64-bit value; a failure names `context` and the input.
pub fn parse_decimal(input: &str, context: &str) -> (r: Result<u64>)
    ensures
        match int_parse(input@, u64::MAX as nat, 10) {
            IntParse::Value(v) => r == Ok::<u64, NetworkMonitorError>(v),
            p => r matches Err(NetworkMonitorError::ParseError(m))
                && m@ == parse_failure(context@, ""@, input@, p),
        },
{
    let cs = str_chars(input);
    let p = parse_range(&cs, 0, cs.len(), u64::MAX, 10);
    assert(cs@.subrange(0, cs@.len() as int) =~= input@);
    match p {
        IntParse::Value(v) => Ok(v),
        _ => Err(NetworkMonitorError::ParseError(failure_text(context, "", input, p))),
    }
}

/// Reads a port number written in hexadecimal.
pub fn parse_port(port_hex: &str) -> (r: Result<u16>)
    ensures
        match int_parse(port_hex@, 0xffff, 16) {
            IntParse::Value(v) => r == Ok::<u16, NetworkMonitorError>(v as u16),
            p => r matches Err(NetworkMonitorError::HexParseError(m))
                && m@ == parse_failure("port"@, "hex "@, port_hex@, p),
        },
{
    parse_hex_u16(port_hex, "port")
}

/// Reads a socket inode written in decimal.
pub fn parse_inode(inode_str: &str) -> (r: Result<u64>)
    ensures
        match int_parse(inode_str@, u64::MAX as nat, 10) {
            IntParse::Value(v) => r == Ok::<u64, NetworkMonitorError>(v),
            p => r matches Err(NetworkMonitorError::ParseError(m))
                && m@ == parse_failure("inode"@, ""@, inode_str@, p),
        },
{
    parse_decimal(inode_str, "inode")
}

/// The name of a TCP state byte as the kernel numbers them.
pub open spec fn tcp_state_name(v: u8) -> Seq<char> {
    if v == 0x01 { "ESTABLISHED"@ }
    else if v == 0x02 { "SYN_SENT"@ }
    else if v == 0x03 { "SYN_RECV"@ }
    else if v == 0x04 { "FIN_WAIT1"@ }
    else if v == 0x05 { "FIN_WAIT2"@ }
    else if v == 0x06 { "TIME_WAIT"@ }
    else if v == 0x07 { "CLOSE"@ }
    else if v == 0x08 { "CLOSE_WAIT"@ }
    else if v == 0x09 { "LAST_ACK"@ }
    else if v == 0x0A { "LISTEN"@ }
    else if v == 0x0B { "CLOSING"@ }
    else if v == 0x0C { "NEW_SYN_RECV"@ }
    else { "UNKNOWN("@ + dec_text(v as nat) + ")"@ }
}

/// The state text for a hexadecimal state field: its name, or plain
/// `UNKNOWN` when the field is no hexadecimal byte.
pub open spec fn tcp_state_text(s: Seq<char>) -> Seq<char> {
    match int_parse(s, 0xff, 16) {
        IntParse::Value(v) => tcp_state_name(v as u8),
        _ => "UNKNOWN"@,
    }
}

/// The text of a state byte.
pub fn tcp_state_of(v: u8) -> (r: String)
    ensures
        r@ == tcp_state_name(v),
{
    match v {
        0x01 => String::from_str("ESTABLISHED"),
        0x02 => String::from_str("SYN_SENT"),
        0x03 => String::from_str("SYN_RECV"),
        0x04 => String::from_str("FIN_WAIT1"),
        0x05 => String::from_str("FIN_WAIT2"),
        0x06 => String::from_str("TIME_WAIT"),
        0x07 => String::from_str("CLOSE"),
        0x08 => String::from_str("CLOSE_WAIT"),
        0x09 => String::from_str("LAST_ACK"),
        0x0A => String::from_str("LISTEN"),
        0x0B => String::from_str("CLOSING"),
        0x0C => String::from_str("NEW_SYN_RECV"),
        _ => {
            let mut s = String::from_str("UNKNOWN(");
            push_decimal(&mut s, v as u64);
            push_str(&mut s, ")");
            assert(s@ =~= tcp_state_name(v));
            s
        },
    }
}

/// Decodes the state field of a socket table line.
pub fn parse_tcp_state(state_hex: &str) -> (r: String)
    ensures
        r@ == tcp_state_text(state_hex@),
{
    match parse_hex_u8(state_hex, "TCP state") {
        Ok(v) => tcp_state_of(v),
        Err(_) => String::from_str("UNKNOWN"),
    }
}

/// Whether every character is an ASCII digit.
pub open spec fn all_ascii_digits(s: Seq<char>) -> bool {
    forall|i: int| 0 <= i < s.len() ==> '0' <= #[trigger] s[i] <= '9'
}

/// Accepts a process id made of ASCII digits only (the empty one included).
pub fn validate_pid(pid_str: &str) -> (r: Result<()>)
    ensures
        r is Ok <==> all_ascii_digits(pid_str@),
        r is Err ==> (r matches Err(NetworkMonitorError::InvalidPid(m))
            && m@ == "PID contains non-digit characters: "@ + pid_str@),
{
    let cs = str_chars(pid_str);
    let mut i: usize = 0;
    while i < cs.len()
        invariant
            i <= cs.len(),
            cs@ == pid_str@,
            forall|j: int| 0 <= j < i ==> '0' <= #[trigger] cs@[j] <= '9',
        decreases cs.len() - i,
    {
        if !('0' <= cs[i] && cs[i] <= '9') {
            let mut m = String::from_str("PID contains non-digit characters: ");
            push_str(&mut m, pid_str);
            return Err(NetworkMonitorError::InvalidPid(m));
        }
        i += 1;
    }
    Ok(())
}


/// How many colons `s` holds.
pub open spec fn colon_count(s: Seq<char>) -> nat
    decreases s.len(),
{
    if s.len() == 0 {
        0
    } else {
        colon_count(s.drop_last()) + if s.last() == ':' { 1nat } else { 0nat }
    }
}

/// Whether `s` holds no colon.
pub open spec fn no_colon(s: Seq<char>) -> bool {
    forall|i: int| 0 <= i < s.len() ==> #[trigger] s[i] != ':'
}

proof fn lemma_colon_count_zero(s: Seq<char>)
    requires
        no_colon(s),
    ensures
        colon_count(s) == 0,
    decreases s.len(),
{
    if s.len() > 0 {
        lemma_colon_count_zero(s.drop_last());
    }
}

/// Splits `ip:port` at its one colon; any other number of colons is an error.
pub fn split_socket_addr(addr_str: &str) -> (r: Result<(&str, &str)>)
    ensures
        r is Ok <==> colon_count(addr_str@) == 1,
        r matches Ok((ip, port)) ==> addr_str@ == ip@ + seq![':'] + port@ && no_colon(ip@)
            && no_colon(port@),
        r is Err ==> (r matches Err(NetworkMonitorError::InvalidAddress(m))
            && m@ == "Invalid socket address format: "@ + addr_str@),
{
    let cs = str_chars(addr_str);
    let mut count: usize = 0;
    let mut first: usize = 0;
    let mut i: usize = 0;
    while i < cs.len()
        invariant
            i <= cs.len(),
            cs@ == addr_str@,
            count as nat == if colon_count(cs@.subrange(0, i as int)) >= 2 { 2 } else { colon_count(cs@.subrange(0, i as int)) },
            count == 0 ==> no_colon(cs@.subrange(0, i as int)),
            count >= 1 ==> first < i && cs@[first as int] == ':' && no_colon(cs@.subrange(0, first as int)),
            count == 1 ==> no_colon(cs@.subrange(first + 1, i as int)),
        decreases cs.len() - i,
    {
        assert(cs@.subrange(0, i + 1).drop_last() =~= cs@.subrange(0, i as int));
        if cs[i] == ':' {
            if count == 0 {
                first = i;
                assert(cs@.subrange(first + 1, i + 1) =~= Seq::<char>::empty());
            }
            if count < 2 {
                count = count + 1;
            }
        } else {
            assert(cs@.subrange(0, i + 1) =~= cs@.subrange(0, i as int).push(cs@[i as int]));
            if count == 1 {
                assert(cs@.subrange(first + 1, i + 1) =~= cs@.subrange(first + 1, i as int).push(cs@[i as int]));
            }
        }
        i += 1;
    }
    assert(cs@.subrange(0, cs@.len() as int) =~= cs@);
    if count != 1 {
        let mut m = String::from_str("Invalid socket address format: ");
        push_str(&mut m, addr_str);
        return Err(NetworkMonitorError::InvalidAddress(m));
    }
    let ip = addr_str.substring_char(0, first);
    let port = addr_str.substring_char(first + 1, cs.len());
    assert(addr_str@ =~= ip@ + seq![':'] + port@);
    Ok((ip, port))
}

/// The readable form of an address that matches one of the well-known
/// patterns, or the address itself.
pub open spec fn normalized(addr: Seq<char>) -> Seq<char> {
    if addr == "0.0.0.0:*"@ || addr == "*:*"@ {
        "ANY"@
    } else if addr == "127.0.0.1:*"@ || addr == "[::1]:*"@ {
        "LOCALHOST"@
    } else {
        addr
    }
}

/// Names the wildcard and loopback addresses; leaves the others as they are.
pub fn normalize_address(addr: &str) -> (r: String)
    ensures
        r@ == normalized(addr@),
{
    let cs = str_chars(addr);
    if chars_are(&cs, "0.0.0.0:*") || chars_are(&cs, "*:*") {
        String::from_str("ANY")
    } else if chars_are(&cs, "127.0.0.1:*") || chars_are(&cs, "[::1]:*") {
        String::from_str("LOCALHOST")
    } else {
        String::from_str(addr)
    }
}

} // verus!
