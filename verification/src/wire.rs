//! The wire format of an announcement: a flat JSON object, as UTF-8 bytes,
//! with exactly the fields `sender` (dotted-quad IPv4 string), `host`
//! (string) and `port` (unsigned 16-bit integer), in that order and without
//! inter-token whitespace — the canonical form the announcer emits.
//!
//! The decoder accepts exactly the canonical encodings: `decode` returns a
//! record if and only if its input is `spec_encode` of that record. Together
//! with the injectivity of `spec_encode` this gives the round-trip law: a
//! listener decoding an announcer's datagram recovers the original record.

use vstd::prelude::*;
use crate::addr::Ipv4Address;

verus! {

/// Decimal digit byte for a value below ten.
pub open spec fn digit_byte(n: nat) -> u8
    recommends
        n < 10,
{
    (48 + n) as u8
}

pub open spec fn is_digit(b: u8) -> bool {
    48 <= b <= 57
}

/// Decimal numeral of `n`, most significant digit first, no leading zeros.
pub open spec fn dec(n: nat) -> Seq<u8>
    decreases n,
{
    if n < 10 {
        seq![digit_byte(n)]
    } else {
        dec(n / 10).push(digit_byte(n % 10))
    }
}

/// Value of a digit string, most significant digit first.
pub open spec fn dec_val(s: Seq<u8>) -> nat
    decreases s.len(),
{
    if s.len() == 0 {
        0
    } else {
        (dec_val(s.drop_last()) * 10 + (s.last() - 48)) as nat
    }
}

pub open spec fn all_digits(s: Seq<u8>) -> bool {
    forall|i: int| 0 <= i < s.len() ==> is_digit(#[trigger] s[i])
}

/// A canonical numeral: nonempty, digits only, no leading zero.
pub open spec fn is_canonical_numeral(s: Seq<u8>) -> bool {
    &&& s.len() >= 1
    &&& all_digits(s)
    &&& (s[0] == 48u8 ==> s.len() == 1)
}

pub proof fn lemma_dec_canonical(n: nat)
    ensures
        is_canonical_numeral(dec(n)),
        dec_val(dec(n)) == n,
        n < 10 ==> dec(n).len() == 1,
        n >= 10 ==> dec(n).len() >= 2,
    decreases n,
{
    if n < 10 {
        assert(dec(n) == seq![digit_byte(n)]);
        assert(dec(n).drop_last() == Seq::<u8>::empty());
        assert(dec_val(Seq::<u8>::empty()) == 0);
        assert(dec_val(dec(n)) == (dec_val(Seq::<u8>::empty()) * 10 + (digit_byte(n) - 48)) as nat);
    } else {
        lemma_dec_canonical(n / 10);
        let s = dec(n);
        assert(s == dec(n / 10).push(digit_byte(n % 10)));
        assert(s.drop_last() == dec(n / 10));
        assert(s.last() == digit_byte(n % 10));
        assert(dec_val(s) == (n / 10) * 10 + n % 10);
        assert((n / 10) * 10 + n % 10 == n) by (nonlinear_arith);
        assert(s[0] == dec(n / 10)[0]);
        assert(n / 10 >= 1);
        assert(dec(n / 10)[0] != 48u8) by {
            if dec(n / 10)[0] == 48u8 {
                assert(dec(n / 10).len() == 1);
                assert(dec_val(dec(n / 10)) == n / 10);
                assert(dec(n / 10).drop_last() == Seq::<u8>::empty());
                assert(dec_val(dec(n / 10)) == dec(n / 10).last() - 48);
            }
        }
        assert(forall|i: int| 0 <= i < s.len() ==> is_digit(#[trigger] s[i])) by {
            assert(forall|i: int| 0 <= i < s.len() - 1 ==> s[i] == dec(n / 10)[i]);
        }
    }
}

/// Appends the decimal numeral of `n` to `out`.
pub fn push_dec(out: &mut Vec<u8>, n: u16)
    ensures
        final(out)@ == old(out)@ + dec(n as nat),
    decreases n,
{
    if n < 10 {
        out.push(48 + n as u8);
        assert(out@ =~= old(out)@ + dec(n as nat));
    } else {
        push_dec(out, n / 10);
        out.push(48 + (n % 10) as u8);
        assert(out@ =~= old(out)@ + dec((n / 10) as nat) + dec(n as nat).skip(dec(n as nat).len() - 1)) by {
            assert(dec(n as nat) == dec((n / 10) as nat).push(digit_byte((n % 10) as nat)));
        }
        assert(dec((n / 10) as nat) + dec(n as nat).skip(dec(n as nat).len() - 1) =~= dec(n as nat)) by {
            assert(dec(n as nat) == dec((n / 10) as nat).push(digit_byte((n % 10) as nat)));
        }
        assert(out@ =~= old(out)@ + dec(n as nat));
    }
}

/// Length of the leading run of digit bytes.
pub open spec fn digit_run_len(s: Seq<u8>) -> nat
    decreases s.len(),
{
    if s.len() > 0 && is_digit(s[0]) {
        1 + digit_run_len(s.skip(1))
    } else {
        0
    }
}

proof fn lemma_digit_run(s: Seq<u8>)
    ensures
        digit_run_len(s) <= s.len(),
        forall|i: int| 0 <= i < digit_run_len(s) ==> is_digit(#[trigger] s[i]),
        digit_run_len(s) < s.len() ==> !is_digit(s[digit_run_len(s) as int]),
    decreases s.len(),
{
    if s.len() > 0 && is_digit(s[0]) {
        lemma_digit_run(s.skip(1));
        assert forall|i: int| 0 <= i < digit_run_len(s) implies is_digit(#[trigger] s[i]) by {
            if i > 0 {
                assert(s[i] == s.skip(1)[i - 1]);
            }
        }
        if digit_run_len(s) < s.len() {
            assert(s[digit_run_len(s) as int] == s.skip(1)[digit_run_len(s.skip(1)) as int]);
        }
    }
}

/// The digit run of `digits + rest` is exactly `digits` when `rest` does not
/// begin with a digit.
proof fn lemma_run_of_prefix(digits: Seq<u8>, rest: Seq<u8>)
    requires
        all_digits(digits),
        rest.len() == 0 || !is_digit(rest[0]),
    ensures
        digit_run_len(digits + rest) == digits.len(),
    decreases digits.len(),
{
    let s = digits + rest;
    if digits.len() == 0 {
        assert(s =~= rest);
    } else {
        assert(is_digit(s[0]));
        assert(s.skip(1) =~= digits.skip(1) + rest);
        assert(all_digits(digits.skip(1))) by {
            assert(forall|i: int| 0 <= i < digits.skip(1).len()
                ==> #[trigger] digits.skip(1)[i] == digits[i + 1]);
        }
        lemma_run_of_prefix(digits.skip(1), rest);
    }
}

/// The value of a longer prefix of a digit run is no smaller.
proof fn lemma_dec_val_prefix_monotone(s: Seq<u8>, m: int, k: int)
    requires
        0 <= m <= k <= s.len(),
        all_digits(s),
    ensures
        dec_val(s.take(m)) <= dec_val(s.take(k)),
    decreases k - m,
{
    if m < k {
        lemma_dec_val_prefix_monotone(s, m, k - 1);
        assert(s.take(k).drop_last() =~= s.take(k - 1));
        assert(dec_val(s.take(k)) == (dec_val(s.take(k - 1)) * 10 + (s.take(k).last() - 48)) as nat);
    }
}

/// Result of reading a canonical decimal numeral, bounded by `max`, at the
/// head of `s`: the value and the number of bytes it occupies.
pub open spec fn parse_numeral(s: Seq<u8>, max: nat) -> Option<(nat, nat)> {
    let k = digit_run_len(s);
    if k == 0 {
        None
    } else if s[0] == 48u8 && k > 1 {
        None
    } else if dec_val(s.take(k as int)) > max {
        None
    } else {
        Some((dec_val(s.take(k as int)), k))
    }
}

/// `parse_numeral` recovers `n` from its own numeral: the decimal round trip.
pub proof fn lemma_parse_numeral_of_dec(n: nat, rest: Seq<u8>, max: nat)
    requires
        n <= max,
        rest.len() == 0 || !is_digit(rest[0]),
    ensures
        parse_numeral(dec(n) + rest, max) == Some((n, dec(n).len())),
{
    let s = dec(n) + rest;
    lemma_dec_canonical(n);
    lemma_run_of_prefix(dec(n), rest);
    let k = digit_run_len(s);
    assert(k == dec(n).len());
    assert(s.take(k as int) =~= dec(n));
    assert(s[0] == dec(n)[0]);
    if s[0] == 48u8 {
        assert(dec(n).len() == 1);
    }
}

/// Reads a canonical decimal numeral with value at most `max` at index `i`.
/// Returns the value and the index just past its digits.
pub fn parse_dec_at(s: &Vec<u8>, i: usize, max: u16) -> (r: Option<(u16, usize)>)
    requires
        i <= s.len(),
    ensures
        ({
            let p = parse_numeral(s@.skip(i as int), max as nat);
            match r {
                Some(vj) => {
                    &&& p == Some((vj.0 as nat, (vj.1 - i) as nat))
                    &&& i < vj.1 <= s@.len()
                    &&& vj.0 <= max
                },
                None => p is None,
            }
        }),
{
    let ghost suf = s@.skip(i as int);
    if i == s.len() || !(48 <= s[i] && s[i] <= 57) {
        proof {
            if suf.len() > 0 {
                assert(suf[0] == s@[i as int]);
            }
        }
        return None;
    }
    let mut j: usize = i;
    let mut val: u32 = 0;
    loop
        invariant
            i <= j <= s.len(),
            i < s.len(),
            suf == s@.skip(i as int),
            forall|m: int| i <= m < j ==> is_digit(#[trigger] s@[m]),
            val == dec_val(s@.subrange(i as int, j as int)),
            val <= 65535,
            is_digit(s@[i as int]),
        ensures
            i <= j <= s.len(),
            forall|m: int| i <= m < j ==> is_digit(#[trigger] s@[m]),
            val == dec_val(s@.subrange(i as int, j as int)),
            val <= 65535,
            j == s.len() || !is_digit(s@[j as int]),
            j > i,
        decreases s.len() - j,
    {
        if j == s.len() || !(48 <= s[j] && s[j] <= 57) {
            proof {
                if j == i {
                    assert(is_digit(s@[i as int]));
                }
            }
            break;
        }
        let d = s[j] - 48;
        let new_val = val * 10 + d as u32;
        proof {
            assert(s@.subrange(i as int, j + 1).drop_last() =~= s@.subrange(i as int, j as int));
            assert(s@.subrange(i as int, j + 1).last() == s@[j as int]);
        }
        if new_val > 65535 {
            proof {
                lemma_digit_run(suf);
                let k = digit_run_len(suf);
                let c = j + 1 - i;
                // the scanned digits are a prefix of the full digit run
                assert(k >= c) by {
                    if k < c {
                        assert(!is_digit(suf[k as int]));
                        assert(suf[k as int] == s@[k + i]);
                    }
                }
                let full = suf.take(k as int);
                assert(all_digits(full)) by {
                    assert(forall|m: int| 0 <= m < full.len() ==> full[m] == #[trigger] suf[m]);
                }
                assert(full.take(c) =~= s@.subrange(i as int, j + 1)) by {
                    assert(forall|m: int| 0 <= m < c ==> #[trigger] full.take(c)[m] == s@[m + i]);
                }
                lemma_dec_val_prefix_monotone(full, c, k as int);
                assert(dec_val(full.take(c)) == new_val);
                assert(full.take(k as int) =~= full);
                assert(dec_val(full) >= new_val);
                assert(parse_numeral(suf, max as nat) is None);
            }
            return None;
        }
        val = new_val;
        j = j + 1;
    }
    proof {
        let k = digit_run_len(suf);
        let run = s@.subrange(i as int, j as int);
        assert(all_digits(run)) by {
            assert(forall|m: int| 0 <= m < run.len() ==> run[m] == #[trigger] s@[m + i]);
        }
        let rest = s@.skip(j as int);
        assert(rest.len() == 0 || !is_digit(rest[0])) by {
            if j < s.len() {
                assert(rest[0] == s@[j as int]);
            }
        }
        assert(suf =~= run + rest);
        lemma_run_of_prefix(run, rest);
        assert(k == j - i);
        assert(suf.take(k as int) =~= run);
        assert(suf[0] == s@[i as int]);
    }
    if s[i] == 48 && j > i + 1 {
        return None;
    }
    if val > max as u32 {
        return None;
    }
    Some((val as u16, j))
}

/// Lowercase hexadecimal digit byte for a value below sixteen.
pub open spec fn hex_digit_byte(n: nat) -> u8
    recommends
        n < 16,
{
    if n < 10 {
        (48 + n) as u8
    } else {
        (87 + n) as u8
    }
}

/// JSON string escaping of one byte: the quote and the backslash get a
/// two-byte escape, control bytes a six-byte `\u00XX` escape with lowercase
/// hex digits, and every other byte stands for itself.
pub open spec fn esc_byte(b: u8) -> Seq<u8> {
    if b == 34 {
        seq![92u8, 34u8]
    } else if b == 92 {
        seq![92u8, 92u8]
    } else if b < 32 {
        seq![92u8, 117u8, 48u8, 48u8, hex_digit_byte((b / 16) as nat), hex_digit_byte((b % 16) as nat)]
    } else {
        seq![b]
    }
}

/// JSON string escaping of a byte string.
pub open spec fn esc_seq(s: Seq<u8>) -> Seq<u8>
    decreases s.len(),
{
    if s.len() == 0 {
        Seq::<u8>::empty()
    } else {
        esc_byte(s[0]) + esc_seq(s.skip(1))
    }
}

proof fn lemma_esc_seq_snoc(s: Seq<u8>, b: u8)
    ensures
        esc_seq(s.push(b)) == esc_seq(s) + esc_byte(b),
    decreases s.len(),
{
    let t = s.push(b);
    if s.len() == 0 {
        assert(t.skip(1) =~= Seq::<u8>::empty());
        assert(esc_seq(Seq::<u8>::empty()) == Seq::<u8>::empty());
        assert(t[0] == b);
        assert(esc_seq(t) == esc_byte(b) + Seq::<u8>::empty());
        assert(esc_seq(t) =~= esc_byte(b));
        assert(esc_seq(s) + esc_byte(b) =~= esc_byte(b));
    } else {
        assert(t[0] == s[0]);
        assert(t.skip(1) =~= s.skip(1).push(b));
        lemma_esc_seq_snoc(s.skip(1), b);
        assert(esc_seq(t) == esc_byte(s[0]) + (esc_seq(s.skip(1)) + esc_byte(b)));
        assert(esc_byte(s[0]) + (esc_seq(s.skip(1)) + esc_byte(b))
            =~= (esc_byte(s[0]) + esc_seq(s.skip(1))) + esc_byte(b));
    }
}

/// `{"sender":"`
pub open spec fn lit_open() -> Seq<u8> {
    seq![123u8, 34u8, 115u8, 101u8, 110u8, 100u8, 101u8, 114u8, 34u8, 58u8, 34u8]
}

/// `","host":"`
pub open spec fn lit_host() -> Seq<u8> {
    seq![34u8, 44u8, 34u8, 104u8, 111u8, 115u8, 116u8, 34u8, 58u8, 34u8]
}

/// `","port":`
pub open spec fn lit_port() -> Seq<u8> {
    seq![34u8, 44u8, 34u8, 112u8, 111u8, 114u8, 116u8, 34u8, 58u8]
}

/// Dotted-quad text of an address, for example `10.0.0.5`.
pub open spec fn spec_quad(ip: Ipv4Address) -> Seq<u8> {
    dec(ip.a as nat) + seq![46u8] + dec(ip.b as nat) + seq![46u8] + dec(ip.c as nat) + seq![46u8]
        + dec(ip.d as nat)
}

/// The canonical wire bytes of an announcement record:
/// `{"sender":"<quad>","host":"<escaped host>","port":<port>}`.
pub open spec fn spec_encode(sender: Ipv4Address, host: Seq<u8>, port: u16) -> Seq<u8> {
    lit_open() + spec_quad(sender) + lit_host() + esc_seq(host) + lit_port() + dec(port as nat)
        + seq![125u8]
}

/// The announced record: the sending interface's address, and the host and
/// port at which the announcer's actual service is reachable. The host is
/// held as the UTF-8 bytes of the advertised name.
#[derive(Debug, Clone)]
pub struct ConnectionInfo {
    pub sender: Ipv4Address,
    pub host: Vec<u8>,
    pub port: u16,
}

impl ConnectionInfo {
    pub fn new(sender: Ipv4Address, host: Vec<u8>, port: u16) -> (r: ConnectionInfo)
        ensures
            r.sender == sender,
            r.host == host,
            r.port == port,
    {
        ConnectionInfo { sender, host, port }
    }
}

/// Byte-for-byte equality of two byte strings.
pub fn bytes_eq(a: &Vec<u8>, b: &Vec<u8>) -> (r: bool)
    ensures
        r == (a@ == b@),
{
    if a.len() != b.len() {
        return false;
    }
    let mut i: usize = 0;
    while i < a.len()
        invariant
            i <= a.len(),
            a.len() == b.len(),
            forall|m: int| 0 <= m < i ==> a@[m] == b@[m],
        decreases a.len() - i,
    {
        if a[i] != b[i] {
            return false;
        }
        i = i + 1;
    }
    proof {
        assert(a@ =~= b@);
    }
    true
}

impl PartialEq for ConnectionInfo {
    fn eq(&self, other: &ConnectionInfo) -> (r: bool) {
        self.sender == other.sender && bytes_eq(&self.host, &other.host) && self.port
            == other.port
    }
}

impl vstd::std_specs::cmp::PartialEqSpecImpl for ConnectionInfo {
    open spec fn obeys_eq_spec() -> bool {
        true
    }

    open spec fn eq_spec(&self, other: &ConnectionInfo) -> bool {
        self.sender == other.sender && self.host@ == other.host@ && self.port == other.port
    }
}

fn push_quad(out: &mut Vec<u8>, ip: Ipv4Address)
    ensures
        final(out)@ == old(out)@ + spec_quad(ip),
{
    push_dec(out, ip.a as u16);
    out.push(46);
    push_dec(out, ip.b as u16);
    out.push(46);
    push_dec(out, ip.c as u16);
    out.push(46);
    push_dec(out, ip.d as u16);
    assert(out@ =~= old(out)@ + spec_quad(ip));
}

fn push_host_escaped(out: &mut Vec<u8>, host: &Vec<u8>)
    ensures
        final(out)@ == old(out)@ + esc_seq(host@),
{
    let mut m: usize = 0;
    while m < host.len()
        invariant
            m <= host.len(),
            out@ == old(out)@ + esc_seq(host@.take(m as int)),
        decreases host.len() - m,
    {
        let b = host[m];
        let ghost before = out@;
        if b == 34 {
            out.push(92);
            out.push(34);
        } else if b == 92 {
            out.push(92);
            out.push(92);
        } else if b < 32 {
            out.push(92);
            out.push(117);
            out.push(48);
            out.push(48);
            out.push(48 + b / 16);
            let lo = b % 16;
            if lo < 10 {
                out.push(48 + lo);
            } else {
                out.push(87 + lo);
            }
        } else {
            out.push(b);
        }
        proof {
            assert(out@ =~= before + esc_byte(host@[m as int]));
            lemma_esc_seq_snoc(host@.take(m as int), host@[m as int]);
            assert(host@.take(m as int).push(host@[m as int]) =~= host@.take(m + 1));
            assert(out@ =~= old(out)@ + esc_seq(host@.take(m + 1)));
        }
        m = m + 1;
    }
    proof {
        assert(host@.take(host@.len() as int) =~= host@);
    }
}

/// Serializes a record into its canonical wire bytes.
pub fn encode(info: &ConnectionInfo) -> (out: Vec<u8>)
    ensures
        out@ == spec_encode(info.sender, info.host@, info.port),
{
    let mut out: Vec<u8> = Vec::new();
    out.push(123);
    out.push(34);
    out.push(115);
    out.push(101);
    out.push(110);
    out.push(100);
    out.push(101);
    out.push(114);
    out.push(34);
    out.push(58);
    out.push(34);
    assert(out@ =~= lit_open());
    push_quad(&mut out, info.sender);
    out.push(34);
    out.push(44);
    out.push(34);
    out.push(104);
    out.push(111);
    out.push(115);
    out.push(116);
    out.push(34);
    out.push(58);
    out.push(34);
    assert(out@ =~= lit_open() + spec_quad(info.sender) + lit_host());
    push_host_escaped(&mut out, &info.host);
    out.push(34);
    out.push(44);
    out.push(34);
    out.push(112);
    out.push(111);
    out.push(114);
    out.push(116);
    out.push(34);
    out.push(58);
    assert(out@ =~= lit_open() + spec_quad(info.sender) + lit_host() + esc_seq(info.host@)
        + lit_port());
    push_dec(&mut out, info.port);
    out.push(125);
    assert(out@ =~= spec_encode(info.sender, info.host@, info.port));
    out
}

pub open spec fn is_hex_lower(b: u8) -> bool {
    (48 <= b <= 57) || (97 <= b <= 102)
}

pub open spec fn hex_val(b: u8) -> nat
    recommends
        is_hex_lower(b),
{
    if 48 <= b <= 57 {
        (b - 48) as nat
    } else {
        (b - 87) as nat
    }
}

/// Reads the body of the canonical JSON string encoding: bytes up to (not
/// including) the closing quote, undoing the escapes `esc_byte` produces.
/// Yields the unescaped bytes and how many input bytes the body occupies.
pub open spec fn parse_string_body(s: Seq<u8>) -> Option<(Seq<u8>, nat)>
    decreases s.len(),
{
    if s.len() == 0 {
        None
    } else if s[0] == 34 {
        Some((Seq::<u8>::empty(), 0))
    } else if s[0] == 92 {
        if s.len() >= 2 && (s[1] == 34 || s[1] == 92) {
            match parse_string_body(s.skip(2)) {
                Some(hn) => Some((seq![s[1]] + hn.0, hn.1 + 2)),
                None => None,
            }
        } else if s.len() >= 6 && s[1] == 117 && s[2] == 48 && s[3] == 48 && (s[4] == 48 || s[4]
            == 49) && is_hex_lower(s[5]) {
            match parse_string_body(s.skip(6)) {
                Some(hn) => Some(
                    (seq![(16 * (s[4] - 48) + hex_val(s[5])) as u8] + hn.0, hn.1 + 6),
                ),
                None => None,
            }
        } else {
            None
        }
    } else if s[0] < 32 {
        None
    } else {
        match parse_string_body(s.skip(1)) {
            Some(hn) => Some((seq![s[0]] + hn.0, hn.1 + 1)),
            None => None,
        }
    }
}

/// The string-body parse undoes the escaping exactly, up to the closing
/// quote that follows it.
pub proof fn lemma_parse_body_of_esc(h: Seq<u8>, rest: Seq<u8>)
    requires
        rest.len() >= 1,
        rest[0] == 34,
    ensures
        parse_string_body(esc_seq(h) + rest) == Some((h, esc_seq(h).len())),
    decreases h.len(),
{
    let s = esc_seq(h) + rest;
    if h.len() == 0 {
        assert(s =~= rest);
        assert(esc_seq(h).len() == 0);
    } else {
        let b = h[0];
        let tail = esc_seq(h.skip(1)) + rest;
        assert(s =~= esc_byte(b) + tail);
        lemma_parse_body_of_esc(h.skip(1), rest);
        assert(seq![b] + h.skip(1) =~= h);
        if b == 34 {
            assert(s[0] == 92 && s[1] == 34);
            assert(s.skip(2) =~= tail);
            assert(parse_string_body(s) == Some(
                (seq![s[1]] + h.skip(1), esc_seq(h.skip(1)).len() + 2),
            ));
            assert(seq![s[1]] + h.skip(1) =~= h);
        } else if b == 92 {
            assert(s[0] == 92 && s[1] == 92);
            assert(s.skip(2) =~= tail);
            assert(seq![s[1]] + h.skip(1) =~= h);
        } else if b < 32 {
            assert(s[0] == 92 && s[1] == 117 && s[2] == 48 && s[3] == 48);
            assert(s[4] == hex_digit_byte((b / 16) as nat));
            assert(s[5] == hex_digit_byte((b % 16) as nat));
            assert(b / 16 <= 1);
            assert(s[4] == 48 || s[4] == 49);
            assert(is_hex_lower(s[5]));
            assert(hex_val(s[5]) == b % 16);
            assert(s.skip(6) =~= tail);
            assert(16 * (s[4] - 48) + hex_val(s[5]) == 16 * (b / 16) + b % 16);
            assert(16 * (b / 16) + b % 16 == b) by (nonlinear_arith);
            assert(seq![(16 * (s[4] - 48) + hex_val(s[5])) as u8] + h.skip(1) =~= h);
        } else {
            assert(s[0] == b);
            assert(s.skip(1) =~= tail);
            assert(seq![s[0]] + h.skip(1) =~= h);
        }
    }
}

/// Reads an escaped string body at index `i`, stopping at the closing quote.
/// Returns the unescaped bytes and the index of the closing quote.
pub fn parse_string_body_at(s: &Vec<u8>, i: usize) -> (r: Option<(Vec<u8>, usize)>)
    requires
        i <= s.len(),
    ensures
        ({
            let p = parse_string_body(s@.skip(i as int));
            match r {
                Some(hj) => {
                    &&& p == Some((hj.0@, (hj.1 - i) as nat))
                    &&& i <= hj.1 <= s@.len()
                },
                None => p is None,
            }
        }),
{
    let mut out: Vec<u8> = Vec::new();
    let mut j: usize = i;
    loop
        invariant
            i <= j <= s.len(),
            ({
                let here = parse_string_body(s@.skip(j as int));
                let whole = parse_string_body(s@.skip(i as int));
                match here {
                    Some(hn) => whole == Some((out@ + hn.0, ((j - i) + hn.1) as nat)),
                    None => whole is None,
                }
            }),
        decreases s.len() - j,
    {
        if j == s.len() {
            return None;
        }
        let ghost here = s@.skip(j as int);
        proof {
            assert(here[0] == s@[j as int]);
        }
        let b = s[j];
        if b == 34 {
            proof {
                assert(out@ + Seq::<u8>::empty() =~= out@);
            }
            return Some((out, j));
        }
        if b == 92 {
            if j + 1 < s.len() && (s[j + 1] == 34 || s[j + 1] == 92) {
                let ghost before = out@;
                out.push(s[j + 1]);
                proof {
                    assert(here[1] == s@[j + 1]);
                    assert(here.skip(2) =~= s@.skip(j + 2));
                    assert(out@ =~= before + seq![s@[j + 1]]);
                    if parse_string_body(s@.skip(j + 2)) is Some {
                        let hn = parse_string_body(s@.skip(j + 2))->Some_0;
                        assert(parse_string_body(here) == Some((seq![here[1]] + hn.0, hn.1 + 2)));
                        assert(before + (seq![here[1]] + hn.0) =~= out@ + hn.0);
                    }
                }
                j = j + 2;
            } else if s.len() - j >= 6 && s[j + 1] == 117 && s[j + 2] == 48 && s[j + 3] == 48 && (s[j
                + 4] == 48 || s[j + 4] == 49) && ((48 <= s[j + 5] && s[j + 5] <= 57) || (97 <= s[j
                + 5] && s[j + 5] <= 102)) {
                let hi = s[j + 4] - 48;
                let lo_byte = s[j + 5];
                let lo = if 48 <= lo_byte && lo_byte <= 57 {
                    lo_byte - 48
                } else {
                    lo_byte - 87
                };
                let ghost before = out@;
                out.push(16 * hi + lo);
                proof {
                    assert(here[1] == s@[j + 1] && here[2] == s@[j + 2] && here[3] == s@[j + 3]
                        && here[4] == s@[j + 4] && here[5] == s@[j + 5]);
                    assert(here.skip(6) =~= s@.skip(j + 6));
                    assert(lo == hex_val(here[5]));
                    assert(out@ =~= before + seq![(16 * (here[4] - 48) + hex_val(here[5])) as u8]);
                    if parse_string_body(s@.skip(j + 6)) is Some {
                        let hn = parse_string_body(s@.skip(j + 6))->Some_0;
                        assert(parse_string_body(here) == Some(
                            (seq![(16 * (here[4] - 48) + hex_val(here[5])) as u8] + hn.0, hn.1 + 6),
                        ));
                        assert(before + (seq![(16 * (here[4] - 48) + hex_val(here[5])) as u8] + hn.0)
                            =~= out@ + hn.0);
                    }
                }
                j = j + 6;
            } else {
                proof {
                    if j + 1 < s.len() {
                        assert(here[1] == s@[j + 1]);
                    }
                    if j + 5 < s.len() {
                        assert(here[1] == s@[j + 1] && here[2] == s@[j + 2] && here[3] == s@[j + 3]
                            && here[4] == s@[j + 4] && here[5] == s@[j + 5]);
                    }
                    assert(here.len() >= 2 ==> here[1] == s@[j + 1]);
                }
                return None;
            }
        } else if b < 32 {
            return None;
        } else {
            let ghost before = out@;
            out.push(b);
            proof {
                assert(here.skip(1) =~= s@.skip(j + 1));
                assert(out@ =~= before + seq![here[0]]);
                if parse_string_body(s@.skip(j + 1)) is Some {
                    let hn = parse_string_body(s@.skip(j + 1))->Some_0;
                    assert(parse_string_body(here) == Some((seq![here[0]] + hn.0, hn.1 + 1)));
                    assert(before + (seq![here[0]] + hn.0) =~= out@ + hn.0);
                }
            }
            j = j + 1;
        }
    }
}

/// Reads a dotted-quad address at the head of `s`: four canonical decimal
/// octets separated by dots. Yields the address and the bytes consumed.
pub open spec fn parse_quad(s: Seq<u8>) -> Option<(Ipv4Address, nat)> {
    match parse_numeral(s, 255) {
        None => None,
        Some((a, ka)) => if ka < s.len() && s[ka as int] == 46 {
            match parse_numeral(s.skip(ka + 1 as int), 255) {
                None => None,
                Some((b, kb)) => {
                    let ib = ka + 1 + kb;
                    if ib < s.len() && s[ib as int] == 46 {
                        match parse_numeral(s.skip(ib + 1 as int), 255) {
                            None => None,
                            Some((c, kc)) => {
                                let ic = ib + 1 + kc;
                                if ic < s.len() && s[ic as int] == 46 {
                                    match parse_numeral(s.skip(ic + 1 as int), 255) {
                                        None => None,
                                        Some((d, kd)) => Some(
                                            (
                                                Ipv4Address {
                                                    a: a as u8,
                                                    b: b as u8,
                                                    c: c as u8,
                                                    d: d as u8,
                                                },
                                                ic + 1 + kd,
                                            ),
                                        ),
                                    }
                                } else {
                                    None
                                }
                            },
                        }
                    } else {
                        None
                    }
                },
            }
        } else {
            None
        },
    }
}

/// The quad parse recovers an address from its own dotted-quad text, when a
/// non-digit byte follows it.
#[verifier::rlimit(100)]
pub proof fn lemma_parse_quad_of_spec_quad(ip: Ipv4Address, rest: Seq<u8>)
    requires
        rest.len() >= 1,
        !is_digit(rest[0]),
        rest[0] != 46,
    ensures
        parse_quad(spec_quad(ip) + rest) == Some((ip, spec_quad(ip).len())),
{
    let s = spec_quad(ip) + rest;
    let da = dec(ip.a as nat);
    let db = dec(ip.b as nat);
    let dc = dec(ip.c as nat);
    let dd = dec(ip.d as nat);
    let ra = seq![46u8] + db + seq![46u8] + dc + seq![46u8] + dd + rest;
    assert(s =~= da + ra);
    lemma_parse_numeral_of_dec(ip.a as nat, ra, 255);
    let ka = da.len();
    assert(parse_numeral(s, 255) == Some((ip.a as nat, ka)));
    assert(s[ka as int] == 46);
    let rb = seq![46u8] + dc + seq![46u8] + dd + rest;
    assert(s.skip(ka + 1 as int) =~= db + rb);
    lemma_parse_numeral_of_dec(ip.b as nat, rb, 255);
    let kb = db.len();
    let ib = ka + 1 + kb;
    assert(s[ib as int] == 46);
    let rc = seq![46u8] + dd + rest;
    assert(s.skip(ib + 1 as int) =~= dc + rc);
    lemma_parse_numeral_of_dec(ip.c as nat, rc, 255);
    let kc = dc.len();
    let ic = ib + 1 + kc;
    assert(s[ic as int] == 46);
    assert(s.skip(ic + 1 as int) =~= dd + rest);
    lemma_parse_numeral_of_dec(ip.d as nat, rest, 255);
    let kd = dd.len();
    assert(parse_quad(s) == Some(
        (
            Ipv4Address {
                a: (ip.a as nat) as u8,
                b: (ip.b as nat) as u8,
                c: (ip.c as nat) as u8,
                d: (ip.d as nat) as u8,
            },
            ic + 1 + kd,
        ),
    ));
    assert((Ipv4Address {
        a: (ip.a as nat) as u8,
        b: (ip.b as nat) as u8,
        c: (ip.c as nat) as u8,
        d: (ip.d as nat) as u8,
    }) == ip);
    assert(ic + 1 + kd == spec_quad(ip).len());
}

/// Reads a dotted-quad address at index `i`. Returns the address and the
/// index just past its last digit.
pub fn parse_quad_at(s: &Vec<u8>, i: usize) -> (r: Option<(Ipv4Address, usize)>)
    requires
        i <= s.len(),
    ensures
        ({
            let p = parse_quad(s@.skip(i as int));
            match r {
                Some(qj) => {
                    &&& p == Some((qj.0, (qj.1 - i) as nat))
                    &&& i < qj.1 <= s@.len()
                },
                None => p is None,
            }
        }),
{
    let ghost suf = s@.skip(i as int);
    let ra = match parse_dec_at(s, i, 255) {
        None => {
            return None;
        },
        Some(vj) => vj,
    };
    let ja = ra.1;
    if ja == s.len() {
        return None;
    }
    proof {
        assert(suf[(ja - i) as int] == s@[ja as int]);
    }
    if s[ja] != 46 {
        return None;
    }
    proof {
        assert(suf.skip((ja + 1 - i) as int) =~= s@.skip(ja + 1));
    }
    let rb = match parse_dec_at(s, ja + 1, 255) {
        None => {
            return None;
        },
        Some(vj) => vj,
    };
    let jb = rb.1;
    if jb == s.len() {
        return None;
    }
    proof {
        assert(suf[(jb - i) as int] == s@[jb as int]);
    }
    if s[jb] != 46 {
        return None;
    }
    proof {
        assert(suf.skip((jb + 1 - i) as int) =~= s@.skip(jb + 1));
    }
    let rc = match parse_dec_at(s, jb + 1, 255) {
        None => {
            return None;
        },
        Some(vj) => vj,
    };
    let jc = rc.1;
    if jc == s.len() {
        return None;
    }
    proof {
        assert(suf[(jc - i) as int] == s@[jc as int]);
    }
    if s[jc] != 46 {
        return None;
    }
    proof {
        assert(suf.skip((jc + 1 - i) as int) =~= s@.skip(jc + 1));
    }
    let rd = match parse_dec_at(s, jc + 1, 255) {
        None => {
            return None;
        },
        Some(vj) => vj,
    };
    let jd = rd.1;
    Some((Ipv4Address { a: ra.0 as u8, b: rb.0 as u8, c: rc.0 as u8, d: rd.0 as u8 }, jd))
}

/// The full parse of a wire record in canonical form: the opening literal,
/// the sender's dotted quad, the host literal and escaped host, the port
/// literal and port numeral, and the closing brace, with nothing after it.
pub open spec fn spec_parse(s: Seq<u8>) -> Option<(Ipv4Address, Seq<u8>, u16)> {
    if s.len() >= 11 && s.subrange(0, 11) == lit_open() {
        match parse_quad(s.skip(11)) {
            None => None,
            Some((ip, kq)) => {
                let i1 = 11 + kq;
                if i1 + 10 <= s.len() && s.subrange(i1 as int, i1 + 10 as int) == lit_host() {
                    match parse_string_body(s.skip(i1 + 10 as int)) {
                        None => None,
                        Some((h, kh)) => {
                            let i2 = i1 + 10 + kh;
                            if i2 + 9 <= s.len() && s.subrange(i2 as int, i2 + 9 as int)
                                == lit_port() {
                                match parse_numeral(s.skip(i2 + 9 as int), 65535) {
                                    None => None,
                                    Some((p, kp)) => {
                                        let i3 = i2 + 9 + kp;
                                        if i3 + 1 == s.len() && s[i3 as int] == 125 {
                                            Some((ip, h, p as u16))
                                        } else {
                                            None
                                        }
                                    },
                                }
                            } else {
                                None
                            }
                        },
                    }
                } else {
                    None
                }
            },
        }
    } else {
        None
    }
}

/// Parsing inverts encoding: `spec_parse` recovers the record from its
/// canonical wire bytes.
#[verifier::rlimit(100)]
pub proof fn lemma_parse_of_encode(sender: Ipv4Address, host: Seq<u8>, port: u16)
    ensures
        spec_parse(spec_encode(sender, host, port)) == Some((sender, host, port)),
{
    let s = spec_encode(sender, host, port);
    let q = spec_quad(sender);
    let e = esc_seq(host);
    let p = dec(port as nat);
    assert(s =~= lit_open() + q + lit_host() + e + lit_port() + p + seq![125u8]);
    assert(s.subrange(0, 11) =~= lit_open());
    let r1 = lit_host() + e + lit_port() + p + seq![125u8];
    assert(s.skip(11) =~= q + r1);
    lemma_parse_quad_of_spec_quad(sender, r1);
    assert(parse_quad(s.skip(11)) == Some((sender, q.len())));
    let i1 = 11 + q.len();
    assert(s.subrange(i1 as int, i1 + 10 as int) =~= lit_host());
    let r2 = lit_port() + p + seq![125u8];
    assert(s.skip(i1 + 10 as int) =~= e + r2);
    lemma_parse_body_of_esc(host, r2);
    assert(parse_string_body(s.skip(i1 + 10 as int)) == Some((host, e.len())));
    let i2 = i1 + 10 + e.len();
    assert(s.subrange(i2 as int, i2 + 9 as int) =~= lit_port());
    assert(s.skip(i2 + 9 as int) =~= p + seq![125u8]);
    lemma_parse_numeral_of_dec(port as nat, seq![125u8], 65535);
    assert(parse_numeral(s.skip(i2 + 9 as int), 65535) == Some((port as nat, p.len())));
    let i3 = i2 + 9 + p.len();
    assert(s[i3 as int] == 125);
    assert(i3 + 1 == s.len());
}

/// The canonical encoding is injective: equal wire bytes mean equal records.
pub proof fn lemma_encode_injective(
    s1: Ipv4Address,
    h1: Seq<u8>,
    p1: u16,
    s2: Ipv4Address,
    h2: Seq<u8>,
    p2: u16,
)
    requires
        spec_encode(s1, h1, p1) == spec_encode(s2, h2, p2),
    ensures
        s1 == s2,
        h1 == h2,
        p1 == p2,
{
    lemma_parse_of_encode(s1, h1, p1);
    lemma_parse_of_encode(s2, h2, p2);
}

fn try_parse(s: &Vec<u8>) -> (r: Option<ConnectionInfo>)
    ensures
        ({
            let p = spec_parse(s@);
            match r {
                Some(info) => p == Some((info.sender, info.host@, info.port)),
                None => p is None,
            }
        }),
{
    if !(s.len() >= 11 && s[0] == 123 && s[1] == 34 && s[2] == 115 && s[3] == 101 && s[4] == 110
        && s[5] == 100 && s[6] == 101 && s[7] == 114 && s[8] == 34 && s[9] == 58 && s[10] == 34) {
        proof {
            if s@.len() >= 11 && s@.subrange(0, 11) == lit_open() {
                assert(s@[0] == s@.subrange(0, 11)[0]);
                assert(s@[1] == s@.subrange(0, 11)[1]);
                assert(s@[2] == s@.subrange(0, 11)[2]);
                assert(s@[3] == s@.subrange(0, 11)[3]);
                assert(s@[4] == s@.subrange(0, 11)[4]);
                assert(s@[5] == s@.subrange(0, 11)[5]);
                assert(s@[6] == s@.subrange(0, 11)[6]);
                assert(s@[7] == s@.subrange(0, 11)[7]);
                assert(s@[8] == s@.subrange(0, 11)[8]);
                assert(s@[9] == s@.subrange(0, 11)[9]);
                assert(s@[10] == s@.subrange(0, 11)[10]);
            }
        }
        return None;
    }
    proof {
        assert(s@.subrange(0, 11) =~= lit_open());
        assert(s@.skip(11) == s@.skip(11 as int));
    }
    let rq = match parse_quad_at(s, 11) {
        None => {
            return None;
        },
        Some(qj) => qj,
    };
    let sender = rq.0;
    let i1 = rq.1;
    proof {
        assert(s@.skip(11)
            == s@.skip(11 as int));
        assert(parse_quad(s@.skip(11)) == Some((sender, (i1 - 11) as nat)));
    }
    if s.len() - i1 < 10 {
        return None;
    }
    if !(s[i1] == 34 && s[i1 + 1] == 44 && s[i1 + 2] == 34 && s[i1 + 3] == 104 && s[i1 + 4] == 111
        && s[i1 + 5] == 115 && s[i1 + 6] == 116 && s[i1 + 7] == 34 && s[i1 + 8] == 58 && s[i1 + 9]
        == 34) {
        proof {
            if s@.subrange(i1 as int, i1 + 10) == lit_host() {
                let sub = s@.subrange(i1 as int, i1 + 10);
                assert(s@[i1 as int] == sub[0]);
                assert(s@[i1 + 1] == sub[1]);
                assert(s@[i1 + 2] == sub[2]);
                assert(s@[i1 + 3] == sub[3]);
                assert(s@[i1 + 4] == sub[4]);
                assert(s@[i1 + 5] == sub[5]);
                assert(s@[i1 + 6] == sub[6]);
                assert(s@[i1 + 7] == sub[7]);
                assert(s@[i1 + 8] == sub[8]);
                assert(s@[i1 + 9] == sub[9]);
            }
        }
        return None;
    }
    proof {
        assert(s@.subrange(i1 as int, i1 + 10) =~= lit_host());
    }
    let rh = match parse_string_body_at(s, i1 + 10) {
        None => {
            return None;
        },
        Some(hj) => hj,
    };
    let host = rh.0;
    let i2 = rh.1;
    proof {
        assert(parse_string_body(s@.skip(i1 + 10)) == Some((host@, (i2 - (i1 + 10)) as nat)));
    }
    if s.len() - i2 < 9 {
        return None;
    }
    if !(s[i2] == 34 && s[i2 + 1] == 44 && s[i2 + 2] == 34 && s[i2 + 3] == 112 && s[i2 + 4] == 111
        && s[i2 + 5] == 114 && s[i2 + 6] == 116 && s[i2 + 7] == 34 && s[i2 + 8] == 58) {
        proof {
            if s@.subrange(i2 as int, i2 + 9) == lit_port() {
                let sub = s@.subrange(i2 as int, i2 + 9);
                assert(s@[i2 as int] == sub[0]);
                assert(s@[i2 + 1] == sub[1]);
                assert(s@[i2 + 2] == sub[2]);
                assert(s@[i2 + 3] == sub[3]);
                assert(s@[i2 + 4] == sub[4]);
                assert(s@[i2 + 5] == sub[5]);
                assert(s@[i2 + 6] == sub[6]);
                assert(s@[i2 + 7] == sub[7]);
                assert(s@[i2 + 8] == sub[8]);
            }
        }
        return None;
    }
    proof {
        assert(s@.subrange(i2 as int, i2 + 9) =~= lit_port());
    }
    let rp = match parse_dec_at(s, i2 + 9, 65535) {
        None => {
            return None;
        },
        Some(vj) => vj,
    };
    let port = rp.0;
    let i3 = rp.1;
    proof {
        assert(parse_numeral(s@.skip(i2 + 9), 65535) == Some((port as nat, (i3 - (i2 + 9)) as nat)));
    }
    if i3 == s.len() {
        return None;
    }
    if !(s[i3] == 125 && i3 + 1 == s.len()) {
        return None;
    }
    Some(ConnectionInfo { sender, host, port })
}

/// Deserializes wire bytes. Returns the record exactly when the bytes are
/// the canonical encoding of one; every other input is rejected, so a
/// malformed datagram can be skipped without ending the listener.
pub fn decode(s: &Vec<u8>) -> (r: Option<ConnectionInfo>)
    ensures
        ({
            match r {
                Some(info) => s@ == spec_encode(info.sender, info.host@, info.port),
                None => forall|sd: Ipv4Address, h: Seq<u8>, p: u16| s@ != spec_encode(sd, h, p),
            }
        }),
{
    let parsed = match try_parse(s) {
        None => {
            proof {
                assert forall|sd: Ipv4Address, h: Seq<u8>, p: u16| s@ != spec_encode(sd, h, p) by {
                    if s@ == spec_encode(sd, h, p) {
                        lemma_parse_of_encode(sd, h, p);
                    }
                }
            }
            return None;
        },
        Some(info) => info,
    };
    let reencoded = encode(&parsed);
    if bytes_eq(s, &reencoded) {
        Some(parsed)
    } else {
        proof {
            assert forall|sd: Ipv4Address, h: Seq<u8>, p: u16| s@ != spec_encode(sd, h, p) by {
                if s@ == spec_encode(sd, h, p) {
                    lemma_parse_of_encode(sd, h, p);
                }
            }
        }
        None
    }
}

/// Socket-address text `a.b.c.d:port`, as the process passes it to bind
/// and send operations.
pub open spec fn spec_socket_addr(ip: Ipv4Address, port: u16) -> Seq<u8> {
    spec_quad(ip) + seq![58u8] + dec(port as nat)
}

/// Formats `a.b.c.d:port`.
pub fn socket_addr_text(ip: Ipv4Address, port: u16) -> (r: Vec<u8>)
    ensures
        r@ == spec_socket_addr(ip, port),
{
    let mut r: Vec<u8> = Vec::new();
    push_quad(&mut r, ip);
    r.push(58);
    push_dec(&mut r, port);
    assert(r@ =~= spec_socket_addr(ip, port));
    r
}

} // verus!
