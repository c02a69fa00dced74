use vstd::prelude::*;

use crate::decimal::{
    all_digits, decimal_text, digit_value, digits_value, is_digit, lemma_canonical_digits,
    lemma_decimal_text, parse_unsigned, unsigned_value,
};

verus! {

/// The port the broker listens on when the address names none.
pub const DEFAULT_MQTT_PORT: u16 = 1883;

/// Where the MQTT broker is reached: an IPv4 address and a TCP port.
#[derive(PartialEq, Eq, Debug, Clone, Copy)]
pub struct BrokerAddress {
    pub ip: [u8; 4],
    pub port: u16,
}

/// The scheme that may stand in front of the broker's address.
pub open spec fn mqtt_scheme() -> Seq<char> {
    seq!['m', 'q', 't', 't', ':', '/', '/']
}

/// `s` without the leading `mqtt://`, where it has one.
pub open spec fn strip_scheme(s: Seq<char>) -> Seq<char> {
    if s.len() >= 7 && s.take(7) == mqtt_scheme() {
        s.skip(7)
    } else {
        s
    }
}

/// The position of the last `c` in `s`, or -1 where there is none.
pub open spec fn last_index_of(s: Seq<char>, c: char) -> int
    decreases s.len(),
{
    if s.len() == 0 {
        -1
    } else if s.last() == c {
        s.len() - 1
    } else {
        last_index_of(s.drop_last(), c)
    }
}

/// The pieces of `s` between the dots, in order: one more piece than `s`
/// has dots, and empty pieces where dots are adjacent or at an end.
pub open spec fn dot_fields(s: Seq<char>) -> Seq<Seq<char>>
    decreases s.len(),
{
    if s.len() == 0 {
        seq![Seq::empty()]
    } else {
        let f = dot_fields(s.drop_last());
        if s.last() == '.' {
            f.push(Seq::empty())
        } else {
            f.update(f.len() - 1, f.last().push(s.last()))
        }
    }
}

/// An octet of dotted-decimal notation: one to three ASCII digits, no
/// leading zero unless the octet is `0` itself, and a value of at most 255.
pub open spec fn is_octet_text(t: Seq<char>) -> bool {
    &&& 1 <= t.len() <= 3
    &&& all_digits(t)
    &&& (t.len() == 1 || t[0] != '0')
    &&& digits_value(t) <= 255
}

/// The four octets of the IPv4 address that `s` writes in dotted-decimal
/// notation, or nothing where `s` is not exactly four octets joined by dots.
pub open spec fn ipv4_octets(s: Seq<char>) -> Option<Seq<u8>> {
    let f = dot_fields(s);
    if f.len() == 4 && (forall|k: int| 0 <= k < 4 ==> is_octet_text(#[trigger] f[k])) {
        Some(seq![digits_value(f[0]) as u8, digits_value(f[1]) as u8, digits_value(f[2]) as u8, digits_value(f[3]) as u8])
    } else {
        None
    }
}

/// The broker address that the text `s` gives: an optional `mqtt://`, an
/// IPv4 address, and an optional `:` and port; where the text holds no `:`
/// the port is the default one. The host ends at the last `:`.
pub open spec fn mqtt_endpoint(s: Seq<char>) -> Option<(Seq<u8>, u16)> {
    let rest = strip_scheme(s);
    let i = last_index_of(rest, ':');
    let host = if i < 0 {
        rest
    } else {
        rest.take(i)
    };
    let port = if i < 0 {
        Some(DEFAULT_MQTT_PORT as nat)
    } else {
        unsigned_value(rest.skip(i + 1), 0xffff)
    };
    match (ipv4_octets(host), port) {
        (Some(ip), Some(p)) => Some((ip, p as u16)),
        _ => None,
    }
}

proof fn lemma_dot_fields_nonempty(s: Seq<char>)
    ensures
        dot_fields(s).len() >= 1,
    decreases s.len(),
{
    if s.len() > 0 {
        lemma_dot_fields_nonempty(s.drop_last());
    }
}

/// The dotted-decimal spelling of the IPv4 address `a.b.c.d`.
pub open spec fn dotted_quad(a: u8, b: u8, c: u8, d: u8) -> Seq<char> {
    decimal_text(a as nat) + seq!['.'] + decimal_text(b as nat) + seq!['.'] + decimal_text(c as nat)
        + seq!['.'] + decimal_text(d as nat)
}

/// Whether `s` holds no `c`.
pub open spec fn lacks(s: Seq<char>, c: char) -> bool {
    forall|i: int| 0 <= i < s.len() ==> s[i] != c
}

proof fn lemma_fields_append_plain(s: Seq<char>, t: Seq<char>)
    requires
        lacks(t, '.'),
    ensures
        dot_fields(s + t) == dot_fields(s).update(
            dot_fields(s).len() - 1,
            dot_fields(s).last() + t,
        ),
    decreases t.len(),
{
    lemma_dot_fields_nonempty(s);
    if t.len() == 0 {
        assert(s + t =~= s);
        assert(dot_fields(s).last() + t =~= dot_fields(s).last());
        assert(dot_fields(s).update(dot_fields(s).len() - 1, dot_fields(s).last()) =~= dot_fields(
            s,
        ));
    } else {
        let u = t.drop_last();
        assert(lacks(u, '.')) by {
            assert forall|i: int| 0 <= i < u.len() implies u[i] != '.' by {
                assert(u[i] == t[i]);
            }
        }
        lemma_fields_append_plain(s, u);
        assert((s + t).drop_last() =~= s + u);
        assert((s + t).last() == t.last());
        assert(t.last() != '.') by {
            assert(t.last() == t[t.len() - 1]);
        }
        let f = dot_fields(s);
        assert((f.last() + u).push(t.last()) =~= f.last() + t);
        assert(dot_fields(s + t) =~= f.update(f.len() - 1, f.last() + t));
    }
}

proof fn lemma_fields_append_dot(s: Seq<char>)
    ensures
        dot_fields(s + seq!['.']) == dot_fields(s).push(Seq::empty()),
{
    assert((s + seq!['.']).drop_last() =~= s);
}

proof fn lemma_decimal_text_short(n: nat)
    requires
        n < 1000,
    ensures
        decimal_text(n).len() <= 3,
        lacks(decimal_text(n), '.'),
{
    lemma_decimal_text(n);
    let t = decimal_text(n);
    if n >= 10 {
        assert(t.len() == decimal_text(n / 10).len() + 1);
        if n / 10 >= 10 {
            assert(decimal_text(n / 10).len() == decimal_text(n / 10 / 10).len() + 1);
            assert(n / 10 / 10 < 10);
            assert(decimal_text(n / 10 / 10).len() == 1);
        } else {
            assert(decimal_text(n / 10).len() == 1);
        }
    }
    assert forall|i: int| 0 <= i < t.len() implies t[i] != '.' by {
        assert(is_digit(t[i]));
    }
}

proof fn lemma_octet_text(n: u8)
    ensures
        is_octet_text(decimal_text(n as nat)),
        digits_value(decimal_text(n as nat)) as u8 == n,
        lacks(decimal_text(n as nat), '.'),
{
    lemma_decimal_text(n as nat);
    lemma_decimal_text_short(n as nat);
}

/// Every IPv4 address written in dotted-decimal notation is read back as
/// itself.
pub proof fn lemma_dotted_quad_roundtrip(a: u8, b: u8, c: u8, d: u8)
    ensures
        ipv4_octets(dotted_quad(a, b, c, d)) == Some(seq![a, b, c, d]),
{
    lemma_octet_text(a);
    lemma_octet_text(b);
    lemma_octet_text(c);
    lemma_octet_text(d);
    let ta = decimal_text(a as nat);
    let tb = decimal_text(b as nat);
    let tc = decimal_text(c as nat);
    let td = decimal_text(d as nat);
    let e = Seq::<char>::empty();
    let dot = seq!['.'];
    assert(dot_fields(e) == seq![e]);
    lemma_fields_append_plain(e, ta);
    assert(e + ta =~= ta);
    assert(dot_fields(ta) =~= seq![ta]);
    lemma_fields_append_dot(ta);
    lemma_fields_append_plain(ta + dot, tb);
    assert(dot_fields(ta + dot + tb) =~= seq![ta, tb]);
    lemma_fields_append_dot(ta + dot + tb);
    lemma_fields_append_plain(ta + dot + tb + dot, tc);
    assert(dot_fields(ta + dot + tb + dot + tc) =~= seq![ta, tb, tc]);
    lemma_fields_append_dot(ta + dot + tb + dot + tc);
    lemma_fields_append_plain(ta + dot + tb + dot + tc + dot, td);
    let f = dot_fields(dotted_quad(a, b, c, d));
    assert(f =~= seq![ta, tb, tc, td]);
    assert(forall|k: int| 0 <= k < 4 ==> is_octet_text(#[trigger] f[k]));
    assert(ipv4_octets(dotted_quad(a, b, c, d)).unwrap() =~= seq![a, b, c, d]);
}

/// Naming the scheme changes nothing: `mqtt://` followed by an address
/// reads as the address alone.
pub proof fn lemma_scheme_is_optional(address: Seq<char>)
    requires
        !(address.len() >= 7 && address.take(7) == mqtt_scheme()),
    ensures
        mqtt_endpoint(mqtt_scheme() + address) == mqtt_endpoint(address),
{
    let s = mqtt_scheme() + address;
    assert(s.take(7) =~= mqtt_scheme());
    assert(s.skip(7) =~= address);
}

proof fn lemma_no_colon_index(s: Seq<char>)
    requires
        lacks(s, ':'),
    ensures
        last_index_of(s, ':') == -1,
    decreases s.len(),
{
    if s.len() > 0 {
        assert(s.last() == s[s.len() - 1]);
        let u = s.drop_last();
        assert(lacks(u, ':')) by {
            assert forall|i: int| 0 <= i < u.len() implies u[i] != ':' by {
                assert(u[i] == s[i]);
            }
        }
        lemma_no_colon_index(u);
    }
}

/// Leaving out the port is the same as naming port 1883.
pub proof fn lemma_default_port(host: Seq<char>)
    requires
        lacks(host, ':'),
    ensures
        mqtt_endpoint(host) == mqtt_endpoint(host + seq![':', '1', '8', '8', '3']),
{
    let p = seq![':', '1', '8', '8', '3'];
    let s = host + p;
    let n = host.len();
    // Neither text starts with the scheme, whose fifth character is ':'.
    if n >= 7 {
        assert(host.take(7)[4] != mqtt_scheme()[4]);
        assert(s.take(7)[4] == host[4]);
    } else if n + 5 >= 7 {
        if n > 4 {
            assert(s.take(7)[4] == host[4]);
        } else if n == 4 {
            assert(s.take(7)[5] == '1');
        } else {
            assert(s.take(7)[4] == p[4 - n]);
        }
    }
    assert(strip_scheme(host) == host);
    assert(strip_scheme(s) == s);
    lemma_no_colon_index(host);
    let s1 = host + seq![':'];
    let s2 = host + seq![':', '1'];
    let s3 = host + seq![':', '1', '8'];
    let s4 = host + seq![':', '1', '8', '8'];
    assert(s1.last() == ':');
    assert(last_index_of(s1, ':') == n);
    assert(s2.drop_last() =~= s1);
    assert(s2.last() == '1');
    assert(last_index_of(s2, ':') == n);
    assert(s3.drop_last() =~= s2);
    assert(s3.last() == '8');
    assert(last_index_of(s3, ':') == n);
    assert(s4.drop_last() =~= s3);
    assert(s4.last() == '8');
    assert(last_index_of(s4, ':') == n);
    assert(s.drop_last() =~= s4);
    assert(s.last() == '3');
    assert(last_index_of(s, ':') == n);
    assert(s.take(n as int) =~= host);
    let port = s.skip(n as int + 1);
    assert(port =~= seq!['1', '8', '8', '3']);
    let d1 = seq!['1'];
    let d2 = seq!['1', '8'];
    let d3 = seq!['1', '8', '8'];
    assert(d1.drop_last() =~= Seq::<char>::empty());
    assert(digits_value(Seq::<char>::empty()) == 0);
    assert(d1.last() == '1');
    assert(digit_value('1') == 1);
    assert(digits_value(d1) == 1);
    assert(d2.drop_last() =~= d1);
    assert(digits_value(d2) == 18);
    assert(d3.drop_last() =~= d2);
    assert(digits_value(d3) == 188);
    assert(port.drop_last() =~= d3);
    assert(digits_value(port) == 1883);
    assert(all_digits(port));
}

proof fn lemma_lacks_concat(a: Seq<char>, b: Seq<char>, c: char)
    requires
        lacks(a, c),
        lacks(b, c),
    ensures
        lacks(a + b, c),
{
    assert forall|i: int| 0 <= i < (a + b).len() implies (a + b)[i] != c by {
        if i < a.len() {
            assert((a + b)[i] == a[i]);
        } else {
            assert((a + b)[i] == b[i - a.len()]);
        }
    }
}

proof fn lemma_decimal_text_plain(n: nat)
    ensures
        lacks(decimal_text(n), ':'),
        lacks(decimal_text(n), '.'),
        is_digit(decimal_text(n)[0]),
{
    lemma_decimal_text(n);
    let t = decimal_text(n);
    assert forall|i: int| 0 <= i < t.len() implies t[i] != ':' && t[i] != '.' by {
        assert(is_digit(t[i]));
    }
    assert(is_digit(t[0]));
}

proof fn lemma_dotted_quad_plain(a: u8, b: u8, c: u8, d: u8)
    ensures
        lacks(dotted_quad(a, b, c, d), ':'),
        dotted_quad(a, b, c, d).len() >= 1,
        is_digit(dotted_quad(a, b, c, d)[0]),
{
    lemma_decimal_text_plain(a as nat);
    lemma_decimal_text_plain(b as nat);
    lemma_decimal_text_plain(c as nat);
    lemma_decimal_text_plain(d as nat);
    lemma_decimal_text(a as nat);
    let dot = seq!['.'];
    assert(lacks(dot, ':'));
    let ta = decimal_text(a as nat);
    let tb = decimal_text(b as nat);
    let tc = decimal_text(c as nat);
    let td = decimal_text(d as nat);
    lemma_lacks_concat(ta, dot, ':');
    lemma_lacks_concat(ta + dot, tb, ':');
    lemma_lacks_concat(ta + dot + tb, dot, ':');
    lemma_lacks_concat(ta + dot + tb + dot, tc, ':');
    lemma_lacks_concat(ta + dot + tb + dot + tc, dot, ':');
    lemma_lacks_concat(ta + dot + tb + dot + tc + dot, td, ':');
    assert(dotted_quad(a, b, c, d)[0] == ta[0]);
}

proof fn lemma_last_colon_before(s: Seq<char>, t: Seq<char>)
    requires
        lacks(t, ':'),
    ensures
        last_index_of(s + seq![':'] + t, ':') == s.len(),
    decreases t.len(),
{
    let whole = s + seq![':'] + t;
    if t.len() == 0 {
        assert(whole =~= s + seq![':']);
        assert(whole.last() == ':');
    } else {
        let u = t.drop_last();
        assert(lacks(u, ':')) by {
            assert forall|i: int| 0 <= i < u.len() implies u[i] != ':' by {
                assert(u[i] == t[i]);
            }
        }
        lemma_last_colon_before(s, u);
        assert(whole.drop_last() =~= s + seq![':'] + u);
        assert(whole.last() == t[t.len() - 1]);
    }
}

/// The pieces `f` joined with dots between them.
pub open spec fn join_dots(f: Seq<Seq<char>>) -> Seq<char>
    decreases f.len(),
{
    if f.len() == 0 {
        Seq::empty()
    } else if f.len() == 1 {
        f[0]
    } else {
        join_dots(f.drop_last()) + seq!['.'] + f.last()
    }
}

proof fn lemma_join_fields(s: Seq<char>)
    ensures
        join_dots(dot_fields(s)) == s,
    decreases s.len(),
{
    if s.len() == 0 {
        assert(dot_fields(s) =~= seq![Seq::<char>::empty()]);
    } else {
        let p = s.drop_last();
        let c = s.last();
        lemma_join_fields(p);
        lemma_dot_fields_nonempty(p);
        let f = dot_fields(p);
        if c == '.' {
            let g = f.push(Seq::<char>::empty());
            assert(g.drop_last() =~= f);
            assert(join_dots(g) == join_dots(f) + seq!['.'] + Seq::<char>::empty());
            assert(join_dots(g) =~= s);
        } else {
            let g = f.update(f.len() - 1, f.last().push(c));
            if f.len() == 1 {
                assert(join_dots(g) == g[0]);
                assert(join_dots(f) == f[0]);
                assert(g[0] =~= s);
            } else {
                assert(g.drop_last() =~= f.drop_last());
                assert(join_dots(g) == join_dots(f.drop_last()) + seq!['.'] + g.last());
                assert(join_dots(f) == join_dots(f.drop_last()) + seq!['.'] + f.last());
                assert(g.last() == f.last().push(c));
                assert(s =~= p.push(c));
                assert(join_dots(g) =~= join_dots(f).push(c));
                assert(join_dots(g) =~= s);
            }
        }
    }
}

/// Only dotted-decimal spellings are read as addresses: a text that reads
/// as the four octets `q` is exactly the dotted-decimal spelling of `q`, so
/// no leading zeros, signs, spaces or extra dots are ever accepted.
pub proof fn lemma_only_dotted_quads_accepted(s: Seq<char>)
    ensures
        ipv4_octets(s) matches Some(q) ==> q.len() == 4 && s == dotted_quad(q[0], q[1], q[2], q[3]),
{
    if ipv4_octets(s) is Some {
        let f = dot_fields(s);
        let q = ipv4_octets(s).unwrap();
        lemma_join_fields(s);
        assert(is_octet_text(f[0]) && is_octet_text(f[1]) && is_octet_text(f[2]) && is_octet_text(f[3]));
        lemma_canonical_digits(f[0]);
        lemma_canonical_digits(f[1]);
        lemma_canonical_digits(f[2]);
        lemma_canonical_digits(f[3]);
        assert(q[0] as nat == digits_value(f[0]));
        assert(q[1] as nat == digits_value(f[1]));
        assert(q[2] as nat == digits_value(f[2]));
        assert(q[3] as nat == digits_value(f[3]));
        let f3 = f.drop_last();
        let f2 = f3.drop_last();
        let f1 = f2.drop_last();
        assert(f1 =~= seq![f[0]]);
        assert(join_dots(f1) == f[0]);
        assert(join_dots(f2) == f[0] + seq!['.'] + f[1]);
        assert(join_dots(f3) == f[0] + seq!['.'] + f[1] + seq!['.'] + f[2]);
        assert(join_dots(f) == f[0] + seq!['.'] + f[1] + seq!['.'] + f[2] + seq!['.'] + f[3]);
    }
}

/// An explicit port is kept: an IPv4 address in dotted-decimal notation
/// followed by `:` and any port number reads as that address and that port,
/// with or without the `mqtt://` scheme in front.
pub proof fn lemma_explicit_port_kept(a: u8, b: u8, c: u8, d: u8, port: u16)
    ensures
        mqtt_endpoint(dotted_quad(a, b, c, d) + seq![':'] + decimal_text(port as nat)) == Some(
            (seq![a, b, c, d], port),
        ),
        mqtt_endpoint(mqtt_scheme() + dotted_quad(a, b, c, d) + seq![':'] + decimal_text(
            port as nat,
        )) == Some((seq![a, b, c, d], port)),
{
    let host = dotted_quad(a, b, c, d);
    let digits = decimal_text(port as nat);
    let text = host + seq![':'] + digits;
    lemma_dotted_quad_plain(a, b, c, d);
    lemma_decimal_text_plain(port as nat);
    lemma_dotted_quad_roundtrip(a, b, c, d);
    crate::decimal::lemma_decimal_roundtrip(port as nat, 0xffff);
    // The text starts with a digit, so it does not start with the scheme.
    assert(text[0] == host[0]);
    if text.len() >= 7 {
        assert(text.take(7)[0] == text[0]);
        assert(text.take(7) != mqtt_scheme());
    }
    assert(strip_scheme(text) == text);
    lemma_last_colon_before(host, digits);
    assert(text.take(host.len() as int) =~= host);
    assert(text.skip(host.len() as int + 1) =~= digits);
    assert(mqtt_endpoint(text) == Some((seq![a, b, c, d], port)));
    assert(mqtt_scheme() + host + seq![':'] + digits =~= mqtt_scheme() + text);
    if text.len() >= 7 {
        assert(text.take(7) != mqtt_scheme());
    }
    lemma_scheme_is_optional(text);
}

/// A port above 65535 is refused, whatever the host.
pub proof fn lemma_port_out_of_range_refused(host: Seq<char>, port: nat)
    requires
        lacks(host, ':'),
        port > 0xffff,
    ensures
        mqtt_endpoint(host + seq![':'] + decimal_text(port)) is None,
{
    let digits = decimal_text(port);
    let text = host + seq![':'] + digits;
    lemma_decimal_text_plain(port);
    lemma_decimal_text(port);
    // Whether or not the scheme is stripped, the last ':' is the one before the digits.
    let rest = strip_scheme(text);
    if text.len() >= 7 && text.take(7) == mqtt_scheme() {
        assert(text.take(7)[4] == ':');
        // The host holds no ':', so the scheme's ':' is the one before the digits.
        assert(host.len() == 4) by {
            if host.len() > 4 {
                assert(text[4] == host[4]);
            } else if host.len() < 4 {
                assert(text[host.len() as int] == ':');
                assert(text.take(7)[host.len() as int] == mqtt_scheme()[host.len() as int]);
            }
        }
        assert(text[5] == digits[0]);
        assert(text.take(7)[5] == '/');
        assert(is_digit(digits[0]));
        assert(false);
    }
    assert(rest == text);
    lemma_last_colon_before(host, digits);
    assert(text.skip(host.len() as int + 1) =~= digits);
    assert(unsigned_value(digits, 0xffff) is None) by {
        assert(digits[0] != '+') by {
            assert(is_digit(digits[0]));
        }
    }
}

/// The characters of `s`, one by one.
pub fn to_chars(s: &str) -> (v: Vec<char>)
    ensures
        v@ == s@,
{
    let n = s.unicode_len();
    let mut v: Vec<char> = Vec::new();
    let mut i: usize = 0;
    while i < n
        invariant
            n == s@.len(),
            i <= n,
            v@ == s@.take(i as int),
        decreases n - i,
    {
        v.push(s.get_char(i));
        i = i + 1;
        assert(v@ =~= s@.take(i as int));
    }
    assert(s@.take(n as int) =~= s@);
    v
}

/// Reads the IPv4 address that `text[lo..hi]` writes in dotted-decimal notation.
pub fn parse_ipv4(text: &[char], lo: usize, hi: usize) -> (r: Option<[u8; 4]>)
    requires
        lo <= hi <= text@.len(),
    ensures
        match r {
            Some(a) => ipv4_octets(text@.subrange(lo as int, hi as int)) == Some(a@),
            None => ipv4_octets(text@.subrange(lo as int, hi as int)) is None,
        },
{
    let mut done: Vec<u8> = Vec::new();
    let mut dots: usize = 0;
    let mut done_ok = true;
    let mut cur_len: usize = 0;
    let mut cur_digits = true;
    let mut cur_val: u32 = 0;
    let mut cur_first: char = '0';
    let mut i: usize = lo;
    let ghost mut f: Seq<Seq<char>> = dot_fields(Seq::empty());
    assert(text@.subrange(lo as int, lo as int) =~= Seq::<char>::empty());
    while i < hi
        invariant
            lo <= i <= hi <= text@.len(),
            f == dot_fields(text@.subrange(lo as int, i as int)),
            f.len() == dots + 1,
            dots <= i - lo,
            cur_len == f.last().len(),
            cur_digits == all_digits(f.last()),
            cur_digits && cur_len <= 3 ==> cur_val == digits_value(f.last()),
            cur_len <= i - lo,
            cur_val <= 999,
            cur_len <= 2 ==> cur_val <= 99,
            cur_len <= 1 ==> cur_val <= 9,
            cur_len == 0 ==> cur_val == 0,
            cur_len >= 1 ==> cur_first == f.last()[0],
            done_ok == (dots <= 3 && forall|k: int| 0 <= k < dots ==> is_octet_text(#[trigger] f[k])),
            done_ok ==> done@.len() == dots,
            done_ok ==> forall|k: int| 0 <= k < dots ==> #[trigger] done@[k] == digits_value(f[k]),
        decreases hi - i,
    {
        let c = text[i];
        let ghost prev = text@.subrange(lo as int, i as int);
        let ghost next = text@.subrange(lo as int, i + 1);
        proof {
            assert(next.drop_last() =~= prev);
            assert(next.last() == c);
            lemma_dot_fields_nonempty(prev);
        }
        if c == '.' {
            let octet_ok = 1 <= cur_len && cur_len <= 3 && cur_digits && (cur_len == 1
                || cur_first != '0') && cur_val <= 255;
            assert(octet_ok == is_octet_text(f.last()));
            if done_ok && octet_ok && dots < 3 {
                done.push(cur_val as u8);
            } else {
                done_ok = false;
            }
            proof {
                let nf = f.push(Seq::empty());
                assert(nf[dots as int] == f.last());
                assert forall|k: int| 0 <= k < dots implies nf[k] == f[k] by {}
                f = nf;
            }
            dots = dots + 1;
            cur_len = 0;
            cur_digits = true;
            cur_val = 0;
        } else {
            let ghost old_last = f.last();
            let ghost new_last = old_last.push(c);
            proof {
                assert(new_last.drop_last() =~= old_last);
                if cur_len >= 1 {
                    assert(new_last[0] == old_last[0]);
                }
            }
            if cur_len == 0 {
                cur_first = c;
            }
            if !('0' <= c && c <= '9') {
                cur_digits = false;
                assert(!all_digits(new_last)) by {
                    assert(new_last[new_last.len() - 1] == c);
                }
            } else {
                assert(all_digits(new_last) == all_digits(old_last)) by {
                    if all_digits(old_last) {
                        assert forall|k: int| 0 <= k < new_last.len() implies is_digit(
                            #[trigger] new_last[k],
                        ) by {
                            if k < old_last.len() {
                                assert(new_last[k] == old_last[k]);
                            }
                        }
                    } else {
                        let k = choose|k: int| 0 <= k < old_last.len() && !is_digit(old_last[k]);
                        assert(new_last[k] == old_last[k]);
                    }
                }
                if cur_digits && cur_len < 3 {
                    cur_val = cur_val * 10 + (c as u32 - '0' as u32);
                    assert(digit_value(c) == (c as u32 - '0' as u32));
                }
            }
            proof {
                let nf = f.update(f.len() - 1, new_last);
                assert forall|k: int| 0 <= k < dots implies nf[k] == f[k] by {}
                f = nf;
            }
            cur_len = cur_len + 1;
        }
        i = i + 1;
    }
    assert(text@.subrange(lo as int, i as int) == text@.subrange(lo as int, hi as int));
    let ghost s = text@.subrange(lo as int, hi as int);
    proof { lemma_dot_fields_nonempty(s); }
    let last_ok = 1 <= cur_len && cur_len <= 3 && cur_digits && (cur_len == 1 || cur_first != '0')
        && cur_val <= 255;
    assert(last_ok == is_octet_text(f.last()));
    if done_ok && dots == 3 && last_ok {
        let a: [u8; 4] = [done[0], done[1], done[2], cur_val as u8];
        assert(a@ =~= ipv4_octets(s).unwrap());
        Some(a)
    } else {
        proof {
            if ipv4_octets(s) is Some {
                assert(f.len() == 4);
                assert(is_octet_text(f[3]));
                assert forall|k: int| 0 <= k < dots implies is_octet_text(#[trigger] f[k]) by {}
            }
        }
        None
    }
}

/// Reads the broker's address from its configured text, such as
/// `mqtt://192.168.1.135:1883`: an optional `mqtt://`, a dotted-decimal IPv4
/// address, and an optional `:port`, 1883 where the port is left out.
/// Gives nothing where the host is not an IPv4 address or the port not a
/// number that fits in 16 bits.
pub fn parse_mqtt_server(server: &str) -> (r: Option<BrokerAddress>)
    ensures
        match r {
            Some(a) => mqtt_endpoint(server@) == Some((a.ip@, a.port)),
            None => mqtt_endpoint(server@) is None,
        },
{
    let chars = to_chars(server);
    let n = chars.len();
    let ghost s = chars@;
    let has_scheme = n >= 7 && chars[0] == 'm' && chars[1] == 'q' && chars[2] == 't' && chars[3]
        == 't' && chars[4] == ':' && chars[5] == '/' && chars[6] == '/';
    let start: usize = if has_scheme {
        7
    } else {
        0
    };
    proof {
        if n >= 7 {
            if has_scheme {
                assert(s.take(7) =~= mqtt_scheme());
            } else {
                assert(s.take(7) != mqtt_scheme()) by {
                    if s.take(7) == mqtt_scheme() {
                        assert(s[0] == s.take(7)[0]);
                        assert(s[1] == s.take(7)[1]);
                        assert(s[2] == s.take(7)[2]);
                        assert(s[3] == s.take(7)[3]);
                        assert(s[4] == s.take(7)[4]);
                        assert(s[5] == s.take(7)[5]);
                        assert(s[6] == s.take(7)[6]);
                    }
                }
            }
        }
    }
    let ghost rest = s.subrange(start as int, n as int);
    assert(rest =~= strip_scheme(s));
    // Find the last ':' of the rest, scanning backwards.
    let mut j: usize = n;
    assert(rest.take(n - start) =~= rest);
    while j > start
        invariant
            start <= j <= n == chars@.len(),
            rest == chars@.subrange(start as int, n as int),
            last_index_of(rest, ':') == last_index_of(rest.take(j - start), ':'),
        ensures
            start <= j <= n,
            last_index_of(rest, ':') == last_index_of(rest.take(j - start), ':'),
            j == start || chars@[j - 1] == ':',
        decreases j,
    {
        let ghost pre = rest.take(j - start);
        assert(pre.last() == chars@[j - 1]);
        if chars[j - 1] == ':' {
            break;
        }
        assert(pre.drop_last() =~= rest.take(j - 1 - start));
        j = j - 1;
    }
    let ghost idx = last_index_of(rest, ':');
    if j == start {
        assert(rest.take(0) =~= Seq::<char>::empty());
        assert(idx == -1);
        match parse_ipv4(chars.as_slice(), start, n) {
            Some(ip) => Some(BrokerAddress { ip, port: DEFAULT_MQTT_PORT }),
            None => None,
        }
    } else {
        assert(rest.take(j - start).last() == chars@[j - 1]);
        assert(idx == j - 1 - start);
        assert(rest.take(idx) =~= chars@.subrange(start as int, j - 1));
        assert(rest.skip(idx + 1) =~= chars@.subrange(j as int, n as int));
        let ip = parse_ipv4(chars.as_slice(), start, j - 1);
        let port = parse_unsigned(chars.as_slice(), j, n, 0xffff);
        match (ip, port) {
            (Some(ip), Some(port)) => Some(BrokerAddress { ip, port: port as u16 }),
            _ => None,
        }
    }
}

/// The broker's address, for configured text that names one (see
/// [`parse_mqtt_server`], which says whether it does).
pub fn broker_address(server: &str) -> (a: BrokerAddress)
    requires
        mqtt_endpoint(server@) is Some,
    ensures
        mqtt_endpoint(server@) == Some((a.ip@, a.port)),
{
    let parsed = parse_mqtt_server(server);
    assert(parsed is Some);
    parsed.unwrap()
}

} // verus!
