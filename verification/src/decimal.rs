use vstd::prelude::*;

verus! {

/// Whether `c` is one of the ASCII digits `0` to `9`.
pub open spec fn is_digit(c: char) -> bool {
    '0' <= c && c <= '9'
}

/// The value of the ASCII digit `c`.
pub open spec fn digit_value(c: char) -> nat {
    (c as int - '0' as int) as nat
}

/// The ASCII digit for `d`, which must be below ten.
pub open spec fn digit_char(d: nat) -> char {
    ('0' as int + d) as char
}

/// Whether every character of `s` is an ASCII digit.
pub open spec fn all_digits(s: Seq<char>) -> bool {
    forall|i: int| 0 <= i < s.len() ==> is_digit(#[trigger] s[i])
}

/// The number that the digits `s` spell in base ten (0 for no digits).
pub open spec fn digits_value(s: Seq<char>) -> nat
    decreases s.len(),
{
    if s.len() == 0 {
        0
    } else {
        digits_value(s.drop_last()) * 10 + digit_value(s.last())
    }
}

/// The shortest base-ten spelling of `n`: no sign and no leading zero.
pub open spec fn decimal_text(n: nat) -> Seq<char>
    decreases n,
{
    if n < 10 {
        seq![digit_char(n)]
    } else {
        decimal_text(n / 10) + seq![digit_char(n % 10)]
    }
}

/// What the standard library's parse of an unsigned integer type whose
/// largest value is `max` gives for the text `s`: an optional `+` followed
/// by at least one ASCII digit, and nothing else, whose value is at most
/// `max`. Leading zeros are allowed.
pub open spec fn unsigned_value(s: Seq<char>, max: nat) -> Option<nat> {
    let t = if s.len() > 0 && s[0] == '+' {
        s.drop_first()
    } else {
        s
    };
    if t.len() > 0 && all_digits(t) && digits_value(t) <= max {
        Some(digits_value(t))
    } else {
        None
    }
}

proof fn lemma_digit_char(d: nat)
    requires
        d < 10,
    ensures
        is_digit(digit_char(d)),
        digit_value(digit_char(d)) == d,
{
}

/// The digits of `n`'s base-ten spelling are ASCII digits and spell `n`; the
/// spelling is never empty and starts with `0` only when `n` is 0.
pub proof fn lemma_decimal_text(n: nat)
    ensures
        decimal_text(n).len() >= 1,
        all_digits(decimal_text(n)),
        digits_value(decimal_text(n)) == n,
        decimal_text(n)[0] == '0' <==> n == 0,
    decreases n,
{
    let t = decimal_text(n);
    if n < 10 {
        lemma_digit_char(n);
        assert(t.drop_last() =~= Seq::<char>::empty());
        assert(digits_value(t.drop_last()) == 0);
        assert(t.last() == digit_char(n));
    } else {
        lemma_decimal_text(n / 10);
        lemma_digit_char(n % 10);
        let h = decimal_text(n / 10);
        assert(t.drop_last() =~= h);
        assert(t.last() == digit_char(n % 10));
        assert(digits_value(t) == digits_value(h) * 10 + digit_value(t.last()));
        assert((n / 10) * 10 + n % 10 == n);
        assert(t[0] == h[0]);
        assert forall|i: int| 0 <= i < t.len() implies is_digit(#[trigger] t[i]) by {
            if i < h.len() {
                assert(t[i] == h[i]);
            }
        }
    }
}

/// Reading back what [`format_decimal`] writes gives the number written,
/// for any number that the reader's limit admits.
pub proof fn lemma_decimal_roundtrip(n: nat, max: nat)
    requires
        n <= max,
    ensures
        unsigned_value(decimal_text(n), max) == Some(n),
{
    lemma_decimal_text(n);
    lemma_digit_char(0);
    assert(decimal_text(n)[0] != '+');
}

proof fn lemma_digits_value_positive(t: Seq<char>)
    requires
        t.len() >= 1,
        all_digits(t),
        t[0] != '0',
    ensures
        digits_value(t) >= 1,
    decreases t.len(),
{
    if t.len() > 1 {
        let u = t.drop_last();
        assert(u[0] == t[0]);
        assert(all_digits(u)) by {
            assert forall|i: int| 0 <= i < u.len() implies is_digit(#[trigger] u[i]) by {
                assert(u[i] == t[i]);
            }
        }
        lemma_digits_value_positive(u);
    } else {
        assert(t.drop_last() =~= Seq::<char>::empty());
        assert(is_digit(t[0]));
        assert(t.last() == t[0]);
    }
}

/// A spelling of digits with no leading zero (other than `0` itself) is the
/// shortest spelling of its value: no other text spells a number that way.
pub proof fn lemma_canonical_digits(t: Seq<char>)
    requires
        t.len() >= 1,
        all_digits(t),
        t.len() == 1 || t[0] != '0',
    ensures
        decimal_text(digits_value(t)) == t,
    decreases t.len(),
{
    let v = digits_value(t);
    let u = t.drop_last();
    let c = t.last();
    assert(is_digit(c)) by {
        assert(c == t[t.len() - 1]);
    }
    assert(digit_char(digit_value(c)) == c);
    if t.len() == 1 {
        assert(u =~= Seq::<char>::empty());
        assert(digits_value(u) == 0);
        assert(v == digit_value(c));
        assert(decimal_text(v) =~= t);
    } else {
        assert(u[0] == t[0]);
        assert(all_digits(u)) by {
            assert forall|i: int| 0 <= i < u.len() implies is_digit(#[trigger] u[i]) by {
                assert(u[i] == t[i]);
            }
        }
        lemma_digits_value_positive(u);
        lemma_canonical_digits(u);
        assert(v == digits_value(u) * 10 + digit_value(c));
        assert(v >= 10);
        assert(v / 10 == digits_value(u));
        assert(v % 10 == digit_value(c));
        assert(decimal_text(v) =~= u + seq![c]);
        assert(u + seq![c] =~= t);
    }
}

proof fn lemma_leading_zero_value(t: Seq<char>)
    ensures
        digits_value(seq!['0'] + t) == digits_value(t),
    decreases t.len(),
{
    let z = seq!['0'] + t;
    if t.len() == 0 {
        assert(z.drop_last() =~= Seq::<char>::empty());
        assert(z.last() == '0');
        assert(digits_value(Seq::<char>::empty()) == 0);
        assert(digit_value('0') == 0);
        assert(digits_value(z) == 0);
    } else {
        lemma_leading_zero_value(t.drop_last());
        assert(z.drop_last() =~= seq!['0'] + t.drop_last());
        assert(z.last() == t.last());
    }
}

/// Leading zeros do not change what the reader gives.
pub proof fn lemma_leading_zero_ignored(t: Seq<char>, max: nat)
    requires
        t.len() >= 1,
        t[0] != '+',
    ensures
        unsigned_value(seq!['0'] + t, max) == unsigned_value(t, max),
{
    let z = seq!['0'] + t;
    lemma_leading_zero_value(t);
    assert(z.drop_first() =~= t);
    assert(all_digits(z) == all_digits(t)) by {
        if all_digits(t) {
            assert forall|i: int| 0 <= i < z.len() implies is_digit(#[trigger] z[i]) by {
                if i > 0 {
                    assert(z[i] == t[i - 1]);
                }
            }
        }
        if all_digits(z) {
            assert forall|i: int| 0 <= i < t.len() implies is_digit(#[trigger] t[i]) by {
                assert(z[i + 1] == t[i]);
            }
        }
    }
}

/// A leading `+` does not change what the reader gives.
pub proof fn lemma_plus_sign_ignored(t: Seq<char>, max: nat)
    requires
        t.len() == 0 || t[0] != '+',
    ensures
        unsigned_value(seq!['+'] + t, max) == unsigned_value(t, max),
{
    assert((seq!['+'] + t).drop_first() =~= t);
}

/// A number above the reader's limit is refused.
pub proof fn lemma_too_large_refused(n: nat, max: nat)
    requires
        n > max,
    ensures
        unsigned_value(decimal_text(n), max) is None,
{
    lemma_decimal_text(n);
    lemma_digit_char(0);
    assert(decimal_text(n)[0] != '+');
}

/// A text holding anything but digits, after an optional leading `+`, is
/// refused, and so is an empty one.
pub proof fn lemma_non_digit_refused(s: Seq<char>, i: int, max: nat)
    requires
        0 <= i < s.len(),
        !is_digit(s[i]),
        i > 0 || s[0] != '+',
    ensures
        unsigned_value(s, max) is None,
        unsigned_value(Seq::empty(), max) is None,
{
    if s[0] == '+' {
        assert(s.drop_first()[i - 1] == s[i]);
    }
}

/// Reads the unsigned decimal number in `text[lo..hi]`, refusing it where it
/// exceeds `max`.
pub fn parse_unsigned(text: &[char], lo: usize, hi: usize, max: u64) -> (r: Option<u64>)
    requires
        lo <= hi <= text@.len(),
    ensures
        match r {
            Some(v) => unsigned_value(text@.subrange(lo as int, hi as int), max as nat) == Some(
                v as nat,
            ),
            None => unsigned_value(text@.subrange(lo as int, hi as int), max as nat) is None,
        },
{
    let ghost s = text@.subrange(lo as int, hi as int);
    let start: usize = if lo < hi && text[lo] == '+' {
        lo + 1
    } else {
        lo
    };
    let ghost t = text@.subrange(start as int, hi as int);
    assert(t =~= (if s.len() > 0 && s[0] == '+' {
        s.drop_first()
    } else {
        s
    }));
    if start == hi {
        return None;
    }
    let mut acc: u128 = 0;
    let mut too_big = false;
    let mut j: usize = start;
    while j < hi
        invariant
            start <= j <= hi <= text@.len(),
            t == text@.subrange(start as int, hi as int),
            s == text@.subrange(lo as int, hi as int),
            t == (if s.len() > 0 && s[0] == '+' {
                s.drop_first()
            } else {
                s
            }),
            all_digits(text@.subrange(start as int, j as int)),
            too_big == (digits_value(text@.subrange(start as int, j as int)) > max),
            !too_big ==> acc == digits_value(text@.subrange(start as int, j as int)),
        decreases hi - j,
    {
        let c = text[j];
        let ghost prefix = text@.subrange(start as int, j as int);
        let ghost next = text@.subrange(start as int, j + 1);
        assert(next.drop_last() =~= prefix);
        assert(next.last() == c);
        if !('0' <= c && c <= '9') {
            assert(t[j - start] == c);
            assert(!all_digits(t));
            return None;
        }
        let d = (c as u32 - '0' as u32) as u128;
        assert(d as nat == digit_value(c));
        if !too_big {
            acc = acc * 10 + d;
            if acc > max as u128 {
                too_big = true;
            }
        }
        assert(all_digits(next)) by {
            assert forall|i: int| 0 <= i < next.len() implies is_digit(#[trigger] next[i]) by {
                if i < prefix.len() {
                    assert(next[i] == prefix[i]);
                }
            }
        }
        j = j + 1;
    }
    assert(text@.subrange(start as int, j as int) =~= t);
    if too_big {
        None
    } else {
        Some(acc as u64)
    }
}

/// The value of the ASCII digit `d`, as a one-character string.
fn digit_str(d: usize) -> (r: &'static str)
    requires
        d < 10,
    ensures
        r@ == seq![digit_char(d as nat)],
{
    let r = match d {
        0 => "0",
        1 => "1",
        2 => "2",
        3 => "3",
        4 => "4",
        5 => "5",
        6 => "6",
        7 => "7",
        8 => "8",
        _ => "9",
    };
    proof {
        reveal_strlit("0");
        reveal_strlit("1");
        reveal_strlit("2");
        reveal_strlit("3");
        reveal_strlit("4");
        reveal_strlit("5");
        reveal_strlit("6");
        reveal_strlit("7");
        reveal_strlit("8");
        reveal_strlit("9");
        assert(r@ =~= seq![digit_char(d as nat)]);
    }
    r
}

/// Writes `n` in base ten, without sign or leading zeros.
pub fn format_decimal(n: usize) -> (r: String)
    ensures
        r@ == decimal_text(n as nat),
{
    let mut m: usize = n;
    let mut acc = String::new();
    loop
        invariant
            m > 0 || n == 0,
            m <= n,
            decimal_text(n as nat) == decimal_text(m as nat) + acc@,
        decreases m,
    {
        let digit = digit_str(m % 10);
        acc = String::from_str(digit).concat(acc.as_str());
        if m < 10 {
            assert(decimal_text(m as nat) == seq![digit_char(m as nat)]);
            assert(decimal_text(n as nat) =~= acc@);
            return acc;
        }
        assert(decimal_text(m as nat) == decimal_text((m / 10) as nat) + seq![
            digit_char((m % 10) as nat),
        ]);
        m = m / 10;
    }
}

} // verus!
