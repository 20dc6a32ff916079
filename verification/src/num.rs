use vstd::prelude::*;

verus! {

// ---------------------------------------------------------------- model

pub open spec fn digit(c: char) -> bool {
    '0' <= c <= '9'
}

pub open spec fn digit_val(c: char) -> int {
    (c as u32) - ('0' as u32)
}

pub open spec fn digit_char(d: int) -> char
    recommends
        0 <= d < 10,
{
    ((d + ('0' as u32)) as u32) as char
}

pub open spec fn all_digits(s: Seq<char>) -> bool {
    forall|i: int| 0 <= i < s.len() ==> digit(#[trigger] s[i])
}

/// The value of a string of decimal digits.
pub open spec fn digits_val(s: Seq<char>) -> int
    decreases s.len(),
{
    if s.len() == 0 {
        0
    } else {
        10 * digits_val(s.drop_last()) + digit_val(s.last())
    }
}

/// Decimal digits of a natural number, most significant first.
pub open spec fn nat_digits(n: nat) -> Seq<char>
    decreases n,
{
    if n < 10 {
        seq![digit_char(n as int)]
    } else {
        nat_digits((n / 10) as nat).push(digit_char((n % 10) as int))
    }
}

/// `i64::to_string`: the decimal form of `n`, with `'-'` when negative.
pub open spec fn dec(n: int) -> Seq<char> {
    if n < 0 {
        seq!['-'] + nat_digits((-n) as nat)
    } else {
        nat_digits(n as nat)
    }
}

/// The integer that `str::parse` gives for `s` before the range check: an
/// optional `'+'` or `'-'` followed by at least one ASCII digit.
pub open spec fn parse_int(s: Seq<char>) -> Option<int> {
    if s.len() > 0 && (s[0] == '+' || s[0] == '-') {
        let d = s.drop_first();
        if d.len() > 0 && all_digits(d) {
            if s[0] == '-' {
                Some(-digits_val(d))
            } else {
                Some(digits_val(d))
            }
        } else {
            None
        }
    } else if s.len() > 0 && all_digits(s) {
        Some(digits_val(s))
    } else {
        None
    }
}

/// `s.parse::<i64>().ok()`.
pub open spec fn i64_of(s: Seq<char>) -> Option<int> {
    match parse_int(s) {
        Some(v) => if i64::MIN <= v <= i64::MAX {
            Some(v)
        } else {
            None
        },
        None => None,
    }
}

/// `s.parse::<u32>().ok()`: unsigned types take no `'-'`.
pub open spec fn u32_of(s: Seq<char>) -> Option<int> {
    if s.len() > 0 && s[0] == '-' {
        None
    } else {
        match parse_int(s) {
            Some(v) => if 0 <= v <= u32::MAX {
                Some(v)
            } else {
                None
            },
            None => None,
        }
    }
}

/// `s.parse::<u64>().ok()`.
pub open spec fn u64_of(s: Seq<char>) -> Option<int> {
    if s.len() > 0 && s[0] == '-' {
        None
    } else {
        match parse_int(s) {
            Some(v) => if 0 <= v <= u64::MAX {
                Some(v)
            } else {
                None
            },
            None => None,
        }
    }
}

/// `s.parse::<u8>().ok()`.
pub open spec fn u8_of(s: Seq<char>) -> Option<int> {
    match u32_of(s) {
        Some(v) => if v <= 255 {
            Some(v)
        } else {
            None
        },
        None => None,
    }
}

/// Index of the first `'e'` or `'E'` in `s`, or its length.
pub open spec fn exp_index(s: Seq<char>) -> nat
    decreases s.len(),
{
    if s.len() == 0 {
        0
    } else if s[0] == 'e' || s[0] == 'E' {
        0
    } else {
        1 + exp_index(s.drop_first())
    }
}

/// Digits with at most one `'.'` among them, and at least one digit.
pub open spec fn is_mantissa(m: Seq<char>) -> bool {
    let d = crate::text::index_of(m, '.');
    let whole = m.take(d as int);
    let frac = if d < m.len() { m.skip(d + 1 as int) } else { seq![] };
    all_digits(whole) && all_digits(frac) && whole.len() + frac.len() > 0
}

/// An optional sign and at least one digit.
pub open spec fn is_exponent(e: Seq<char>) -> bool {
    let d = if e.len() > 0 && (e[0] == '+' || e[0] == '-') { e.drop_first() } else { e };
    d.len() > 0 && all_digits(d)
}

/// A number in decimal notation, with an optional exponent.
pub open spec fn is_decimal(b: Seq<char>) -> bool {
    let k = exp_index(b);
    is_mantissa(b.take(k as int)) && (k >= b.len() || is_exponent(b.skip(k + 1 as int)))
}

/// The words that `str::parse::<f64>` reads as an infinity or not a
/// number: an optional sign and `inf`, `infinity` or `nan`, in any case.
pub open spec fn is_special_float(s: Seq<char>) -> bool {
    let b = if s.len() > 0 && (s[0] == '+' || s[0] == '-') { s.drop_first() } else { s };
    let l = crate::text::ascii_lower(b);
    l == "inf"@ || l == "infinity"@ || l == "nan"@
}

/// Whether `s.parse::<f64>()` succeeds: the grammar that std documents for
/// `f64::from_str`, an optional sign followed by `inf`, `infinity` or `nan`
/// (in any case) or a decimal number.
pub open spec fn is_float_text(s: Seq<char>) -> bool {
    let b = if s.len() > 0 && (s[0] == '+' || s[0] == '-') { s.drop_first() } else { s };
    let l = crate::text::ascii_lower(b);
    l == "inf"@ || l == "infinity"@ || l == "nan"@ || is_decimal(b)
}

// ---------------------------------------------------------------- lemmas

pub proof fn lemma_digits_val_nonneg(s: Seq<char>)
    requires
        all_digits(s),
    ensures
        digits_val(s) >= 0,
    decreases s.len(),
{
    if s.len() > 0 {
        assert(all_digits(s.drop_last())) by {
            assert forall|i: int| 0 <= i < s.drop_last().len() implies digit(
                #[trigger] s.drop_last()[i],
            ) by {
                assert(s.drop_last()[i] == s[i]);
            }
        }
        lemma_digits_val_nonneg(s.drop_last());
        assert(digit(s[s.len() - 1]));
    }
}

proof fn lemma_digit_char(d: int)
    requires
        0 <= d < 10,
    ensures
        digit(digit_char(d)),
        digit_val(digit_char(d)) == d,
{
}

proof fn lemma_nat_digits_props(n: nat)
    ensures
        nat_digits(n).len() > 0,
        all_digits(nat_digits(n)),
        digits_val(nat_digits(n)) == n,
    decreases n,
{
    lemma_digit_char((n % 10) as int);
    if n >= 10 {
        lemma_nat_digits_props((n / 10) as nat);
        let p = nat_digits((n / 10) as nat);
        let s = p.push(digit_char((n % 10) as int));
        assert(s.drop_last() =~= p);
        assert(s.last() == digit_char((n % 10) as int));
        assert(n == 10 * (n / 10) + n % 10);
        assert(digits_val(s) == 10 * digits_val(p) + digit_val(s.last()));
        assert forall|i: int| 0 <= i < s.len() implies digit(#[trigger] s[i]) by {
            if i < p.len() {
                assert(s[i] == p[i]);
            }
        }
    } else {
        let s = seq![digit_char(n as int)];
        assert(s.drop_last() =~= Seq::<char>::empty());
        assert(digits_val(s) == 10 * digits_val(s.drop_last()) + digit_val(s.last()));
    }
}

/// Reading back the decimal form of an integer gives the integer.
pub proof fn lemma_parse_dec(n: int)
    ensures
        parse_int(dec(n)) == Some(n),
{
    if n < 0 {
        lemma_nat_digits_props((-n) as nat);
        let d = nat_digits((-n) as nat);
        assert((seq!['-'] + d).drop_first() =~= d);
    } else {
        lemma_nat_digits_props(n as nat);
        let d = nat_digits(n as nat);
        assert(digit(d[0]));
    }
}

/// The decimal form of an integer: digits, after a `'-'` when negative.
pub proof fn lemma_dec_shape(n: int)
    ensures
        dec(n).len() > 0,
        digit(dec(n).last()),
        forall|i: int| 0 <= i < dec(n).len() ==> digit(#[trigger] dec(n)[i]) || (i == 0 && dec(n)[i] == '-'),
{
    if n < 0 {
        lemma_nat_digits_props((-n) as nat);
        let d = nat_digits((-n) as nat);
        assert forall|i: int| 0 <= i < dec(n).len() implies digit(#[trigger] dec(n)[i]) || (i == 0 && dec(n)[i] == '-') by {
            if i > 0 {
                assert(dec(n)[i] == d[i - 1]);
            }
        }
        assert(dec(n).last() == d.last());
    } else {
        lemma_nat_digits_props(n as nat);
    }
}

/// A number written as text reads back: `i64::to_string` (`i64_to_chars`)
/// read by `str::parse::<i64>` (`parse_i64`) gives the same value.
pub proof fn law_number_reads_back(n: i64)
    ensures
        i64_of(dec(n as int)) == Some(n as int),
{
    lemma_parse_dec(n as int);
}

// ---------------------------------------------------------------- exec

pub fn is_digit(c: char) -> (r: bool)
    ensures
        r == digit(c),
{
    '0' <= c && c <= '9'
}

/// `u64::to_string`.
pub fn nat_to_digits(n: u64) -> (r: Vec<char>)
    ensures
        r@ == nat_digits(n as nat),
        r@ == dec(n as int),
    decreases n,
{
    if n < 10 {
        let c = char_of_digit(n);
        let mut v: Vec<char> = Vec::new();
        v.push(c);
        v
    } else {
        let mut v = nat_to_digits(n / 10);
        v.push(char_of_digit(n % 10));
        v
    }
}

fn char_of_digit(d: u64) -> (c: char)
    requires
        d < 10,
    ensures
        c == digit_char(d as int),
{
    if d == 0 { '0' }
    else if d == 1 { '1' }
    else if d == 2 { '2' }
    else if d == 3 { '3' }
    else if d == 4 { '4' }
    else if d == 5 { '5' }
    else if d == 6 { '6' }
    else if d == 7 { '7' }
    else if d == 8 { '8' }
    else { '9' }
}

/// `i64::to_string`.
pub fn i64_to_chars(n: i64) -> (r: Vec<char>)
    ensures
        r@ == dec(n as int),
{
    if n < 0 {
        let m: u64 = if n == i64::MIN {
            9223372036854775808u64
        } else {
            (0 - n) as u64
        };
        let d = nat_to_digits(m);
        let mut r: Vec<char> = Vec::new();
        r.push('-');
        crate::text::append(&mut r, &d);
        assert(r@ =~= seq!['-'] + d@);
        r
    } else {
        nat_to_digits(n as u64)
    }
}

fn char_value(c: char) -> (r: u64)
    requires
        digit(c),
    ensures
        r == digit_val(c),
{
    (c as u32 - '0' as u32) as u64
}

/// Value of a non-empty string of digits when it is at most `limit`.
fn digits_upto(s: &Vec<char>, from: usize, limit: u64) -> (r: Option<u64>)
    requires
        from <= s.len(),
        9 <= limit,
    ensures
        match r {
            Some(v) => {
                &&& from < s.len()
                &&& all_digits(s@.skip(from as int))
                &&& digits_val(s@.skip(from as int)) == v
                &&& v <= limit
            },
            None => !(from < s.len() && all_digits(s@.skip(from as int)) && digits_val(
                s@.skip(from as int),
            ) <= limit),
        },
{
    let ghost d = s@.skip(from as int);
    if from == s.len() {
        return None;
    }
    let mut acc: u64 = 0;
    let mut i: usize = from;
    while i < s.len()
        invariant
            from <= i <= s.len(),
            d == s@.skip(from as int),
            all_digits(s@.subrange(from as int, i as int)),
            acc == digits_val(s@.subrange(from as int, i as int)),
            acc <= limit,
            9 <= limit,
        decreases s.len() - i,
    {
        let c = s[i];
        if !is_digit(c) {
            assert(d[i - from] == c);
            return None;
        }
        let v = char_value(c);
        let ghost pre = s@.subrange(from as int, i as int);
        let ghost next = s@.subrange(from as int, i + 1);
        assert(next.drop_last() =~= pre);
        assert(all_digits(next)) by {
            assert forall|k: int| 0 <= k < next.len() implies digit(#[trigger] next[k]) by {
                if k < pre.len() {
                    assert(next[k] == pre[k]);
                }
            }
        }
        if acc > (limit - v) / 10 {
            // every further digit keeps the value above the limit
            proof {
                if all_digits(d) {
                    lemma_digits_val_prefix(d, (i + 1 - from) as int);
                    assert(d.take(i + 1 - from) =~= next);
                }
            }
            return None;
        }
        acc = acc * 10 + v;
        i += 1;
    }
    assert(s@.subrange(from as int, s.len() as int) =~= d);
    Some(acc)
}

/// The value of a digit string is at least the value of any of its prefixes.
proof fn lemma_digits_val_prefix(d: Seq<char>, k: int)
    requires
        0 <= k <= d.len(),
        all_digits(d),
    ensures
        digits_val(d) >= digits_val(d.take(k)),
    decreases d.len(),
{
    if k < d.len() {
        assert(d.drop_last().take(k) =~= d.take(k));
        assert(all_digits(d.drop_last())) by {
            assert forall|i: int| 0 <= i < d.drop_last().len() implies digit(
                #[trigger] d.drop_last()[i],
            ) by {
                assert(d.drop_last()[i] == d[i]);
            }
        }
        lemma_digits_val_prefix(d.drop_last(), k);
        lemma_digits_val_nonneg(d.drop_last());
        assert(digit(d[d.len() - 1]));
    } else {
        assert(d.take(k) =~= d);
    }
}

/// `s.parse::<i64>().ok()`.
pub fn parse_i64(s: &Vec<char>) -> (r: Option<i64>)
    ensures
        match r {
            Some(v) => i64_of(s@) == Some(v as int),
            None => i64_of(s@) is None,
        },
{
    if s.len() > 0 && (s[0] == '+' || s[0] == '-') {
        let neg = s[0] == '-';
        let lim: u64 = if neg { 9223372036854775808u64 } else { 9223372036854775807u64 };
        assert(s@.drop_first() =~= s@.skip(1));
        match digits_upto(s, 1, lim) {
            Some(v) => {
                if neg {
                    if v == 9223372036854775808u64 {
                        Some(i64::MIN)
                    } else {
                        Some(0 - (v as i64))
                    }
                } else {
                    Some(v as i64)
                }
            },
            None => None,
        }
    } else {
        assert(s@.skip(0) =~= s@);
        match digits_upto(s, 0, 9223372036854775807u64) {
            Some(v) => Some(v as i64),
            None => {
                proof {
                    if s@.len() > 0 && all_digits(s@) {
                        lemma_digits_val_nonneg(s@);
                    }
                }
                None
            },
        }
    }
}

/// `s.parse::<u32>().ok()`.
pub fn parse_u32(s: &Vec<char>) -> (r: Option<u32>)
    ensures
        match r {
            Some(v) => u32_of(s@) == Some(v as int),
            None => u32_of(s@) is None,
        },
{
    if s.len() > 0 && s[0] == '-' {
        return None;
    }
    if s.len() > 0 && s[0] == '+' {
        assert(s@.drop_first() =~= s@.skip(1));
        match digits_upto(s, 1, 4294967295u64) {
            Some(v) => Some(v as u32),
            None => None,
        }
    } else {
        assert(s@.skip(0) =~= s@);
        match digits_upto(s, 0, 4294967295u64) {
            Some(v) => Some(v as u32),
            None => {
                proof {
                    if s@.len() > 0 && all_digits(s@) {
                        lemma_digits_val_nonneg(s@);
                    }
                }
                None
            },
        }
    }
}

/// `s.parse::<u64>().ok()`.
pub fn parse_u64(s: &Vec<char>) -> (r: Option<u64>)
    ensures
        match r {
            Some(v) => u64_of(s@) == Some(v as int),
            None => u64_of(s@) is None,
        },
{
    if s.len() > 0 && s[0] == '-' {
        return None;
    }
    if s.len() > 0 && s[0] == '+' {
        assert(s@.drop_first() =~= s@.skip(1));
        digits_upto(s, 1, u64::MAX)
    } else {
        assert(s@.skip(0) =~= s@);
        match digits_upto(s, 0, u64::MAX) {
            Some(v) => Some(v),
            None => {
                proof {
                    if s@.len() > 0 && all_digits(s@) {
                        lemma_digits_val_nonneg(s@);
                    }
                }
                None
            },
        }
    }
}

/// `s.parse::<u8>().ok()`.
pub fn parse_u8(s: &Vec<char>) -> (r: Option<u8>)
    ensures
        match r {
            Some(v) => u8_of(s@) == Some(v as int),
            None => u8_of(s@) is None,
        },
{
    match parse_u32(s) {
        Some(v) => if v <= 255 {
            Some(v as u8)
        } else {
            None
        },
        None => None,
    }
}

fn digits_in(s: &Vec<char>, a: usize, b: usize) -> (r: bool)
    requires
        a <= b <= s.len(),
    ensures
        r == all_digits(s@.subrange(a as int, b as int)),
{
    let mut i: usize = a;
    while i < b
        invariant
            a <= i <= b <= s.len(),
            forall|j: int| a <= j < i ==> digit(s@[j]),
        decreases b - i,
    {
        if !is_digit(s[i]) {
            assert(s@.subrange(a as int, b as int)[i - a] == s@[i as int]);
            return false;
        }
        i += 1;
    }
    assert forall|j: int| 0 <= j < b - a implies digit(#[trigger] s@.subrange(a as int, b as int)[j]) by {
        assert(s@.subrange(a as int, b as int)[j] == s@[a + j]);
    }
    true
}

fn mantissa_ok(m: &Vec<char>) -> (r: bool)
    ensures
        r == is_mantissa(m@),
{
    let d = crate::text::find_char(m, '.');
    assert(m@.take(d as int) =~= m@.subrange(0, d as int));
    let whole = digits_in(m, 0, d);
    let frac_len: usize = if d < m.len() { m.len() - d - 1 } else { 0 };
    let frac = if d < m.len() {
        assert(m@.skip(d + 1) =~= m@.subrange(d + 1, m.len() as int));
        digits_in(m, d + 1, m.len())
    } else {
        true
    };
    whole && frac && d + frac_len > 0
}

fn exponent_ok(e: &Vec<char>, a: usize) -> (r: bool)
    requires
        a <= e.len(),
    ensures
        r == is_exponent(e@.skip(a as int)),
{
    let ghost t = e@.skip(a as int);
    let start: usize = if a < e.len() && (e[a] == '+' || e[a] == '-') { a + 1 } else { a };
    proof {
        if a < e.len() {
            assert(t[0] == e@[a as int]);
        }
        if start == a + 1 {
            assert(t.drop_first() =~= e@.subrange(start as int, e.len() as int));
        } else {
            assert(t =~= e@.subrange(start as int, e.len() as int));
        }
    }
    start < e.len() && digits_in(e, start, e.len())
}

/// Whether `s` is one of the words `inf`, `infinity` or `nan` (with an
/// optional sign, in any case).
pub fn special_float(s: &Vec<char>) -> (r: bool)
    ensures
        r == is_special_float(s@),
{
    let b = if s.len() > 0 && (s[0] == '+' || s[0] == '-') {
        let x = crate::text::slice(s, 1, s.len());
        assert(x@ =~= s@.drop_first());
        x
    } else {
        crate::text::slice(s, 0, s.len())
    };
    assert(b@ =~= (if s@.len() > 0 && (s@[0] == '+' || s@[0] == '-') { s@.drop_first() } else { s@ }));
    let l = crate::text::to_ascii_lower(&b);
    crate::text::same(&l, &crate::text::lit("inf")) || crate::text::same(&l, &crate::text::lit("infinity"))
        || crate::text::same(&l, &crate::text::lit("nan"))
}

/// Whether `s.parse::<f64>()` succeeds.
pub fn float_text(s: &Vec<char>) -> (r: bool)
    ensures
        r == is_float_text(s@),
{
    let b = if s.len() > 0 && (s[0] == '+' || s[0] == '-') {
        let x = crate::text::slice(s, 1, s.len());
        assert(x@ =~= s@.drop_first());
        x
    } else {
        crate::text::slice(s, 0, s.len())
    };
    assert(b@ =~= (if s@.len() > 0 && (s@[0] == '+' || s@[0] == '-') { s@.drop_first() } else { s@ }));
    let l = crate::text::to_ascii_lower(&b);
    if crate::text::same(&l, &crate::text::lit("inf")) || crate::text::same(&l, &crate::text::lit("infinity"))
        || crate::text::same(&l, &crate::text::lit("nan")) {
        return true;
    }
    let mut k: usize = 0;
    assert(b@.skip(0) =~= b@);
    while k < b.len() && b[k] != 'e' && b[k] != 'E'
        invariant
            k <= b.len(),
            exp_index(b@) == k + exp_index(b@.skip(k as int)),
        decreases b.len() - k,
    {
        assert(b@.skip(k as int).drop_first() =~= b@.skip(k + 1));
        k += 1;
    }
    assert(exp_index(b@.skip(k as int)) == 0) by {
        if k < b.len() {
            assert(b@.skip(k as int)[0] == b@[k as int]);
        }
    }
    let m = crate::text::slice(&b, 0, k);
    assert(m@ =~= b@.take(k as int));
    let ok_m = mantissa_ok(&m);
    ok_m && (k >= b.len() || exponent_ok(&b, k + 1))
}

} // verus!
