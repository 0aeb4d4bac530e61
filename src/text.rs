use vstd::prelude::*;
use vstd::string::*;

verus! {

broadcast use vstd::string::group_string_axioms;

/// Relies on `String::push`: the character is appended at the end.
pub assume_specification[ String::push ](s: &mut String, ch: char)
    ensures
        final(s)@ == old(s)@.push(ch),
;

/// The characters of a string, in order.
pub fn chars_of(s: &str) -> (r: Vec<char>)
    ensures
        r@ == s@,
{
    let n = s.unicode_len();
    let mut v: Vec<char> = Vec::new();
    let mut i: usize = 0;
    while i < n
        invariant
            n == s@.len(),
            i <= n,
            v@ == s@.take(i as int),
        decreases n - i,
    {
        v.push(s.get_char(i));
        i = i + 1;
        assert(v@ =~= s@.take(i as int));
    }
    assert(v@ =~= s@);
    v
}

/// A string holding these characters.
pub fn string_of(v: &Vec<char>) -> (r: String)
    ensures
        r@ == v@,
{
    let mut out = String::new();
    let mut i: usize = 0;
    while i < v.len()
        invariant
            i <= v@.len(),
            out@ == v@.take(i as int),
        decreases v@.len() - i,
    {
        out.push(v[i]);
        i = i + 1;
        assert(out@ =~= v@.take(i as int));
    }
    assert(v@.take(v@.len() as int) =~= v@);
    out
}

/// Whether a character sequence equals a string literal.
pub fn same_text(v: &Vec<char>, lit: &str) -> (r: bool)
    ensures
        r == (v@ == lit@),
{
    let n = lit.unicode_len();
    if v.len() != n {
        return false;
    }
    let mut i: usize = 0;
    while i < n
        invariant
            n == lit@.len(),
            n == v@.len(),
            i <= n,
            v@.take(i as int) =~= lit@.take(i as int),
        decreases n - i,
    {
        if v[i] != lit.get_char(i) {
            assert(v@[i as int] != lit@[i as int]);
            return false;
        }
        i = i + 1;
        assert(v@.take(i as int) =~= lit@.take(i as int));
    }
    assert(v@.take(n as int) =~= v@);
    assert(lit@.take(n as int) =~= lit@);
    true
}

pub open spec fn digit_char(d: nat) -> char {
    ((d + 48) as u32) as char
}

pub fn digit(d: u64) -> (c: char)
    requires
        d < 10,
    ensures
        c == digit_char(d as nat),
{
    ((d + 48) as u8) as char
}

pub open spec fn is_digit(c: char) -> bool {
    48 <= (c as u32) <= 57
}

pub open spec fn digit_value(c: char) -> int {
    (c as u32) - 48
}

pub open spec fn all_digits(s: Seq<char>) -> bool {
    forall|i: int| 0 <= i < s.len() ==> is_digit(#[trigger] s[i])
}

/// The number that a run of decimal digits writes.
pub open spec fn digits_value(s: Seq<char>) -> int
    decreases s.len(),
{
    if s.len() == 0 {
        0
    } else {
        digits_value(s.drop_last()) * 10 + digit_value(s.last())
    }
}

pub open spec fn at_most(v: int, cap: int) -> int {
    if v < cap {
        v
    } else {
        cap
    }
}

/// The shortest decimal writing of `n`.
pub open spec fn decimal(n: nat) -> Seq<char>
    decreases n,
{
    if n < 10 {
        seq![digit_char(n)]
    } else {
        decimal(n / 10).push(digit_char(n % 10))
    }
}

/// An unsigned integer as `str::parse` reads it: an optional `+`, then one
/// or more decimal digits.
pub open spec fn unsigned_value(s: Seq<char>) -> Option<int> {
    let body = if s.len() > 0 && s[0] == '+' {
        s.subrange(1, s.len() as int)
    } else {
        s
    };
    if body.len() > 0 && all_digits(body) {
        Some(digits_value(body))
    } else {
        None
    }
}

/// A signed integer as `str::parse` reads it: `-` before the digits negates.
pub open spec fn signed_value(s: Seq<char>) -> Option<int> {
    if s.len() > 0 && s[0] == '-' {
        let body = s.subrange(1, s.len() as int);
        if body.len() > 0 && all_digits(body) {
            Some(-digits_value(body))
        } else {
            None
        }
    } else {
        unsigned_value(s)
    }
}

pub open spec fn bool_value(s: Seq<char>) -> Option<bool> {
    if s == "true"@ {
        Some(true)
    } else if s == "false"@ {
        Some(false)
    } else {
        None
    }
}

pub proof fn lemma_digits_nonneg(s: Seq<char>)
    requires
        all_digits(s),
    ensures
        digits_value(s) >= 0,
    decreases s.len(),
{
    if s.len() > 0 {
        lemma_digits_nonneg(s.drop_last());
    }
}

/// The decimal writing of a number reads back as that number.
pub proof fn lemma_decimal_reads_back(n: nat)
    ensures
        decimal(n).len() > 0,
        all_digits(decimal(n)),
        digits_value(decimal(n)) == n,
    decreases n,
{
    let c = digit_char(n % 10);
    assert(c as u32 == n % 10 + 48);
    if n >= 10 {
        lemma_decimal_reads_back(n / 10);
        let d = decimal(n / 10);
        assert(decimal(n).drop_last() =~= d);
        assert(decimal(n).last() == c);
        assert(n == (n / 10) * 10 + n % 10);
    } else {
        assert(decimal(n).drop_last() =~= Seq::<char>::empty());
        assert(digits_value(Seq::<char>::empty()) == 0);
    }
}

/// Appends the decimal writing of `n`.
pub fn push_decimal(out: &mut String, n: u64)
    ensures
        final(out)@ == old(out)@ + decimal(n as nat),
    decreases n,
{
    if n >= 10 {
        push_decimal(out, n / 10);
    }
    out.push(digit(n % 10));
    proof {
        if n >= 10 {
            assert(decimal(n as nat) == decimal((n / 10) as nat).push(digit_char((n % 10) as nat)));
        }
    }
    assert(final(out)@ =~= old(out)@ + decimal(n as nat));
}

/// Reads the digits `s[start..end]` as a decimal number, saturating at `cap`;
/// `None` when one of them is not a digit.
fn read_digits(s: &Vec<char>, start: usize, end: usize, cap: u128) -> (r: Option<u128>)
    requires
        start <= end <= s@.len(),
        cap <= u64::MAX as u128 + 1,
    ensures
        r is Some <==> all_digits(s@.subrange(start as int, end as int)),
        r matches Some(v) ==> v == at_most(digits_value(s@.subrange(start as int, end as int)), cap as int),
{
    let mut acc: u128 = 0;
    let mut i: usize = start;
    while i < end
        invariant
            start <= i <= end <= s@.len(),
            cap <= u64::MAX as u128 + 1,
            all_digits(s@.subrange(start as int, i as int)),
            acc == at_most(digits_value(s@.subrange(start as int, i as int)), cap as int),
        decreases end - i,
    {
        let c = s[i];
        if !((c as u32) >= 48 && (c as u32) <= 57) {
            assert(s@.subrange(start as int, end as int)[i - start] == c);
            return None;
        }
        let d = ((c as u32) - 48) as u128;
        let ghost prev = s@.subrange(start as int, i as int);
        let ghost next = s@.subrange(start as int, i + 1);
        assert(next.drop_last() =~= prev);
        proof {
            lemma_digits_nonneg(prev);
        }
        if acc < cap {
            let n = acc * 10 + d;
            acc = if n > cap { cap } else { n };
        }
        i = i + 1;
        assert(all_digits(s@.subrange(start as int, i as int)));
    }
    Some(acc)
}

/// Parses an unsigned integer no larger than `max`.
pub fn parse_unsigned(s: &Vec<char>, max: u64) -> (r: Option<u64>)
    ensures
        r == (match unsigned_value(s@) {
            Some(v) => if v <= max {
                Some(v as u64)
            } else {
                None
            },
            None => None,
        }),
        r matches Some(v) ==> unsigned_value(s@) == Some(v as int),
{
    let start: usize = if s.len() > 0 && s[0] == '+' { 1 } else { 0 };
    let ghost body = if s@.len() > 0 && s@[0] == '+' {
        s@.subrange(1, s@.len() as int)
    } else {
        s@
    };
    assert(body =~= s@.subrange(start as int, s@.len() as int));
    if start >= s.len() {
        return None;
    }
    match read_digits(s, start, s.len(), max as u128 + 1) {
        Some(v) => {
            if v <= max as u128 {
                Some(v as u64)
            } else {
                None
            }
        },
        None => None,
    }
}

/// Parses an `i8`.
pub fn parse_i8(s: &Vec<char>) -> (r: Option<i8>)
    ensures
        r == (match signed_value(s@) {
            Some(v) => if -128 <= v <= 127 {
                Some(v as i8)
            } else {
                None
            },
            None => None,
        }),
{
    if s.len() > 0 && s[0] == '-' {
        if s.len() == 1 {
            return None;
        }
        assert(s@.subrange(1, s@.len() as int).len() > 0);
        match read_digits(s, 1, s.len(), 129) {
            Some(v) => {
                proof {
                    lemma_digits_nonneg(s@.subrange(1, s@.len() as int));
                }
                if v <= 128 {
                    assert(signed_value(s@) == Some(-(v as int)));
                    let neg: i16 = 0 - v as i16;
                    let r = neg as i8;
                    assert(r == (-(v as int)) as i8);
                    Some(r)
                } else {
                    None
                }
            },
            None => None,
        }
    } else {
        match parse_unsigned(s, 127) {
            Some(v) => {
                assert(signed_value(s@) == Some(v as int));
                Some(v as i8)
            },
            None => None,
        }
    }
}

/// Parses `true` or `false`.
pub fn parse_bool(s: &Vec<char>) -> (r: Option<bool>)
    ensures
        r == bool_value(s@),
{
    if same_text(s, "true") {
        Some(true)
    } else if same_text(s, "false") {
        Some(false)
    } else {
        None
    }
}

/// The fields of a line split at every space, as `str::split(' ')` gives
/// them: empty fields are kept and there is always at least one.
pub open spec fn split_fields(s: Seq<char>) -> Seq<Seq<char>>
    decreases s.len(),
{
    if s.len() == 0 {
        seq![Seq::<char>::empty()]
    } else {
        let init = split_fields(s.drop_last());
        if s.last() == ' ' {
            init.push(Seq::<char>::empty())
        } else {
            init.update(init.len() - 1, init.last().push(s.last()))
        }
    }
}

pub proof fn lemma_split_nonempty(s: Seq<char>)
    ensures
        split_fields(s).len() >= 1,
    decreases s.len(),
{
    if s.len() > 0 {
        lemma_split_nonempty(s.drop_last());
    }
}

/// Splits a line at every space.
pub fn split_spaces(s: &Vec<char>) -> (r: Vec<Vec<char>>)
    ensures
        r@.len() == split_fields(s@).len(),
        forall|i: int| 0 <= i < r@.len() ==> (#[trigger] r@[i])@ == split_fields(s@)[i],
{
    let mut fields: Vec<Vec<char>> = Vec::new();
    let mut cur: Vec<char> = Vec::new();
    let mut i: usize = 0;
    proof {
        assert(s@.take(0) =~= Seq::<char>::empty());
    }
    while i < s.len()
        invariant
            i <= s@.len(),
            split_fields(s@.take(i as int)).len() == fields@.len() + 1,
            forall|j: int|
                0 <= j < fields@.len() ==> (#[trigger] fields@[j])@ == split_fields(
                    s@.take(i as int),
                )[j],
            cur@ == split_fields(s@.take(i as int)).last(),
        decreases s@.len() - i,
    {
        let c = s[i];
        let ghost prev = s@.take(i as int);
        assert(s@.take(i + 1).drop_last() =~= prev);
        proof {
            lemma_split_nonempty(prev);
        }
        if c == ' ' {
            let done = cur;
            fields.push(done);
            cur = Vec::new();
        } else {
            cur.push(c);
        }
        i = i + 1;
    }
    fields.push(cur);
    assert(s@.take(s@.len() as int) =~= s@);
    fields
}

/// Position of the first `.` of `s`, or its length when it holds none.
pub open spec fn dot_position(s: Seq<char>) -> int
    decreases s.len(),
{
    if s.len() == 0 {
        0
    } else if s[0] == '.' {
        0
    } else {
        1 + dot_position(s.subrange(1, s.len() as int))
    }
}

pub proof fn lemma_dot_position(s: Seq<char>, i: int)
    requires
        0 <= i <= s.len(),
        forall|j: int| 0 <= j < i ==> s[j] != '.',
        i == s.len() || s[i] == '.',
    ensures
        dot_position(s) == i,
    decreases s.len(),
{
    if s.len() > 0 && i > 0 {
        let t = s.subrange(1, s.len() as int);
        assert forall|j: int| 0 <= j < i - 1 implies t[j] != '.' by {
            assert(t[j] == s[j + 1]);
        }
        if i < s.len() {
            assert(t[i - 1] == s[i]);
        }
        lemma_dot_position(t, i - 1);
    }
}

/// The integer part of a decimal number `digits[.digits]`, in which one of
/// the two runs of digits may be empty but not both.
pub open spec fn truncated_magnitude(body: Seq<char>) -> Option<int> {
    let p = dot_position(body);
    let whole = body.take(p);
    let fraction = if p < body.len() {
        body.skip(p + 1)
    } else {
        Seq::<char>::empty()
    };
    if all_digits(whole) && all_digits(fraction) && (whole.len() > 0 || fraction.len() > 0) {
        Some(digits_value(whole))
    } else {
        None
    }
}

pub open spec fn clamp_i32(v: int) -> int {
    if v < i32::MIN {
        i32::MIN as int
    } else if v > i32::MAX {
        i32::MAX as int
    } else {
        v
    }
}

/// A signed decimal number truncated toward zero, saturated to `i32`.
pub open spec fn truncated_number(s: Seq<char>) -> Option<int> {
    let negative = s.len() > 0 && s[0] == '-';
    let body = if s.len() > 0 && (s[0] == '-' || s[0] == '+') {
        s.skip(1)
    } else {
        s
    };
    match truncated_magnitude(body) {
        Some(m) => Some(clamp_i32(
            if negative {
                -m
            } else {
                m
            },
        )),
        None => None,
    }
}

/// Reads a decimal number and truncates it toward zero, saturating at the
/// bounds of `i32`.
pub fn parse_truncated(s: &Vec<char>) -> (r: Option<i32>)
    ensures
        r matches Some(v) ==> truncated_number(s@) == Some(v as int),
        r is None ==> truncated_number(s@) is None,
{
    let negative = s.len() > 0 && s[0] == '-';
    let start: usize = if s.len() > 0 && (s[0] == '-' || s[0] == '+') { 1 } else { 0 };
    let ghost body = if s@.len() > 0 && (s@[0] == '-' || s@[0] == '+') {
        s@.skip(1)
    } else {
        s@
    };
    assert(body =~= s@.subrange(start as int, s@.len() as int));
    let mut p: usize = start;
    while p < s.len() && s[p] != '.'
        invariant
            start <= p <= s@.len(),
            forall|j: int| start <= j < p ==> s@[j] != '.',
        decreases s@.len() - p,
    {
        p = p + 1;
    }
    proof {
        assert forall|j: int| 0 <= j < p - start implies body[j] != '.' by {
            assert(body[j] == s@[j + start]);
        }
        if p < s@.len() {
            assert(body[p - start] == s@[p as int]);
        }
        lemma_dot_position(body, p - start);
    }
    let ghost whole = body.take(p - start);
    assert(whole =~= s@.subrange(start as int, p as int));
    let frac_start: usize = if p < s.len() { p + 1 } else { p };
    let ghost fraction = if p - start < body.len() {
        body.skip(p - start + 1)
    } else {
        Seq::<char>::empty()
    };
    assert(fraction =~= s@.subrange(frac_start as int, s@.len() as int));
    if p == start && frac_start == s.len() {
        return None;
    }
    let frac = read_digits(s, frac_start, s.len(), 0);
    if frac.is_none() {
        return None;
    }
    match read_digits(s, start, p, 2147483649) {
        Some(m) => {
            proof {
                lemma_digits_nonneg(whole);
            }
            let v: i64 = if negative { 0 - m as i64 } else { m as i64 };
            let r: i32 = if v < -2147483648 {
                -2147483648
            } else if v > 2147483647 {
                2147483647
            } else {
                v as i32
            };
            Some(r)
        },
        None => None,
    }
}

} // verus!
