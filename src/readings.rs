use vstd::prelude::*;
use vstd::string::*;

verus! {

/// The characters that `char::is_whitespace` accepts: those with the Unicode
/// `White_Space` property.
pub open spec fn is_space(c: char) -> bool {
    let u = c as u32;
    (0x09 <= u <= 0x0d) || u == 0x20 || u == 0x85 || u == 0xa0 || u == 0x1680 || (0x2000 <= u
        <= 0x200a) || u == 0x2028 || u == 0x2029 || u == 0x202f || u == 0x205f || u == 0x3000
}

/// `s` without the white space at its start.
pub open spec fn trim_start(s: Seq<char>) -> Seq<char>
    decreases s.len(),
{
    if s.len() > 0 && is_space(s[0]) {
        trim_start(s.drop_first())
    } else {
        s
    }
}

/// `s` without the white space at its end.
pub open spec fn trim_end(s: Seq<char>) -> Seq<char>
    decreases s.len(),
{
    if s.len() > 0 && is_space(s.last()) {
        trim_end(s.drop_last())
    } else {
        s
    }
}

/// `s` without the white space at either end.
pub open spec fn trim(s: Seq<char>) -> Seq<char> {
    trim_end(trim_start(s))
}

pub open spec fn is_digit(c: char) -> bool {
    48 <= c as u32 <= 57
}

pub open spec fn all_digits(s: Seq<char>) -> bool {
    forall|i: int| 0 <= i < s.len() ==> is_digit(#[trigger] s[i])
}

/// The number that the decimal digits `s` write.
pub open spec fn digits_value(s: Seq<char>) -> int
    decreases s.len(),
{
    if s.len() == 0 {
        0
    } else {
        digits_value(s.drop_last()) * 10 + (s.last() as u32 - 48)
    }
}

/// What parsing `t` as an `i32` gives: an optional `+` or `-`, then one or
/// more decimal digits, whose value must fit.
pub open spec fn parse_int(t: Seq<char>) -> Option<i32> {
    let neg = t.len() > 0 && t[0] == '-';
    let digits = if t.len() > 0 && (t[0] == '-' || t[0] == '+') {
        t.drop_first()
    } else {
        t
    };
    let v = if neg {
        -digits_value(digits)
    } else {
        digits_value(digits)
    };
    if digits.len() > 0 && all_digits(digits) && i32::MIN <= v <= i32::MAX {
        Some(v as i32)
    } else {
        None
    }
}

/// The raw sensor reading, in millidegrees, that a sensor file holding
/// `content` gives, if any.
pub open spec fn millidegrees_of(content: Seq<char>) -> Option<i32> {
    parse_int(trim(content))
}

/// Whether a power-source file holding `content` says that the machine
/// runs on battery: it reads `0`, white space around it aside.
pub open spec fn on_battery(content: Seq<char>) -> bool {
    trim(content) == seq!['0']
}

fn is_space_char(c: char) -> (r: bool)
    ensures
        r == is_space(c),
{
    let u = c as u32;
    (0x09 <= u && u <= 0x0d) || u == 0x20 || u == 0x85 || u == 0xa0 || u == 0x1680 || (0x2000 <= u
        && u <= 0x200a) || u == 0x2028 || u == 0x2029 || u == 0x202f || u == 0x205f || u == 0x3000
}

proof fn lemma_trim_start_skip(s: Seq<char>, i: int)
    requires
        0 <= i <= s.len(),
        forall|k: int| 0 <= k < i ==> is_space(#[trigger] s[k]),
    ensures
        trim_start(s) == trim_start(s.subrange(i, s.len() as int)),
    decreases i,
{
    if i > 0 {
        assert(s.drop_first().subrange(i - 1, s.drop_first().len() as int) =~= s.subrange(
            i,
            s.len() as int,
        ));
        assert forall|k: int| 0 <= k < i - 1 implies is_space(#[trigger] s.drop_first()[k]) by {
            assert(s.drop_first()[k] == s[k + 1]);
        }
        lemma_trim_start_skip(s.drop_first(), i - 1);
    } else {
        assert(s.subrange(0, s.len() as int) =~= s);
    }
}

proof fn lemma_trim_end_skip(s: Seq<char>, j: int)
    requires
        0 <= j <= s.len(),
        forall|k: int| j <= k < s.len() ==> is_space(#[trigger] s[k]),
    ensures
        trim_end(s) == trim_end(s.subrange(0, j)),
    decreases s.len() - j,
{
    if j < s.len() {
        assert(s.drop_last().subrange(0, j) =~= s.subrange(0, j));
        lemma_trim_end_skip(s.drop_last(), j);
    } else {
        assert(s.subrange(0, j) =~= s);
    }
}

/// The bounds, in characters, of `s` without its white space at either end.
fn trimmed_bounds(s: &str) -> (r: (usize, usize))
    ensures
        r.0 <= r.1 <= s@.len(),
        s@.subrange(r.0 as int, r.1 as int) == trim(s@),
{
    let n = s.unicode_len();
    let mut a: usize = 0;
    while a < n && is_space_char(s.get_char(a))
        invariant
            n == s@.len(),
            a <= n,
            forall|k: int| 0 <= k < a ==> is_space(#[trigger] s@[k]),
        decreases n - a,
    {
        a = a + 1;
    }
    proof {
        lemma_trim_start_skip(s@, a as int);
    }
    let ghost rest = s@.subrange(a as int, n as int);
    assert(trim_start(rest) == rest);
    let mut b: usize = n;
    while b > a && is_space_char(s.get_char(b - 1))
        invariant
            n == s@.len(),
            a <= b <= n,
            forall|k: int| b <= k < n ==> is_space(#[trigger] s@[k]),
        decreases b - a,
    {
        b = b - 1;
    }
    proof {
        assert forall|k: int| b - a <= k < rest.len() implies is_space(#[trigger] rest[k]) by {
            assert(rest[k] == s@[k + a]);
        }
        lemma_trim_end_skip(rest, b - a);
        let head = rest.subrange(0, b - a);
        assert(head =~= s@.subrange(a as int, b as int));
        if head.len() > 0 {
            assert(head.last() == s@[b - 1]);
        }
    }
    (a, b)
}

/// Whether the power-source file's `content` says that the machine runs on
/// battery.
pub fn is_battery_indicator(content: &str) -> (r: bool)
    ensures
        r == on_battery(content@),
{
    let (a, b) = trimmed_bounds(content);
    if b - a != 1 {
        assert(seq!['0'].len() == 1);
        return false;
    }
    let c = content.get_char(a);
    assert(trim(content@).len() == 1 && trim(content@)[0] == c);
    if c == '0' {
        assert(trim(content@) =~= seq!['0']);
        true
    } else {
        false
    }
}

proof fn lemma_digits_prefix(s: Seq<char>, n: int)
    requires
        all_digits(s),
        0 <= n <= s.len(),
    ensures
        0 <= digits_value(s.subrange(0, n)) <= digits_value(s),
    decreases s.len(),
{
    if n == s.len() {
        assert(s.subrange(0, n) =~= s);
        if s.len() > 0 {
            lemma_digits_prefix(s.drop_last(), n - 1);
            assert(s.drop_last().subrange(0, n - 1) =~= s.drop_last());
        }
    } else {
        let init = s.drop_last();
        assert(is_digit(s[s.len() - 1]));
        lemma_digits_prefix(init, n);
        lemma_digits_prefix(init, init.len() as int);
        assert(init.subrange(0, n) =~= s.subrange(0, n));
        assert(init.subrange(0, init.len() as int) =~= init);
    }
}

/// The raw reading, in millidegrees, of a sensor file holding `content`:
/// an integer with white space around it. `None` where it holds none, or
/// one that does not fit an `i32`.
pub fn parse_millidegrees(content: &str) -> (r: Option<i32>)
    ensures
        r == millidegrees_of(content@),
{
    let (a, b) = trimmed_bounds(content);
    let ghost t = content@.subrange(a as int, b as int);
    if a == b {
        return None;
    }
    let first = content.get_char(a);
    let neg = first == '-';
    let ds: usize = if first == '-' || first == '+' {
        a + 1
    } else {
        a
    };
    let ghost digits = content@.subrange(ds as int, b as int);
    assert(digits =~= if t[0] == '-' || t[0] == '+' {
        t.drop_first()
    } else {
        t
    });
    if ds == b {
        return None;
    }
    let mut acc: i64 = 0;
    let mut i: usize = ds;
    assert(content@.subrange(ds as int, ds as int) =~= Seq::<char>::empty());
    while i < b
        invariant
            a <= ds < b <= content@.len(),
            ds <= i <= b,
            digits == content@.subrange(ds as int, b as int),
            t == trim(content@),
            t.len() > 0,
            neg == (t[0] == '-'),
            digits == if t[0] == '-' || t[0] == '+' {
                t.drop_first()
            } else {
                t
            },
            acc == digits_value(content@.subrange(ds as int, i as int)),
            all_digits(content@.subrange(ds as int, i as int)),
            0 <= acc <= 2147483648,
        decreases b - i,
    {
        let c = content.get_char(i);
        let u = c as u32;
        if u < 48 || u > 57 {
            assert(digits[i - ds] == c);
            return None;
        }
        let ghost before = content@.subrange(ds as int, i as int);
        let ghost after = content@.subrange(ds as int, i + 1);
        assert(after.drop_last() =~= before);
        assert(after.last() == c);
        acc = acc * 10 + (u - 48) as i64;
        i = i + 1;
        assert forall|k: int| 0 <= k < after.len() implies is_digit(#[trigger] after[k]) by {
            if k < before.len() {
                assert(after[k] == before[k]);
            }
        }
        if acc > 2147483648 {
            proof {
                if all_digits(digits) {
                    lemma_digits_prefix(digits, i - ds);
                    assert(digits.subrange(0, i - ds) =~= after);
                }
            }
            return None;
        }
    }
    if neg {
        Some((-acc) as i32)
    } else if acc > 2147483647 {
        None
    } else {
        Some(acc as i32)
    }
}

} // verus!
