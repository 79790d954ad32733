use vstd::prelude::*;
use vstd::string::*;

verus! {

/// Textual number classification for column type inference.
///
/// A cell is *integer text* when it matches `-?[0-9]+`; it is *decimal text*
/// when it matches `-?[0-9]+(\.[0-9]+)?`. A column whose cells are all integer
/// text fitting a 64-bit signed value is typed as integer; one whose cells are
/// all decimal text is typed as floating point; any other column falls back to
/// plain text.
pub open spec fn is_digit(c: char) -> bool {
    '0' <= c && c <= '9'
}

pub open spec fn digit_val(c: char) -> int
    recommends
        is_digit(c),
{
    c as u32 - '0' as u32
}

pub open spec fn all_digits(s: Seq<char>) -> bool {
    forall|i: int| 0 <= i < s.len() ==> is_digit(#[trigger] s[i])
}

/// The value of a nonempty digit string, most significant digit first.
pub open spec fn digits_val(s: Seq<char>) -> int
    decreases s.len(),
{
    if s.len() == 0 {
        0
    } else {
        digits_val(s.drop_last()) * 10 + digit_val(s.last())
    }
}

/// `-?[0-9]+`
pub open spec fn is_int_text(s: Seq<char>) -> bool {
    if s.len() > 0 && s[0] == '-' {
        s.len() >= 2 && all_digits(s.skip(1))
    } else {
        s.len() >= 1 && all_digits(s)
    }
}

pub open spec fn int_text_val(s: Seq<char>) -> int
    recommends
        is_int_text(s),
{
    if s.len() > 0 && s[0] == '-' {
        -digits_val(s.skip(1))
    } else {
        digits_val(s)
    }
}

/// Integer text whose value fits a 64-bit signed integer.
pub open spec fn is_i64_text(s: Seq<char>) -> bool {
    is_int_text(s) && i64::MIN <= int_text_val(s) <= i64::MAX
}

/// The index of the first non-digit at or after `i`, or the length when the
/// rest of the string is all digits.
pub open spec fn first_non_digit(s: Seq<char>, i: int) -> int
    recommends
        0 <= i <= s.len(),
    decreases s.len() - i,
{
    if i < 0 || i >= s.len() {
        s.len() as int
    } else if !is_digit(s[i]) {
        i
    } else {
        first_non_digit(s, i + 1)
    }
}

pub open spec fn strip_sign(s: Seq<char>) -> Seq<char> {
    if s.len() > 0 && s[0] == '-' {
        s.skip(1)
    } else {
        s
    }
}

/// `-?[0-9]+(\.[0-9]+)?`
pub open spec fn is_decimal_text(s: Seq<char>) -> bool {
    let b = strip_sign(s);
    let k = first_non_digit(b, 0);
    if k == b.len() {
        b.len() >= 1
    } else {
        k >= 1 && b[k] == '.' && k + 1 < b.len() && first_non_digit(b, k + 1) == b.len()
    }
}

pub proof fn lemma_digits_val_nonneg(s: Seq<char>)
    requires
        all_digits(s),
    ensures
        digits_val(s) >= 0,
    decreases s.len(),
{
    if s.len() > 0 {
        assert(all_digits(s.drop_last()));
        lemma_digits_val_nonneg(s.drop_last());
    }
}

/// Appending digits never shrinks the value of a digit string.
pub proof fn lemma_digits_val_take_le(s: Seq<char>, m: int)
    requires
        all_digits(s),
        0 <= m <= s.len(),
    ensures
        digits_val(s.take(m)) <= digits_val(s),
    decreases s.len() - m,
{
    if m < s.len() {
        lemma_digits_val_take_le(s, m + 1);
        let t = s.take(m + 1);
        assert(t.drop_last() =~= s.take(m));
        assert(all_digits(s.take(m)));
        lemma_digits_val_nonneg(s.take(m));
        assert(digits_val(t) == digits_val(s.take(m)) * 10 + digit_val(s[m]));
    } else {
        assert(s.take(m) =~= s);
    }
}

pub proof fn lemma_first_non_digit_range(s: Seq<char>, i: int)
    requires
        0 <= i <= s.len(),
    ensures
        i <= first_non_digit(s, i) <= s.len(),
        forall|j: int| i <= j < first_non_digit(s, i) ==> is_digit(#[trigger] s[j]),
        first_non_digit(s, i) < s.len() ==> !is_digit(s[first_non_digit(s, i)]),
    decreases s.len() - i,
{
    if i < s.len() && is_digit(s[i]) {
        lemma_first_non_digit_range(s, i + 1);
    }
}

/// Scans for the first non-digit character at or after `from`.
fn scan_digits(s: &str, from: usize, n: usize) -> (r: usize)
    requires
        from <= n,
        n == s@.len(),
    ensures
        r == first_non_digit(s@, from as int),
{
    proof {
        lemma_first_non_digit_range(s@, from as int);
    }
    let mut i: usize = from;
    while i < n
        invariant
            from <= i <= n,
            n == s@.len(),
            first_non_digit(s@, from as int) == first_non_digit(s@, i as int),
        ensures
            i == first_non_digit(s@, from as int),
        decreases n - i,
    {
        let c = s.get_char(i);
        if !('0' <= c && c <= '9') {
            break ;
        }
        i = i + 1;
    }
    i
}

/// Decides whether `s` is decimal text: an optional minus sign, digits, and
/// an optional fractional part with at least one digit.
pub fn is_decimal_lexeme(s: &str) -> (r: bool)
    ensures
        r == is_decimal_text(s@),
{
    let n = s.unicode_len();
    let start: usize = if n > 0 && s.get_char(0) == '-' {
        1
    } else {
        0
    };
    let ghost b = strip_sign(s@);
    proof {
        assert(b =~= s@.skip(start as int));
        lemma_first_non_digit_shift(s@, start as int, 0);
        lemma_first_non_digit_range(s@, start as int);
    }
    let k = scan_digits(s, start, n);
    if k == n {
        n > start
    } else if k == start {
        false
    } else if s.get_char(k) != '.' {
        false
    } else if k + 1 >= n {
        false
    } else {
        proof {
            lemma_first_non_digit_shift(s@, start as int, (k + 1 - start) as int);
        }
        let e = scan_digits(s, k + 1, n);
        e == n
    }
}

/// `first_non_digit` commutes with dropping a prefix.
proof fn lemma_first_non_digit_shift(s: Seq<char>, start: int, i: int)
    requires
        0 <= start <= s.len(),
        0 <= i <= s.len() - start,
    ensures
        first_non_digit(s.skip(start), i) == first_non_digit(s, start + i) - start,
    decreases s.len() - start - i,
{
    let b = s.skip(start);
    if i < b.len() {
        assert(b[i] == s[start + i]);
        if is_digit(s[start + i]) {
            lemma_first_non_digit_shift(s, start, i + 1);
        }
    }
}

/// Parses `s` as a 64-bit signed integer written as `-?[0-9]+`. Returns the
/// value exactly when `s` is integer text whose value is in range.
pub fn parse_i64(s: &str) -> (r: Option<i64>)
    ensures
        r is Some <==> is_i64_text(s@),
        r matches Some(v) ==> v as int == int_text_val(s@),
{
    let n = s.unicode_len();
    if n == 0 {
        return None;
    }
    let neg = s.get_char(0) == '-';
    let start: usize = if neg {
        1
    } else {
        0
    };
    if n == start {
        // just a minus sign
        return None;
    }
    let ghost body = strip_sign(s@);
    proof {
        assert(body =~= s@.skip(start as int));
    }
    let limit: u64 = if neg {
        9_223_372_036_854_775_808
    } else {
        9_223_372_036_854_775_807
    };
    let mut acc: u64 = 0;
    let mut i: usize = start;
    while i < n
        invariant
            start <= i <= n,
            n == s@.len(),
            start == 1 ==> s@[0] == '-',
            start == 0 ==> n > 0 && s@[0] != '-',
            neg == (start == 1),
            limit == if neg {
                9_223_372_036_854_775_808u64
            } else {
                9_223_372_036_854_775_807u64
            },
            body == strip_sign(s@),
            body =~= s@.skip(start as int),
            n - start == body.len(),
            forall|j: int| 0 <= j < i - start ==> is_digit(#[trigger] body[j]),
            acc as int == digits_val(body.take(i - start)),
            acc <= limit,
        decreases n - i,
    {
        let c = s.get_char(i);
        if !('0' <= c && c <= '9') {
            proof {
                assert(body[i - start] == c);
                assert(!all_digits(body));
                assert(!is_int_text(s@));
            }
            return None;
        }
        let d: u64 = (c as u32 - 48) as u64;
        let wide: u128 = acc as u128 * 10 + d as u128;
        proof {
            assert(body.take(i + 1 - start).drop_last() =~= body.take(i - start));
            assert(body.take(i + 1 - start).last() == body[i - start]);
            assert(digit_val(body[i - start]) == d);
        }
        if wide > limit as u128 {
            proof {
                lemma_prefix_too_big(s@, body, start as int, (i + 1 - start) as int, limit as int);
            }
            return None;
        }
        acc = wide as u64;
        i = i + 1;
    }
    proof {
        assert(body.take(n - start) =~= body);
        assert(is_int_text(s@));
        if neg {
            assert(int_text_val(s@) == -digits_val(body));
        } else {
            assert(int_text_val(s@) == digits_val(body));
        }
    }
    if neg {
        let v: i64 = (-(acc as i128)) as i64;
        Some(v)
    } else {
        Some(acc as i64)
    }
}

/// Once a digit prefix exceeds the magnitude limit, the whole lexeme cannot be
/// integer text in range.
proof fn lemma_prefix_too_big(s: Seq<char>, body: Seq<char>, start: int, m: int, limit: int)
    requires
        0 <= start <= s.len(),
        body == strip_sign(s),
        body =~= s.skip(start),
        start == 1 ==> s[0] == '-',
        start == 0 ==> s.len() > 0 && s[0] != '-',
        0 <= m <= body.len(),
        all_digits(body.take(m)),
        digits_val(body.take(m)) > limit,
        limit >= if start == 1 {
            0x8000_0000_0000_0000int
        } else {
            0x7fff_ffff_ffff_ffffint
        },
    ensures
        !is_i64_text(s),
{
    if is_int_text(s) {
        assert(all_digits(body));
        lemma_digits_val_take_le(body, m);
        assert(digits_val(body) > limit);
        if start == 1 {
            assert(int_text_val(s) == -digits_val(body));
            assert(int_text_val(s) < i64::MIN);
        } else {
            assert(int_text_val(s) == digits_val(body));
            assert(int_text_val(s) > i64::MAX);
        }
    }
}

pub open spec fn digit_char(d: int) -> char
    recommends
        0 <= d <= 9,
{
    if d == 0 {
        '0'
    } else if d == 1 {
        '1'
    } else if d == 2 {
        '2'
    } else if d == 3 {
        '3'
    } else if d == 4 {
        '4'
    } else if d == 5 {
        '5'
    } else if d == 6 {
        '6'
    } else if d == 7 {
        '7'
    } else if d == 8 {
        '8'
    } else {
        '9'
    }
}

/// The decimal rendering of `n`, most significant digit first, no sign and no
/// leading zero except for zero itself.
pub open spec fn dec_digits(n: nat) -> Seq<char>
    decreases n,
{
    if n < 10 {
        seq![digit_char(n as int)]
    } else {
        dec_digits(n / 10).push(digit_char((n % 10) as int))
    }
}

/// One decimal digit as a string slice.
fn digit_str(d: usize) -> (s: &'static str)
    requires
        d < 10,
    ensures
        s@ == seq![digit_char(d as int)],
{
    proof {
        reveal_strlit("0");
        reveal_strlit("1");
        reveal_strlit("2");
        reveal_strlit("3");
        reveal_strlit("4");
        reveal_strlit("5");
        reveal_strlit("6");
        reveal_strlit("7");
        reveal_strlit("8");
        reveal_strlit("9");
    }
    match d {
        0 => "0",
        1 => "1",
        2 => "2",
        3 => "3",
        4 => "4",
        5 => "5",
        6 => "6",
        7 => "7",
        8 => "8",
        _ => "9",
    }
}

/// Renders `n` in decimal.
pub fn render_usize(n: usize) -> (s: String)
    ensures
        s@ == dec_digits(n as nat),
    decreases n,
{
    if n < 10 {
        String::from_str(digit_str(n))
    } else {
        let mut s = render_usize(n / 10);
        s.append(digit_str(n % 10));
        proof {
            assert(dec_digits((n / 10) as nat).push(digit_char((n % 10) as int)) =~= dec_digits(
                (n / 10) as nat,
            ) + seq![digit_char((n % 10) as int)]);
        }
        s
    }
}

} // verus!
