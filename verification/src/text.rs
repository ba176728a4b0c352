//! Decimal parsing and formatting over character sequences, and splitting on
//! `/`: the textual ground the parsers and renderers of the crate stand on.

use vstd::prelude::*;

verus! {

/// A decimal digit character.
pub open spec fn is_digit(c: char) -> bool {
    48 <= c as u32 <= 57
}

/// The numeric value of a decimal digit character.
pub open spec fn digit_val(c: char) -> int {
    c as u32 - 48
}

/// Every character of `s` is a decimal digit.
pub open spec fn all_digits(s: Seq<char>) -> bool {
    forall|i: int| 0 <= i < s.len() ==> is_digit(#[trigger] s[i])
}

/// The value of a digit string, most significant digit first.
pub open spec fn digits_val(s: Seq<char>) -> int
    decreases s.len(),
{
    if s.len() == 0 {
        0
    } else {
        digits_val(s.drop_last()) * 10 + digit_val(s.last())
    }
}

pub proof fn lemma_digits_val_nonneg(s: Seq<char>)
    requires
        all_digits(s),
    ensures
        digits_val(s) >= 0,
    decreases s.len(),
{
    if s.len() > 0 {
        assert(all_digits(s.drop_last()));
        lemma_digits_val_nonneg(s.drop_last());
    }
}

/// Extending a digit string to the right never lowers its value.
pub proof fn lemma_digits_val_take_le(s: Seq<char>, a: int, b: int)
    requires
        all_digits(s),
        0 <= a <= b <= s.len(),
    ensures
        digits_val(s.take(a)) <= digits_val(s.take(b)),
    decreases b - a,
{
    if a < b {
        lemma_digits_val_take_le(s, a, b - 1);
        let t = s.take(b);
        assert(t.drop_last() =~= s.take(b - 1));
        assert(all_digits(s.take(b - 1)));
        lemma_digits_val_nonneg(s.take(b - 1));
        assert(digits_val(s.take(b)) == digits_val(s.take(b - 1)) * 10 + digit_val(s[b - 1]));
        assert(digit_val(s[b - 1]) >= 0);
        assert(digits_val(s.take(b - 1)) * 10 >= digits_val(s.take(b - 1))) by (nonlinear_arith)
            requires
                digits_val(s.take(b - 1)) >= 0,
        ;
    }
}

/// Parse an unsigned decimal number. Succeeds exactly on non-empty strings of
/// digits whose value fits in `u32`.
pub fn parse_u32(s: &str) -> (r: Option<u32>)
    ensures
        r is Some <==> (s@.len() > 0 && all_digits(s@) && digits_val(s@) <= u32::MAX as int),
        r matches Some(v) ==> v as int == digits_val(s@),
{
    let n = s.unicode_len();
    if n == 0 {
        return None;
    }
    let mut acc: u32 = 0;
    let mut i: usize = 0;
    while i < n
        invariant
            0 <= i <= n,
            n == s@.len(),
            all_digits(s@.take(i as int)),
            acc as int == digits_val(s@.take(i as int)),
        decreases n - i,
    {
        let c = s.get_char(i);
        let u = c as u32;
        if u < 48 || u > 57 {
            assert(!is_digit(s@[i as int]));
            return None;
        }
        let d = u - 48;
        let wide: u64 = acc as u64 * 10 + d as u64;
        proof {
            assert(s@.take(i + 1).drop_last() =~= s@.take(i as int));
            assert(s@.take(i + 1).last() == s@[i as int]);
            assert(digits_val(s@.take(i + 1)) == acc as int * 10 + d as int);
        }
        if wide > u32::MAX as u64 {
            proof {
                if all_digits(s@) && digits_val(s@) <= u32::MAX as int {
                    lemma_digits_val_take_le(s@, i + 1, n as int);
                    assert(s@.take(n as int) =~= s@);
                    assert(false);
                }
            }
            return None;
        }
        acc = wide as u32;
        i = i + 1;
    }
    proof {
        assert(s@.take(n as int) =~= s@);
    }
    Some(acc)
}

/// The value parsed from an unsigned decimal string, when it is well formed
/// and fits in `u32`.
pub open spec fn spec_parse_u32(s: Seq<char>) -> Option<int> {
    if s.len() > 0 && all_digits(s) && digits_val(s) <= u32::MAX as int {
        Some(digits_val(s))
    } else {
        None
    }
}

/// The value parsed from an optionally `-`-signed decimal string, when it is
/// well formed and fits in `i32`.
pub open spec fn spec_parse_i32(s: Seq<char>) -> Option<int> {
    if s.len() >= 1 && s[0] == '-' {
        let t = s.skip(1);
        if t.len() > 0 && all_digits(t) && -digits_val(t) >= i32::MIN as int {
            Some(-digits_val(t))
        } else {
            None
        }
    } else {
        if s.len() > 0 && all_digits(s) && digits_val(s) <= i32::MAX as int {
            Some(digits_val(s))
        } else {
            None
        }
    }
}

/// Parse a signed decimal number: digits with an optional leading `-`.
pub fn parse_i32(s: &str) -> (r: Option<i32>)
    ensures
        r is Some <==> spec_parse_i32(s@) is Some,
        r matches Some(v) ==> Some(v as int) == spec_parse_i32(s@),
{
    let n = s.unicode_len();
    if n >= 1 && s.get_char(0) == '-' {
        let t = s.substring_char(1, n);
        assert(t@ =~= s@.skip(1));
        match parse_u32(t) {
            Some(m) => {
                proof {
                    lemma_digits_val_nonneg(t@);
                }
                if m <= 0x8000_0000 {
                    Some((-(m as i64)) as i32)
                } else {
                    None
                }
            },
            None => None,
        }
    } else {
        match parse_u32(s) {
            Some(m) => {
                proof {
                    lemma_digits_val_nonneg(s@);
                }
                if m <= i32::MAX as u32 {
                    Some(m as i32)
                } else {
                    None
                }
            },
            None => None,
        }
    }
}

/// The digit character for a value below ten.
pub open spec fn digit_char(d: int) -> char {
    if d == 0 {
        '0'
    } else if d == 1 {
        '1'
    } else if d == 2 {
        '2'
    } else if d == 3 {
        '3'
    } else if d == 4 {
        '4'
    } else if d == 5 {
        '5'
    } else if d == 6 {
        '6'
    } else if d == 7 {
        '7'
    } else if d == 8 {
        '8'
    } else {
        '9'
    }
}

/// The canonical decimal rendering of a non-negative value: no sign, no
/// leading zeros (a lone zero for 0).
pub open spec fn spec_u64_digits(n: int) -> Seq<char>
    decreases n,
{
    if n < 0 {
        Seq::empty()
    } else if n < 10 {
        seq![digit_char(n)]
    } else {
        spec_u64_digits(n / 10).push(digit_char(n % 10))
    }
}

/// The canonical rendering of a signed value: `-` before the magnitude when
/// negative.
pub open spec fn spec_i32_text(v: int) -> Seq<char> {
    if v < 0 {
        seq!['-'] + spec_u64_digits(-v)
    } else {
        spec_u64_digits(v)
    }
}

fn digit_str(d: u64) -> (r: &'static str)
    requires
        d < 10,
    ensures
        r@ =~= seq![digit_char(d as int)],
{
    proof {
        reveal_strlit("0");
        reveal_strlit("1");
        reveal_strlit("2");
        reveal_strlit("3");
        reveal_strlit("4");
        reveal_strlit("5");
        reveal_strlit("6");
        reveal_strlit("7");
        reveal_strlit("8");
        reveal_strlit("9");
    }
    if d == 0 {
        "0"
    } else if d == 1 {
        "1"
    } else if d == 2 {
        "2"
    } else if d == 3 {
        "3"
    } else if d == 4 {
        "4"
    } else if d == 5 {
        "5"
    } else if d == 6 {
        "6"
    } else if d == 7 {
        "7"
    } else if d == 8 {
        "8"
    } else {
        "9"
    }
}

/// Append the decimal rendering of `n` to `out`.
pub fn append_u64(out: &mut String, n: u64)
    ensures
        final (out)@ == old(out)@ + spec_u64_digits(n as int),
    decreases n,
{
    if n >= 10 {
        append_u64(out, n / 10);
        let ds = digit_str(n % 10);
        out.append(ds);
        proof {
            assert(final (out)@ =~= old(out)@ + spec_u64_digits(n as int));
        }
    } else {
        let ds = digit_str(n);
        out.append(ds);
        proof {
            assert(final (out)@ =~= old(out)@ + spec_u64_digits(n as int));
        }
    }
}

/// Append the decimal rendering of a signed value to `out`.
pub fn append_i32(out: &mut String, v: i32)
    ensures
        final (out)@ == old(out)@ + spec_i32_text(v as int),
{
    if v < 0 {
        out.append("-");
        let m: u64 = (-(v as i64)) as u64;
        append_u64(out, m);
        proof {
            reveal_strlit("-");
            assert(final (out)@ =~= old(out)@ + spec_i32_text(v as int));
        }
    } else {
        append_u64(out, v as u64);
    }
}

/// A canonical rendering consists of digits and parses back to its value.
pub proof fn lemma_u64_digits_val(n: int)
    requires
        n >= 0,
    ensures
        all_digits(spec_u64_digits(n)),
        digits_val(spec_u64_digits(n)) == n,
        spec_u64_digits(n).len() >= 1,
    decreases n,
{
    if n < 10 {
        let s = spec_u64_digits(n);
        assert(s.drop_last() =~= Seq::<char>::empty());
        assert(digit_val(digit_char(n)) == n);
        assert(digits_val(s) == digits_val(s.drop_last()) * 10 + digit_val(s.last()));
    } else {
        lemma_u64_digits_val(n / 10);
        let p = spec_u64_digits(n / 10);
        let s = spec_u64_digits(n);
        assert(s =~= p.push(digit_char(n % 10)));
        assert(s.drop_last() =~= p);
        assert(digits_val(s) == digits_val(p) * 10 + digit_val(digit_char(n % 10)));
        assert(0 <= n % 10 < 10);
        assert(digit_val(digit_char(n % 10)) == n % 10);
        assert((n / 10) * 10 + n % 10 == n) by (nonlinear_arith)
            requires
                n >= 10,
        ;
        assert(forall|i: int|
            0 <= i < s.len() ==> is_digit(#[trigger] s[i]) == if i < p.len() {
                is_digit(p[i])
            } else {
                is_digit(digit_char(n % 10))
            });
    }
}

/// Splitting a sequence on `/`: every maximal run between separators becomes a
/// segment, empty segments included.
pub open spec fn spec_split_slash(s: Seq<char>) -> Seq<Seq<char>>
    decreases s.len(),
{
    if s.len() == 0 {
        seq![Seq::<char>::empty()]
    } else if s[0] == '/' {
        seq![Seq::<char>::empty()] + spec_split_slash(s.skip(1))
    } else {
        let rest = spec_split_slash(s.skip(1));
        seq![seq![s[0]] + rest[0]] + rest.skip(1)
    }
}

pub proof fn lemma_split_slash_len(s: Seq<char>)
    ensures
        spec_split_slash(s).len() >= 1,
    decreases s.len(),
{
    if s.len() > 0 {
        lemma_split_slash_len(s.skip(1));
    }
}

/// Without a separator the whole string is the single segment.
pub proof fn lemma_split_slash_none(s: Seq<char>)
    requires
        forall|i: int| 0 <= i < s.len() ==> s[i] != '/',
    ensures
        spec_split_slash(s) =~~= seq![s],
    decreases s.len(),
{
    if s.len() == 0 {
        assert(spec_split_slash(s) =~~= seq![s]);
    } else {
        lemma_split_slash_none(s.skip(1));
        assert(seq![s[0]] + s.skip(1) =~= s);
    }
}

/// With a first separator at `i`, the split is the head segment before `i`
/// followed by the split of the remainder.
pub proof fn lemma_split_slash_at(s: Seq<char>, i: int)
    requires
        0 <= i < s.len(),
        s[i] == '/',
        forall|j: int| 0 <= j < i ==> s[j] != '/',
    ensures
        spec_split_slash(s) =~~= seq![s.take(i)] + spec_split_slash(s.skip(i + 1)),
    decreases i,
{
    if i == 0 {
        assert(s.take(0) =~= Seq::<char>::empty());
    } else {
        let t = s.skip(1);
        lemma_split_slash_at(t, i - 1);
        lemma_split_slash_len(t.skip(i));
        assert(t.skip(i) =~= s.skip(i + 1));
        assert(t.take(i - 1) =~= s.take(i).skip(1));
        assert(seq![s[0]] + s.take(i).skip(1) =~= s.take(i));
    }
}

/// Find the first `/` at or after position `from`.
fn find_slash(s: &str, from: usize) -> (r: Option<usize>)
    requires
        from <= s@.len(),
    ensures
        r matches Some(i) ==> from <= i < s@.len() && s@[i as int] == '/' && forall|j: int|
            from <= j < i ==> s@[j] != '/',
        r is None ==> forall|j: int| from <= j < s@.len() ==> s@[j] != '/',
{
    let n = s.unicode_len();
    let mut i: usize = from;
    while i < n
        invariant
            from <= i <= n,
            n == s@.len(),
            forall|j: int| from <= j < i ==> s@[j] != '/',
        decreases n - i,
    {
        if s.get_char(i) == '/' {
            return Some(i);
        }
        i = i + 1;
    }
    None
}

/// Split a string into the segments between its `/` separators.
pub fn split_slash(s: &str) -> (r: Vec<String>)
    ensures
        r.deep_view() =~~= spec_split_slash(s@),
        r.len() >= 1,
    decreases s@.len(),
{
    let n = s.unicode_len();
    match find_slash(s, 0) {
        None => {
            let mut r: Vec<String> = Vec::new();
            r.push(String::from_str(s));
            proof {
                lemma_split_slash_none(s@);
                assert(r.deep_view() =~~= seq![s@]);
            }
            r
        },
        Some(i) => {
            let head = s.substring_char(0, i);
            let tail = s.substring_char(i + 1, n);
            assert(tail@ =~= s@.skip(i + 1));
            let rest = split_slash(tail);
            let mut r: Vec<String> = Vec::new();
            r.push(String::from_str(head));
            let mut k: usize = 0;
            let m = rest.len();
            while k < m
                invariant
                    0 <= k <= m,
                    m == rest.len(),
                    r.len() == k + 1,
                    r.deep_view() =~~= seq![head@] + rest.deep_view().take(k as int),
                decreases m - k,
            {
                let piece = rest[k].clone();
                let ghost prev = r@;
                r.push(piece);
                proof {
                    assert(r@ =~= prev.push(piece));
                    assert(r.deep_view()[k + 1] == piece@);
                    assert(piece@ == rest.deep_view()[k as int]);
                    assert forall|j: int| 0 <= j <= k implies r.deep_view()[j] == (seq![head@]
                        + rest.deep_view().take(k as int))[j] by {
                        assert(r@[j] == prev[j]);
                    }
                    assert(r.deep_view() =~~= seq![head@] + rest.deep_view().take(k + 1));
                }
                k = k + 1;
            }
            proof {
                lemma_split_slash_at(s@, i as int);
                assert(rest.deep_view().take(m as int) =~~= rest.deep_view());
                assert(head@ =~= s@.take(i as int));
                assert(r.deep_view() =~~= spec_split_slash(s@));
                lemma_split_slash_len(s@);
            }
            r
        },
    }
}

/// Character-for-character string equality.
pub fn str_eq(a: &str, b: &str) -> (r: bool)
    ensures
        r == (a@ == b@),
{
    let na = a.unicode_len();
    let nb = b.unicode_len();
    if na != nb {
        return false;
    }
    let mut i: usize = 0;
    while i < na
        invariant
            0 <= i <= na,
            na == a@.len(),
            na == b@.len(),
            forall|j: int| 0 <= j < i ==> a@[j] == b@[j],
        decreases na - i,
    {
        if a.get_char(i) != b.get_char(i) {
            return false;
        }
        i = i + 1;
    }
    proof {
        assert(a@ =~= b@);
    }
    true
}

} // verus!
