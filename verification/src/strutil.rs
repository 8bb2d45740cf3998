//! Character-sequence specifications and verified helpers used by the
//! cookie parser and the store's matching rules: whitespace trimming,
//! character search, case folding and decimal parsing.
use vstd::prelude::*;

verus! {

/// Whitespace that is trimmed around cookie names, values and attributes.
pub open spec fn is_ws(c: char) -> bool {
    c == ' ' || c == '\t'
}

/// ASCII case folding of one character.
pub open spec fn lower_char_spec(c: char) -> char {
    if 'A' <= c && c <= 'Z' {
        ((c as u32) + 32) as char
    } else {
        c
    }
}

/// ASCII case folding of a character sequence.
pub open spec fn lower_seq(s: Seq<char>) -> Seq<char> {
    Seq::new(s.len(), |i: int| lower_char_spec(s[i]))
}

/// Case-insensitive equality of two character sequences.
pub open spec fn eq_ci(a: Seq<char>, b: Seq<char>) -> bool {
    lower_seq(a) == lower_seq(b)
}

pub open spec fn trim_start_spec(s: Seq<char>) -> Seq<char>
    decreases s.len(),
{
    if s.len() > 0 && is_ws(s[0]) {
        trim_start_spec(s.drop_first())
    } else {
        s
    }
}

pub open spec fn trim_end_spec(s: Seq<char>) -> Seq<char>
    decreases s.len(),
{
    if s.len() > 0 && is_ws(s.last()) {
        trim_end_spec(s.drop_last())
    } else {
        s
    }
}

/// The sequence with leading and trailing whitespace removed.
pub open spec fn trim_spec(s: Seq<char>) -> Seq<char> {
    trim_end_spec(trim_start_spec(s))
}

/// Index of the first occurrence of `c` in `s` at or after `from`.
pub open spec fn find_from_spec(s: Seq<char>, c: char, from: int) -> Option<int>
    decreases s.len() - from,
{
    if from < 0 || from >= s.len() {
        None
    } else if s[from] == c {
        Some(from)
    } else {
        find_from_spec(s, c, from + 1)
    }
}

pub proof fn lemma_find_from_spec(s: Seq<char>, c: char, from: int)
    requires
        0 <= from <= s.len(),
    ensures
        match find_from_spec(s, c, from) {
            Some(j) => from <= j < s.len() && s[j] == c && forall|k: int|
                from <= k < j ==> s[k] != c,
            None => forall|k: int| from <= k < s.len() ==> s[k] != c,
        },
    decreases s.len() - from,
{
    if from < s.len() && s[from] != c {
        lemma_find_from_spec(s, c, from + 1);
    }
}

/// `p` is a prefix of `q`.
pub open spec fn is_prefix_spec(p: Seq<char>, q: Seq<char>) -> bool {
    p.len() <= q.len() && q.subrange(0, p.len() as int) == p
}

/// Index of the last occurrence of `c` in `s`.
pub open spec fn last_index_of_spec(s: Seq<char>, c: char) -> Option<int>
    decreases s.len(),
{
    if s.len() == 0 {
        None
    } else if s.last() == c {
        Some(s.len() - 1)
    } else {
        last_index_of_spec(s.drop_last(), c)
    }
}

pub proof fn lemma_last_index_of_spec(s: Seq<char>, c: char)
    ensures
        match last_index_of_spec(s, c) {
            Some(j) => 0 <= j < s.len() && s[j] == c && forall|k: int|
                j < k < s.len() ==> s[k] != c,
            None => forall|k: int| 0 <= k < s.len() ==> s[k] != c,
        },
    decreases s.len(),
{
    if s.len() > 0 && s.last() != c {
        lemma_last_index_of_spec(s.drop_last(), c);
        assert(forall|k: int| 0 <= k < s.len() - 1 ==> s[k] == s.drop_last()[k]);
    }
}

pub open spec fn is_digit(c: char) -> bool {
    '0' <= c && c <= '9'
}

pub open spec fn all_digits(s: Seq<char>) -> bool {
    forall|i: int| 0 <= i < s.len() ==> is_digit(#[trigger] s[i])
}

/// Numeric value of a digit sequence.
pub open spec fn digits_val(s: Seq<char>) -> int
    decreases s.len(),
{
    if s.len() == 0 {
        0
    } else {
        digits_val(s.drop_last()) * 10 + (s.last() as u32 - 48)
    }
}

/// Decimal integer parsing with saturation at the `i64` magnitude bound,
/// as the store applies it to the Max-Age attribute.
pub open spec fn parse_int_spec(s: Seq<char>) -> Option<i64> {
    let neg = s.len() > 0 && s[0] == '-';
    let digits = if neg {
        s.drop_first()
    } else {
        s
    };
    if digits.len() == 0 || !all_digits(digits) {
        None
    } else {
        let m = if digits_val(digits) > i64::MAX as int {
            i64::MAX as int
        } else {
            digits_val(digits)
        };
        if neg {
            Some((-m) as i64)
        } else {
            Some(m as i64)
        }
    }
}

/// `i64` addition saturating at both bounds.
pub open spec fn sat_add_spec(a: i64, b: i64) -> i64 {
    if a + b > i64::MAX as int {
        i64::MAX
    } else if a + b < i64::MIN as int {
        i64::MIN
    } else {
        (a + b) as i64
    }
}

pub fn sat_add(a: i64, b: i64) -> (r: i64)
    ensures
        r == sat_add_spec(a, b),
{
    if b >= 0 {
        if a > i64::MAX - b {
            i64::MAX
        } else {
            a + b
        }
    } else {
        if a < i64::MIN - b {
            i64::MIN
        } else {
            a + b
        }
    }
}

/// First occurrence of `c` at or after `from`.
pub fn find_char_from(s: &str, from: usize, c: char) -> (r: Option<usize>)
    requires
        from <= s@.len(),
    ensures
        match r {
            Some(j) => find_from_spec(s@, c, from as int) == Some(j as int) && from <= j
                < s@.len(),
            None => find_from_spec(s@, c, from as int) is None,
        },
{
    let n = s.unicode_len();
    let mut i = from;
    while i < n
        invariant
            from <= i <= n,
            n == s@.len(),
            find_from_spec(s@, c, from as int) == find_from_spec(s@, c, i as int),
        decreases n - i,
    {
        if s.get_char(i) == c {
            return Some(i);
        }
        i += 1;
    }
    None
}

/// Narrows `[lo, hi)` to the subrange with surrounding whitespace dropped.
pub fn trim_range(s: &str, lo: usize, hi: usize) -> (r: (usize, usize))
    requires
        lo <= hi <= s@.len(),
    ensures
        lo <= r.0 <= r.1 <= hi,
        s@.subrange(r.0 as int, r.1 as int) == trim_spec(s@.subrange(lo as int, hi as int)),
{
    let mut a = lo;
    while a < hi
        invariant
            lo <= a <= hi <= s@.len(),
            trim_start_spec(s@.subrange(lo as int, hi as int)) == trim_start_spec(
                s@.subrange(a as int, hi as int),
            ),
        ensures
            lo <= a <= hi <= s@.len(),
            trim_start_spec(s@.subrange(lo as int, hi as int)) == trim_start_spec(
                s@.subrange(a as int, hi as int),
            ),
            a == hi || !is_ws(s@[a as int]),
        decreases hi - a,
    {
        let c = s.get_char(a);
        if !(c == ' ' || c == '\t') {
            break ;
        }
        proof {
            assert(s@.subrange(a as int, hi as int).drop_first() =~= s@.subrange(
                a + 1,
                hi as int,
            ));
        }
        a += 1;
    }
    proof {
        assert(trim_start_spec(s@.subrange(a as int, hi as int)) =~= s@.subrange(
            a as int,
            hi as int,
        ));
    }
    let mut b = hi;
    while b > a
        invariant
            lo <= a <= b <= hi <= s@.len(),
            trim_end_spec(s@.subrange(a as int, hi as int)) == trim_end_spec(
                s@.subrange(a as int, b as int),
            ),
        ensures
            lo <= a <= b <= hi <= s@.len(),
            trim_end_spec(s@.subrange(a as int, hi as int)) == trim_end_spec(
                s@.subrange(a as int, b as int),
            ),
            b == a || !is_ws(s@[b - 1]),
        decreases b,
    {
        let c = s.get_char(b - 1);
        if !(c == ' ' || c == '\t') {
            break ;
        }
        proof {
            assert(s@.subrange(a as int, b as int).drop_last() =~= s@.subrange(a as int, b - 1));
        }
        b -= 1;
    }
    proof {
        assert(trim_end_spec(s@.subrange(a as int, b as int)) =~= s@.subrange(a as int, b as int));
    }
    (a, b)
}

/// Case-insensitive comparison of `s[alo..ahi)` against `t[blo..bhi)`.
pub fn eq_fold_range(s: &str, alo: usize, ahi: usize, t: &str, blo: usize, bhi: usize) -> (r: bool)
    requires
        alo <= ahi <= s@.len(),
        blo <= bhi <= t@.len(),
    ensures
        r == eq_ci(s@.subrange(alo as int, ahi as int), t@.subrange(blo as int, bhi as int)),
{
    let ghost aseq = s@.subrange(alo as int, ahi as int);
    let ghost bseq = t@.subrange(blo as int, bhi as int);
    if ahi - alo != bhi - blo {
        proof {
            assert(lower_seq(aseq).len() != lower_seq(bseq).len());
        }
        return false;
    }
    let n = ahi - alo;
    let mut i: usize = 0;
    while i < n
        invariant
            0 <= i <= n,
            n == ahi - alo == bhi - blo,
            alo <= ahi <= s@.len(),
            blo <= bhi <= t@.len(),
            aseq == s@.subrange(alo as int, ahi as int),
            bseq == t@.subrange(blo as int, bhi as int),
            forall|k: int|
                0 <= k < i ==> lower_char_spec(aseq[k]) == lower_char_spec(bseq[k]),
        decreases n - i,
    {
        let ca = s.get_char(alo + i);
        let cb = t.get_char(blo + i);
        let xa: u32 = ca as u32;
        let xb: u32 = cb as u32;
        let fa: u32 = if 65 <= xa && xa <= 90 {
            xa + 32
        } else {
            xa
        };
        let fb: u32 = if 65 <= xb && xb <= 90 {
            xb + 32
        } else {
            xb
        };
        if fa != fb {
            proof {
                assert(aseq[i as int] == ca && bseq[i as int] == cb);
                assert(lower_char_spec(ca) as u32 == fa && lower_char_spec(cb) as u32 == fb);
                assert(lower_seq(aseq)[i as int] != lower_seq(bseq)[i as int]);
            }
            return false;
        }
        proof {
            assert(lower_char_spec(ca) as u32 == fa && lower_char_spec(cb) as u32 == fb);
            assert(lower_char_spec(aseq[i as int]) == lower_char_spec(bseq[i as int]));
        }
        i += 1;
    }
    proof {
        assert(lower_seq(aseq) =~= lower_seq(bseq));
    }
    true
}

/// Case-insensitive comparison of a subrange against a whole string.
pub fn eq_fold_lit(s: &str, lo: usize, hi: usize, lit: &str) -> (r: bool)
    requires
        lo <= hi <= s@.len(),
    ensures
        r == eq_ci(s@.subrange(lo as int, hi as int), lit@),
{
    let n = lit.unicode_len();
    let r = eq_fold_range(s, lo, hi, lit, 0, n);
    proof {
        assert(lit@.subrange(0, lit@.len() as int) =~= lit@);
    }
    r
}

/// Case-insensitive comparison of two whole strings.
pub fn eq_fold_str(a: &str, b: &str) -> (r: bool)
    ensures
        r == eq_ci(a@, b@),
{
    let an = a.unicode_len();
    let bn = b.unicode_len();
    let r = eq_fold_range(a, 0, an, b, 0, bn);
    proof {
        assert(a@.subrange(0, a@.len() as int) =~= a@);
        assert(b@.subrange(0, b@.len() as int) =~= b@);
    }
    r
}

/// Exact (case-sensitive) string equality.
pub fn str_eq(a: &str, b: &str) -> (r: bool)
    ensures
        r == (a@ == b@),
{
    let an = a.unicode_len();
    let bn = b.unicode_len();
    if an != bn {
        return false;
    }
    let mut i: usize = 0;
    while i < an
        invariant
            0 <= i <= an,
            an == a@.len() == b@.len(),
            forall|k: int| 0 <= k < i ==> a@[k] == b@[k],
        decreases an - i,
    {
        if a.get_char(i) != b.get_char(i) {
            return false;
        }
        i += 1;
    }
    proof {
        assert(a@ =~= b@);
    }
    true
}

/// Whether `p` is a prefix of `q`.
pub fn is_prefix_str(p: &str, q: &str) -> (r: bool)
    ensures
        r == is_prefix_spec(p@, q@),
{
    let pn = p.unicode_len();
    let qn = q.unicode_len();
    if pn > qn {
        return false;
    }
    let mut i: usize = 0;
    while i < pn
        invariant
            0 <= i <= pn <= qn,
            pn == p@.len(),
            qn == q@.len(),
            forall|k: int| 0 <= k < i ==> p@[k] == q@[k],
        decreases pn - i,
    {
        if p.get_char(i) != q.get_char(i) {
            proof {
                assert(q@.subrange(0, p@.len() as int)[i as int] != p@[i as int]);
            }
            return false;
        }
        i += 1;
    }
    proof {
        assert(q@.subrange(0, p@.len() as int) =~= p@);
    }
    true
}

/// Owned copy of the subrange `[lo, hi)`.
pub fn substr_owned(s: &str, lo: usize, hi: usize) -> (r: String)
    requires
        lo <= hi <= s@.len(),
    ensures
        r@ == s@.subrange(lo as int, hi as int),
{
    let sub = s.substring_char(lo, hi);
    sub.to_owned()
}

/// Parses `s[lo..hi)` as a decimal integer per `parse_int_spec`.
pub fn parse_int_range(s: &str, lo: usize, hi: usize) -> (r: Option<i64>)
    requires
        lo <= hi <= s@.len(),
    ensures
        r == parse_int_spec(s@.subrange(lo as int, hi as int)),
{
    let ghost whole = s@.subrange(lo as int, hi as int);
    let neg = lo < hi && s.get_char(lo) == '-';
    let dlo = if neg {
        lo + 1
    } else {
        lo
    };
    let ghost digits = s@.subrange(dlo as int, hi as int);
    proof {
        if neg {
            assert(whole.drop_first() =~= digits);
        } else {
            assert(whole =~= digits);
        }
    }
    if dlo == hi {
        return None;
    }
    let mut acc: i64 = 0;
    let mut sat: bool = false;
    let mut i = dlo;
    while i < hi
        invariant
            lo <= dlo <= i <= hi <= s@.len(),
            whole == s@.subrange(lo as int, hi as int),
            digits == s@.subrange(dlo as int, hi as int),
            neg == (whole.len() > 0 && whole[0] == '-'),
            digits == (if neg {
                whole.drop_first()
            } else {
                whole
            }),
            digits.len() > 0,
            all_digits(digits.subrange(0, i - dlo)),
            0 <= acc,
            !sat ==> acc == digits_val(digits.subrange(0, i - dlo)),
            sat ==> digits_val(digits.subrange(0, i - dlo)) > i64::MAX as int,
        decreases hi - i,
    {
        let c = s.get_char(i);
        if c < '0' || c > '9' {
            proof {
                assert(digits[i - dlo] == c);
                assert(!is_digit(digits[i - dlo]));
                assert(!all_digits(digits));
            }
            return None;
        }
        let d: u32 = c as u32 - 48;
        let ghost pre = digits.subrange(0, i - dlo);
        let ghost cur = digits.subrange(0, i + 1 - dlo);
        proof {
            assert(cur.drop_last() =~= pre);
            assert(cur.last() == c);
            assert(digits_val(cur) == digits_val(pre) * 10 + d);
        }
        if !sat {
            if acc > (i64::MAX - d as i64) / 10 {
                sat = true;
                proof {
                    assert(acc * 10 + d > i64::MAX as int) by (nonlinear_arith)
                        requires
                            acc > (i64::MAX - d as i64) / 10,
                            0 <= d < 10,
                            acc >= 0,
                    ;
                }
            } else {
                proof {
                    assert(acc * 10 + d <= i64::MAX as int) by (nonlinear_arith)
                        requires
                            acc <= (i64::MAX - d as i64) / 10,
                            0 <= d < 10,
                            acc >= 0,
                    ;
                    assert(acc * 10 >= 0) by (nonlinear_arith)
                        requires
                            acc >= 0,
                    ;
                }
                acc = acc * 10 + d as i64;
            }
        } else {
            proof {
                assert(digits_val(pre) * 10 + d > i64::MAX as int) by (nonlinear_arith)
                    requires
                        digits_val(pre) > i64::MAX as int,
                        d >= 0,
                ;
            }
        }
        i += 1;
    }
    proof {
        assert(digits.subrange(0, hi - dlo) =~= digits);
    }
    let m = if sat {
        i64::MAX
    } else {
        acc
    };
    if neg {
        Some(-m)
    } else {
        Some(m)
    }
}

/// Index of the last `/` in `s`, if any.
pub fn last_slash(s: &str) -> (r: Option<usize>)
    ensures
        match r {
            Some(j) => last_index_of_spec(s@, '/') == Some(j as int),
            None => last_index_of_spec(s@, '/') is None,
        },
{
    let n = s.unicode_len();
    proof {
        assert(s@.subrange(0, n as int) =~= s@);
    }
    let mut i = n;
    while i > 0
        invariant
            0 <= i <= n,
            n == s@.len(),
            last_index_of_spec(s@, '/') == last_index_of_spec(s@.subrange(0, i as int), '/'),
        decreases i,
    {
        if s.get_char(i - 1) == '/' {
            proof {
                assert(s@.subrange(0, i as int).last() == s@[i - 1]);
            }
            return Some(i - 1);
        }
        proof {
            assert(s@.subrange(0, i as int).drop_last() =~= s@.subrange(0, i - 1));
        }
        i -= 1;
    }
    None
}

} // verus!
