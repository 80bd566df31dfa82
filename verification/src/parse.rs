use vstd::prelude::*;

verus! {

/// A decimal digit.
pub open spec fn is_digit(c: char) -> bool {
    48 <= c as u32 && c as u32 <= 57
}

/// The value of a digit; anything else counts as zero.
pub open spec fn digit_of(c: char) -> int {
    if is_digit(c) {
        c as u32 - 48
    } else {
        0
    }
}

/// The number a digit string denotes.
pub open spec fn digits_val(s: Seq<char>) -> int
    decreases s.len(),
{
    if s.len() == 0 {
        0
    } else {
        digits_val(s.drop_last()) * 10 + digit_of(s.last())
    }
}

/// The index of the first decimal point, or the length if there is none.
pub open spec fn first_dot(s: Seq<char>) -> int
    decreases s.len(),
{
    if s.len() == 0 {
        0
    } else if s[0] == '.' {
        0
    } else {
        1 + first_dot(s.drop_first())
    }
}

/// A well-formed threshold text: digits with at most one decimal point,
/// and at least one digit.
pub open spec fn valid_threshold(s: Seq<char>) -> bool {
    &&& s.len() >= 1
    &&& forall|i: int| 0 <= i < s.len() ==> is_digit(#[trigger] s[i]) || s[i] == '.'
    &&& forall|i: int, j: int| 0 <= i < j < s.len() && #[trigger] s[i] == '.' ==> #[trigger] s[j] != '.'
    &&& exists|i: int| 0 <= i < s.len() && is_digit(#[trigger] s[i])
}

/// The number a threshold text denotes, in hundredths: the integer part
/// scaled by one hundred plus the first two fraction digits; further
/// fraction digits are cut off.
pub open spec fn threshold_val(s: Seq<char>) -> int {
    let d = first_dot(s);
    let frac = if d < s.len() {
        s.skip(d + 1)
    } else {
        Seq::<char>::empty()
    };
    let fc = (if frac.len() >= 1 {
        digit_of(frac[0]) * 10
    } else {
        0
    }) + (if frac.len() >= 2 {
        digit_of(frac[1])
    } else {
        0
    });
    digits_val(s.take(d)) * 100 + fc
}

/// What parsing a threshold text yields: its value in hundredths of a
/// percent, or nothing when the text is malformed or the value does not
/// fit.
pub open spec fn parse_threshold_spec(s: Seq<char>) -> Option<u64> {
    if valid_threshold(s) && threshold_val(s) <= u64::MAX {
        Some(threshold_val(s) as u64)
    } else {
        None
    }
}

/// A digit string denotes a number no smaller than any of its prefixes
/// denote, and never a negative one.
proof fn lemma_digits_val_monotone(s: Seq<char>, k: int)
    requires
        0 <= k <= s.len(),
    ensures
        digits_val(s.take(k)) >= 0,
        digits_val(s) >= digits_val(s.take(k)),
    decreases s.len() - k,
{
    if k == s.len() {
        assert(s.take(k) =~= s);
        lemma_digits_val_nonneg(s);
    } else {
        lemma_digits_val_monotone(s, k + 1);
        assert(s.take(k + 1).drop_last() =~= s.take(k));
        assert(s.take(k + 1).last() == s[k]);
        lemma_digits_val_nonneg(s.take(k));
    }
}

proof fn lemma_digits_val_nonneg(s: Seq<char>)
    ensures
        digits_val(s) >= 0,
    decreases s.len(),
{
    if s.len() > 0 {
        lemma_digits_val_nonneg(s.drop_last());
    }
}

/// Where the first decimal point of `s` stands.
proof fn lemma_first_dot(s: Seq<char>)
    ensures
        0 <= first_dot(s) <= s.len(),
        forall|m: int| 0 <= m < first_dot(s) ==> #[trigger] s[m] != '.',
        first_dot(s) < s.len() ==> s[first_dot(s)] == '.',
    decreases s.len(),
{
    if s.len() > 0 && s[0] != '.' {
        let rest = s.drop_first();
        lemma_first_dot(rest);
        assert(forall|m: int| 1 <= m < first_dot(s) ==> s[m] == rest[m - 1]);
    }
}

/// Parse a threshold text into hundredths. Yields `None` exactly on a
/// malformed text or one whose value does not fit.
pub fn parse_threshold(text: &Vec<char>) -> (r: Option<u64>)
    ensures
        r == parse_threshold_spec(text@),
{
    let n = text.len();
    proof {
        lemma_first_dot(text@);
    }
    if n == 0 {
        return None;
    }
    // one pass to find the decimal point and reject stray characters
    let mut dot: usize = n;
    let mut seen_dot = false;
    let mut has_digit = false;
    let mut i: usize = 0;
    while i < n
        invariant
            0 <= i <= n,
            n == text@.len(),
            forall|m: int| 0 <= m < i ==> is_digit(#[trigger] text@[m]) || text@[m] == '.',
            forall|m: int, l: int| 0 <= m < l < i && #[trigger] text@[m] == '.' ==> #[trigger] text@[l] != '.',
            seen_dot <==> (exists|m: int| 0 <= m < i && #[trigger] text@[m] == '.'),
            seen_dot ==> dot < i && text@[dot as int] == '.'
                && (forall|m: int| 0 <= m < dot ==> #[trigger] text@[m] != '.'),
            !seen_dot ==> dot == n,
            has_digit <==> (exists|m: int| 0 <= m < i && is_digit(#[trigger] text@[m])),
        decreases n - i,
    {
        let c = text[i] as u32;
        proof {
            vstd::utf8::char_u32_cast(text@[i as int], text@[i as int] as u32);
            vstd::utf8::char_u32_cast('.', '.' as u32);
        }
        if c == 46 {
            assert(text@[i as int] == '.');
            if seen_dot {
                assert(!valid_threshold(text@));
                return None;
            }
            seen_dot = true;
            dot = i;
        } else if 48 <= c && c <= 57 {
            has_digit = true;
        } else {
            assert(text@[i as int] != '.');
            assert(!(is_digit(text@[i as int]) || text@[i as int] == '.'));
            assert(!valid_threshold(text@));
            return None;
        }
        i = i + 1;
    }
    if !has_digit {
        assert(!valid_threshold(text@));
        return None;
    }
    assert(valid_threshold(text@));
    assert(dot as int == first_dot(text@)) by {
        if seen_dot {
            if (dot as int) < first_dot(text@) {
                assert(text@[dot as int] != '.');
            }
            if first_dot(text@) < dot as int {
                assert(text@[first_dot(text@)] == '.');
            }
        } else {
            if first_dot(text@) < n {
                assert(text@[first_dot(text@)] == '.');
            }
        }
    }
    // integer part
    let mut acc: u64 = 0;
    let mut j: usize = 0;
    while j < dot
        invariant
            0 <= j <= dot <= n,
            n == text@.len(),
            valid_threshold(text@),
            dot as int == first_dot(text@),
            forall|m: int| 0 <= m < dot ==> is_digit(#[trigger] text@[m]),
            acc as int == digits_val(text@.take(j as int)),
        decreases dot - j,
    {
        let c = text[j] as u32;
        assert(is_digit(text@[j as int]));
        let d: u64 = (c - 48) as u64;
        if acc > (u64::MAX - d) / 10 {
            // the integer part alone no longer fits
            proof {
                assert(acc * 10 + d > u64::MAX) by (nonlinear_arith)
                    requires
                        acc > (u64::MAX - d) / 10,
                        d <= u64::MAX,
                ;
                assert(text@.take(j + 1).drop_last() =~= text@.take(j as int));
                assert(text@.take(j + 1).last() == text@[j as int]);
                assert(digits_val(text@.take(j + 1)) > u64::MAX);
                lemma_digits_val_monotone(text@.take(dot as int), j + 1);
                assert(text@.take(dot as int).take(j + 1) =~= text@.take(j + 1));
                assert(digits_val(text@.take(dot as int)) > u64::MAX);
                lemma_digits_val_nonneg(text@.take(dot as int));
                assert(threshold_val(text@) > u64::MAX);
            }
            return None;
        }
        proof {
            assert(acc * 10 + d <= u64::MAX) by (nonlinear_arith)
                requires
                    acc <= (u64::MAX - d) / 10,
                    d <= u64::MAX,
            ;
            assert(text@.take(j + 1).drop_last() =~= text@.take(j as int));
            assert(text@.take(j + 1).last() == text@[j as int]);
        }
        acc = acc * 10 + d;
        j = j + 1;
    }
    // the first two fraction digits, if any
    let mut fc: u64 = 0;
    if dot < n && dot + 1 < n {
        let c1 = text[dot + 1] as u32;
        assert(is_digit(text@[dot + 1]) || text@[dot + 1] == '.');
        assert(text@[dot + 1] != '.');
        fc = ((c1 - 48) as u64) * 10;
        if dot + 2 < n {
            let c2 = text[dot + 2] as u32;
            assert(text@[dot + 2] != '.');
            fc = fc + (c2 - 48) as u64;
        }
    }
    proof {
        if (dot as int) < n {
            let frac = text@.skip(dot + 1);
            assert(frac.len() == n - dot - 1);
            if frac.len() >= 1 {
                assert(frac[0] == text@[dot + 1]);
            }
            if frac.len() >= 2 {
                assert(frac[1] == text@[dot + 2]);
            }
        }
        assert(fc as int == threshold_val(text@) - digits_val(text@.take(dot as int)) * 100);
    }
    if acc > (u64::MAX - fc) / 100 {
        proof {
            assert(acc * 100 + fc > u64::MAX) by (nonlinear_arith)
                requires
                    acc > (u64::MAX - fc) / 100,
                    fc <= u64::MAX,
            ;
        }
        return None;
    }
    proof {
        assert(acc * 100 + fc <= u64::MAX) by (nonlinear_arith)
            requires
                acc <= (u64::MAX - fc) / 100,
                fc <= u64::MAX,
        ;
        assert(text@.take(dot as int) =~= text@.take(first_dot(text@)));
    }
    Some(acc * 100 + fc)
}

} // verus!
