use vstd::prelude::*;

verus! {

/// The ASCII digit for a value below ten.
pub open spec fn digit_byte(d: nat) -> u8 {
    (d + 48) as u8
}

pub open spec fn is_digit_byte(b: u8) -> bool {
    48 <= b <= 57
}

/// The shortest decimal spelling of `n`, as ASCII bytes.
pub open spec fn decimal_bytes(n: nat) -> Seq<u8>
    decreases n,
{
    if n < 10 {
        seq![digit_byte(n)]
    } else {
        decimal_bytes(n / 10).push(digit_byte(n % 10))
    }
}

/// The value of a sequence of decimal digits (zero for the empty sequence).
pub open spec fn digits_value(s: Seq<u8>) -> nat
    decreases s.len(),
{
    if s.len() == 0 {
        0
    } else {
        digits_value(s.drop_last()) * 10 + (s.last() - 48) as nat
    }
}

pub open spec fn all_digits(s: Seq<u8>) -> bool {
    forall|i: int| 0 <= i < s.len() ==> is_digit_byte(#[trigger] s[i])
}

/// What parsing `s` as a `usize` gives: an optional `+`, then one or more
/// digits whose value fits in a `usize`.
pub open spec fn parse_usize_spec(s: Seq<u8>) -> Option<nat> {
    let d = if s.len() > 0 && s[0] == 43u8 {
        s.drop_first()
    } else {
        s
    };
    if d.len() == 0 || !all_digits(d) || digits_value(d) > usize::MAX {
        None
    } else {
        Some(digits_value(d))
    }
}

pub proof fn lemma_decimal_digits(n: nat)
    ensures
        all_digits(decimal_bytes(n)),
        decimal_bytes(n).len() >= 1,
        digits_value(decimal_bytes(n)) == n,
    decreases n,
{
    if n >= 10 {
        lemma_decimal_digits(n / 10);
        let s = decimal_bytes(n);
        assert(s.drop_last() =~= decimal_bytes(n / 10));
        assert((n / 10) * 10 + n % 10 == n);
        assert(s.last() == digit_byte(n % 10));
        assert(digit_byte(n % 10) as nat == n % 10 + 48);
        assert(digits_value(s) == digits_value(decimal_bytes(n / 10)) * 10 + n % 10);
    } else {
        assert(digit_byte(n) as nat == n + 48);
        assert(decimal_bytes(n).drop_last() =~= Seq::<u8>::empty());
        assert(digits_value(Seq::<u8>::empty()) == 0);
    }
}

/// Parsing the decimal spelling of a `usize` gives it back.
pub proof fn lemma_parse_decimal(n: nat)
    requires
        n <= usize::MAX,
    ensures
        parse_usize_spec(decimal_bytes(n)) == Some(n),
{
    lemma_decimal_digits(n);
}

/// Appends the decimal spelling of `n` to `out`.
pub fn push_decimal(out: &mut Vec<u8>, n: usize)
    ensures
        final(out)@ == old(out)@ + decimal_bytes(n as nat),
    decreases n,
{
    if n < 10 {
        out.push((n as u8) + 48);
    } else {
        push_decimal(out, n / 10);
        out.push(((n % 10) as u8) + 48);
    }
}

/// Parses `s[start..end]` as a `usize`, as `str::parse::<usize>` does.
pub fn parse_usize(s: &[u8], start: usize, end: usize) -> (r: Option<usize>)
    requires
        start <= end <= s@.len(),
    ensures
        r matches Some(v) ==> parse_usize_spec(s@.subrange(start as int, end as int)) == Some(
            v as nat,
        ),
        r is None ==> parse_usize_spec(s@.subrange(start as int, end as int)) is None,
{
    let ghost whole = s@.subrange(start as int, end as int);
    let mut i = start;
    if i < end && s[i] == 43u8 {
        i = i + 1;
    }
    let ghost d = s@.subrange(i as int, end as int);
    assert(d =~= (if whole.len() > 0 && whole[0] == 43u8 {
        whole.drop_first()
    } else {
        whole
    }));
    if i == end {
        return None;
    }
    let first = i;
    let mut acc: usize = 0;
    while i < end
        invariant
            first <= i <= end <= s@.len(),
            first < end,
            whole == s@.subrange(start as int, end as int),
            d == s@.subrange(first as int, end as int),
            d == (if whole.len() > 0 && whole[0] == 43u8 {
                whole.drop_first()
            } else {
                whole
            }),
            all_digits(s@.subrange(first as int, i as int)),
            acc as nat == digits_value(s@.subrange(first as int, i as int)),
        decreases end - i,
    {
        let b = s[i];
        let ghost pre = s@.subrange(first as int, i as int);
        let ghost next = s@.subrange(first as int, i + 1);
        assert(next.drop_last() =~= pre);
        if b < 48 || b > 57 {
            assert(!is_digit_byte(d[i - first]));
            return None;
        }
        let m = acc.checked_mul(10);
        match m {
            None => {
                proof {
                    if all_digits(d) {
                        lemma_value_grows(d, (i - first + 1) as int);
                        assert(d.subrange(0, (i - first + 1) as int) =~= next);
                    }
                }
                return None;
            },
            Some(m) => {
                let t = m.checked_add((b - 48) as usize);
                match t {
                    None => {
                        proof {
                            if all_digits(d) {
                                lemma_value_grows(d, (i - first + 1) as int);
                                assert(d.subrange(0, (i - first + 1) as int) =~= next);
                            }
                        }
                        return None;
                    },
                    Some(t) => {
                        acc = t;
                    },
                }
            },
        }
        i = i + 1;
    }
    assert(s@.subrange(first as int, i as int) =~= d);
    Some(acc)
}

/// The value of a digit sequence is at least the value of any prefix of it.
proof fn lemma_value_grows(d: Seq<u8>, k: int)
    requires
        0 <= k <= d.len(),
        all_digits(d),
    ensures
        digits_value(d.subrange(0, k)) <= digits_value(d),
    decreases d.len() - k,
{
    if k < d.len() {
        lemma_value_grows(d, k + 1);
        let a = d.subrange(0, k + 1);
        assert(a.drop_last() =~= d.subrange(0, k));
        assert(is_digit_byte(d[k]));
    } else {
        assert(d.subrange(0, k) =~= d);
    }
}

} // verus!
