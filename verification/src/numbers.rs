//! Verified decimal codec for signed 64-bit integers: parsing in the manner
//! of `str::parse`, rendering in the manner of `to_string`, and the
//! round-trip law connecting the two.

use vstd::prelude::*;

verus! {

pub open spec fn is_digit(c: char) -> bool {
    '0' as int <= c as int && c as int <= '9' as int
}

pub open spec fn digit_val(c: char) -> int {
    c as int - '0' as int
}

pub open spec fn all_digits(s: Seq<char>) -> bool {
    forall|i: int| 0 <= i < s.len() ==> is_digit(#[trigger] s[i])
}

/// The value of a sequence of decimal digits, most significant first.
pub open spec fn digits_val(s: Seq<char>) -> int
    decreases s.len(),
{
    if s.len() == 0 {
        0
    } else {
        digits_val(s.drop_last()) * 10 + digit_val(s.last())
    }
}

/// What `str::parse::<i64>` accepts: an optional sign followed by at least
/// one decimal digit, with the value in range.
pub open spec fn spec_parse_i64(s: Seq<char>) -> Option<int> {
    if s.len() == 0 {
        None
    } else {
        let neg = s[0] == '-';
        let ds = if s[0] == '-' || s[0] == '+' {
            s.drop_first()
        } else {
            s
        };
        if ds.len() == 0 || !all_digits(ds) {
            None
        } else {
            let v = if neg {
                -digits_val(ds)
            } else {
                digits_val(ds)
            };
            if i64::MIN as int <= v && v <= i64::MAX as int {
                Some(v)
            } else {
                None
            }
        }
    }
}

pub proof fn lemma_digits_val_nonneg(s: Seq<char>)
    requires
        all_digits(s),
    ensures
        digits_val(s) >= 0,
    decreases s.len(),
{
    if s.len() > 0 {
        assert(all_digits(s.drop_last()));
        lemma_digits_val_nonneg(s.drop_last());
    }
}

/// A digit prefix never exceeds the value of the whole digit string.
pub proof fn lemma_digits_val_prefix(s: Seq<char>, k: int)
    requires
        all_digits(s),
        0 <= k <= s.len(),
    ensures
        digits_val(s.subrange(0, k)) <= digits_val(s),
    decreases s.len() - k,
{
    if k == s.len() {
        assert(s.subrange(0, k) =~= s);
    } else {
        lemma_digits_val_prefix(s, k + 1);
        let p = s.subrange(0, k + 1);
        assert(p.drop_last() =~= s.subrange(0, k));
        assert(all_digits(s.subrange(0, k)));
        lemma_digits_val_nonneg(s.subrange(0, k));
    }
}

fn is_digit_char(c: char) -> (b: bool)
    ensures
        b == is_digit(c),
{
    '0' <= c && c <= '9'
}

/// Parses a signed 64-bit integer from decimal text, accepting exactly what
/// `spec_parse_i64` describes.
pub fn parse_i64(s: &str) -> (r: Option<i64>)
    ensures
        r matches Some(v) ==> spec_parse_i64(s@) == Some(v as int),
        r is None ==> spec_parse_i64(s@) is None,
{
    let n = s.unicode_len();
    if n == 0 {
        return None;
    }
    let first = s.get_char(0);
    let neg = first == '-';
    let has_sign = neg || first == '+';
    let start: usize = if has_sign {
        1
    } else {
        0
    };
    let ghost ds = if has_sign {
        s@.drop_first()
    } else {
        s@
    };
    proof {
        if has_sign {
            assert(ds =~= s@.subrange(1, s@.len() as int));
        }
    }
    if start == n {
        return None;
    }
    let limit: u64 = if neg {
        9223372036854775808u64
    } else {
        9223372036854775807u64
    };
    let mut acc: u64 = 0;
    let mut i = start;
    while i < n
        invariant
            n as nat == s@.len(),
            start <= i <= n,
            start == if has_sign { 1int } else { 0int },
            has_sign ==> ds =~= s@.subrange(1, s@.len() as int),
            !has_sign ==> ds == s@,
            neg ==> s@[0] == '-',
            !neg && has_sign ==> s@[0] == '+',
            !has_sign ==> !(s@[0] == '-' || s@[0] == '+'),
            ds.len() == n - start,
            limit == if neg { 9223372036854775808u64 } else { 9223372036854775807u64 },
            all_digits(ds.subrange(0, i - start)),
            acc == digits_val(ds.subrange(0, i - start)),
            acc <= limit,
        decreases n - i,
    {
        let c = s.get_char(i);
        proof {
            assert(ds[i - start] == s@[i as int]);
        }
        if !is_digit_char(c) {
            proof {
                assert(!all_digits(ds));
                assert(spec_parse_i64(s@) is None);
            }
            return None;
        }
        let d: u64 = (c as u32 as u64) - ('0' as u32 as u64);
        proof {
            assert(ds.subrange(0, i - start + 1).drop_last() =~= ds.subrange(0, i - start));
            assert(ds.subrange(0, i - start + 1).last() == ds[i - start]);
        }
        if acc > limit / 10 || (acc == limit / 10 && d > limit % 10) {
            proof {
                assert(digits_val(ds.subrange(0, i - start + 1)) == acc * 10 + d);
                assert(acc * 10 + d > limit);
                if all_digits(ds) {
                    lemma_digits_val_prefix(ds, i - start + 1);
                    assert(digits_val(ds) > limit);
                    assert(spec_parse_i64(s@) is None);
                } else {
                    assert(spec_parse_i64(s@) is None);
                }
            }
            return None;
        }
        acc = acc * 10 + d;
        i = i + 1;
        proof {
            assert(all_digits(ds.subrange(0, i - start)));
        }
    }
    proof {
        assert(ds.subrange(0, ds.len() as int) =~= ds);
        assert(acc == digits_val(ds));
        assert(all_digits(ds));
    }
    if neg {
        if acc == 9223372036854775808u64 {
            proof {
                assert(spec_parse_i64(s@) == Some(i64::MIN as int));
            }
            Some(i64::MIN)
        } else {
            let v = -(acc as i64);
            proof {
                assert(spec_parse_i64(s@) == Some(v as int));
            }
            Some(v)
        }
    } else {
        proof {
            assert(spec_parse_i64(s@) == Some(acc as int));
        }
        Some(acc as i64)
    }
}

pub open spec fn digit_char(d: int) -> char {
    if d == 0 {
        '0'
    } else if d == 1 {
        '1'
    } else if d == 2 {
        '2'
    } else if d == 3 {
        '3'
    } else if d == 4 {
        '4'
    } else if d == 5 {
        '5'
    } else if d == 6 {
        '6'
    } else if d == 7 {
        '7'
    } else if d == 8 {
        '8'
    } else {
        '9'
    }
}

/// The decimal digits of a nonnegative integer, as `to_string` writes them.
pub open spec fn spec_nat_string(n: int) -> Seq<char>
    decreases n,
{
    if n < 0 {
        Seq::empty()
    } else if n < 10 {
        seq![digit_char(n)]
    } else {
        spec_nat_string(n / 10).push(digit_char(n % 10))
    }
}

/// The decimal text of a signed integer, as `to_string` writes it.
pub open spec fn spec_i64_string(v: int) -> Seq<char> {
    if v < 0 {
        seq!['-'] + spec_nat_string(-v)
    } else {
        spec_nat_string(v)
    }
}

fn digit_str(d: u64) -> (r: &'static str)
    requires
        d < 10,
    ensures
        r@ == seq![digit_char(d as int)],
{
    proof {
        reveal_strlit("0");
        reveal_strlit("1");
        reveal_strlit("2");
        reveal_strlit("3");
        reveal_strlit("4");
        reveal_strlit("5");
        reveal_strlit("6");
        reveal_strlit("7");
        reveal_strlit("8");
        reveal_strlit("9");
    }
    let r: &'static str = if d == 0 {
        "0"
    } else if d == 1 {
        "1"
    } else if d == 2 {
        "2"
    } else if d == 3 {
        "3"
    } else if d == 4 {
        "4"
    } else if d == 5 {
        "5"
    } else if d == 6 {
        "6"
    } else if d == 7 {
        "7"
    } else if d == 8 {
        "8"
    } else {
        "9"
    };
    proof {
        assert(r@ =~= seq![digit_char(d as int)]);
    }
    r
}

fn nat_string(n: u64) -> (s: String)
    ensures
        s@ == spec_nat_string(n as int),
    decreases n,
{
    if n < 10 {
        digit_str(n).to_owned()
    } else {
        let mut s = nat_string(n / 10);
        s.append(digit_str(n % 10));
        proof {
            assert(s@ =~= spec_nat_string(n as int / 10).push(digit_char(n as int % 10)));
        }
        s
    }
}

/// Renders a signed 64-bit integer as decimal text, exactly as `to_string`
/// would.
pub fn i64_to_string(v: i64) -> (s: String)
    ensures
        s@ == spec_i64_string(v as int),
{
    if v >= 0 {
        nat_string(v as u64)
    } else {
        let mag: u64 = if v == i64::MIN {
            9223372036854775808u64
        } else {
            (-v) as u64
        };
        let mut s = "-".to_owned();
        s.append(nat_string(mag).as_str());
        proof {
            reveal_strlit("-");
            assert("-"@ =~= seq!['-']);
            assert(s@ =~= seq!['-'] + spec_nat_string(mag as int));
        }
        s
    }
}

proof fn lemma_nat_string_digits(n: int)
    requires
        n >= 0,
    ensures
        all_digits(spec_nat_string(n)),
        spec_nat_string(n).len() >= 1,
        digits_val(spec_nat_string(n)) == n,
    decreases n,
{
    if n < 10 {
        let s = spec_nat_string(n);
        assert(s =~= seq![digit_char(n)]);
        assert(s.drop_last() =~= Seq::<char>::empty());
        assert(digits_val(Seq::<char>::empty()) == 0);
        assert(s.last() == digit_char(n));
        assert(digits_val(s) == digit_val(digit_char(n)));
        assert(digits_val(spec_nat_string(n)) == n);
    } else {
        lemma_nat_string_digits(n / 10);
        let s = spec_nat_string(n);
        assert(s.drop_last() =~= spec_nat_string(n / 10));
        assert(digits_val(s) == (n / 10) * 10 + (n % 10));
    }
}

/// The decimal text of any 64-bit value parses back to that value.
pub proof fn lemma_i64_string_parses(v: int)
    requires
        i64::MIN as int <= v <= i64::MAX as int,
    ensures
        spec_parse_i64(spec_i64_string(v)) == Some(v),
{
    if v >= 0 {
        lemma_nat_string_digits(v);
        let s = spec_i64_string(v);
        assert(is_digit(s[0]));
        assert(!(s[0] == '-' || s[0] == '+'));
        assert(spec_parse_i64(s) == Some(v));
    } else {
        lemma_nat_string_digits(-v);
        let s = spec_i64_string(v);
        assert(s[0] == '-');
        assert(s.drop_first() =~= spec_nat_string(-v));
        assert(spec_parse_i64(s) == Some(v));
    }
}

} // verus!
