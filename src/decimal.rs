//! Canonical decimal text of integers, as bencode writes them.
use vstd::prelude::*;
use vstd::slice::slice_subrange;

verus! {

/// The ASCII digits of `n`, most significant first, without leading zeros.
pub open spec fn nat_text(n: nat) -> Seq<u8>
    decreases n,
{
    if n < 10 {
        seq![(48 + n) as u8]
    } else {
        nat_text(n / 10).push((48 + n % 10) as u8)
    }
}

/// The canonical decimal text of `n`: a minus sign before the digits of a
/// negative number.
pub open spec fn int_text(n: int) -> Seq<u8> {
    if n < 0 {
        seq![45u8] + nat_text((-n) as nat)
    } else {
        nat_text(n as nat)
    }
}

pub open spec fn is_digit(b: u8) -> bool {
    48 <= b <= 57
}

proof fn lemma_nat_text_shape(n: nat)
    ensures
        nat_text(n).len() >= 1,
        forall|i: int| 0 <= i < nat_text(n).len() ==> is_digit(#[trigger] nat_text(n)[i]),
        n >= 10 ==> nat_text(n)[0] != 48u8,
        n >= 1 ==> nat_text(n)[0] != 48u8,
    decreases n,
{
    if n >= 10 {
        lemma_nat_text_shape(n / 10);
    }
}

proof fn lemma_text_prefix(n: nat, t: Seq<u8>, end: int)
    requires
        0 < end <= t.len(),
        nat_text(n) == t.subrange(0, end),
    ensures
        n >= 10 ==> nat_text(n / 10) == t.subrange(0, end - 1),
        t[end - 1] == (48 + n % 10) as u8,
        n < 10 ==> end == 1,
{
    let s = nat_text(n);
    assert(s.len() == end);
    assert(s[end - 1] == t[end - 1]);
    if n >= 10 {
        assert(s == nat_text(n / 10).push((48 + n % 10) as u8));
        assert(nat_text(n / 10) =~= s.subrange(0, end - 1));
        assert(t.subrange(0, end - 1) =~= s.subrange(0, end - 1));
    } else {
        assert(n % 10 == n);
    }
}

/// Different numbers have different digits.
pub proof fn lemma_nat_text_injective(a: nat, b: nat)
    requires
        nat_text(a) == nat_text(b),
    ensures
        a == b,
    decreases a,
{
    if a >= 10 {
        lemma_nat_text_shape(a / 10);
    }
    if b >= 10 {
        lemma_nat_text_shape(b / 10);
    }
    if a >= 10 && b >= 10 {
        let n = nat_text(a).len() as int;
        assert(nat_text(a).subrange(0, n) =~= nat_text(a));
        lemma_text_prefix(a, nat_text(a), n);
        lemma_text_prefix(b, nat_text(a), n);
        lemma_nat_text_injective(a / 10, b / 10);
        assert(a % 10 == b % 10);
        assert(a == (a / 10) * 10 + a % 10) by (nonlinear_arith);
        assert(b == (b / 10) * 10 + b % 10) by (nonlinear_arith);
        assert(a == b);
    } else if a < 10 && b < 10 {
        assert(nat_text(a) == seq![(48 + a) as u8]);
        assert(nat_text(b) == seq![(48 + b) as u8]);
        assert(nat_text(a)[0] == (48 + a) as u8);
        assert(nat_text(b)[0] == (48 + b) as u8);
        assert(a == b);
    } else if a < 10 {
        assert(nat_text(b).len() == nat_text(b / 10).len() + 1);
        assert(nat_text(a).len() == 1);
    } else {
        assert(nat_text(a).len() == nat_text(a / 10).len() + 1);
        assert(nat_text(b).len() == 1);
    }
}

/// Different integers have different canonical text.
pub proof fn lemma_int_text_injective(a: int, b: int)
    requires
        int_text(a) == int_text(b),
    ensures
        a == b,
{
    if a < 0 {
        lemma_nat_text_shape((-a) as nat);
    } else {
        lemma_nat_text_shape(a as nat);
    }
    if b < 0 {
        lemma_nat_text_shape((-b) as nat);
    } else {
        lemma_nat_text_shape(b as nat);
    }
    if a < 0 && b < 0 {
        assert(nat_text((-a) as nat) =~= int_text(a).subrange(1, int_text(a).len() as int));
        assert(nat_text((-b) as nat) =~= int_text(b).subrange(1, int_text(b).len() as int));
        lemma_nat_text_injective((-a) as nat, (-b) as nat);
    } else if a >= 0 && b >= 0 {
        lemma_nat_text_injective(a as nat, b as nat);
    } else if a < 0 {
        assert(int_text(a)[0] == 45u8);
        assert(is_digit(int_text(b)[0]));
    } else {
        assert(int_text(b)[0] == 45u8);
        assert(is_digit(int_text(a)[0]));
    }
}

/// Appends the digits of `n` to `out`.
fn push_nat_text(n: u128, out: &mut Vec<u8>)
    ensures
        final(out)@ == old(out)@ + nat_text(n as nat),
    decreases n,
{
    if n >= 10 {
        push_nat_text(n / 10, out);
    }
    let d: u8 = (n % 10) as u8;
    out.push(48 + d);
    proof {
        if n >= 10 {
            assert(final(out)@ =~= old(out)@ + nat_text(n as nat));
        } else {
            assert(final(out)@ =~= old(out)@ + nat_text(n as nat));
        }
    }
}

/// The canonical decimal text of `n`.
pub fn int_to_text(n: i128) -> (r: Vec<u8>)
    ensures
        r@ == int_text(n as int),
{
    let mut out: Vec<u8> = Vec::new();
    if n < 0 {
        out.push(45);
        let m: u128 = if n == i128::MIN {
            170141183460469231731687303715884105728u128
        } else {
            (-n) as u128
        };
        push_nat_text(m, &mut out);
    } else {
        push_nat_text(n as u128, &mut out);
    }
    proof {
        assert(out@ =~= int_text(n as int));
    }
    out
}

/// Reads the digits `t[0..end]` as a number; `None` when one of them is not
/// a digit or the number does not fit in a `u128`.
fn parse_digits(t: &[u8], end: usize) -> (r: Option<u128>)
    requires
        1 <= end <= t@.len(),
        end > 1 ==> t@[0] != 48u8,
    ensures
        r matches Some(v) ==> nat_text(v as nat) == t@.subrange(0, end as int),
        r matches Some(v) ==> (t@[0] != 48u8 ==> v >= 1) && (end > 1 ==> v >= 10),
        forall|n: nat|
            n <= u128::MAX && nat_text(n) == t@.subrange(0, end as int) ==> r == Some(n as u128),
    decreases end,
{
    let b = t[end - 1];
    if !(48 <= b && b <= 57) {
        proof {
            assert forall|n: nat|
                n <= u128::MAX && nat_text(n) == t@.subrange(0, end as int) implies false by {
                lemma_nat_text_shape(n);
                assert(nat_text(n)[end - 1] == t@[end - 1]);
            }
        }
        return None;
    }
    let d: u128 = (b - 48) as u128;
    if end == 1 {
        proof {
            assert(nat_text(d as nat) =~= t@.subrange(0, 1));
            assert forall|n: nat|
                n <= u128::MAX && nat_text(n) == t@.subrange(0, end as int) implies n == d by {
                lemma_text_prefix(n, t@, end as int);
                if n >= 10 {
                    lemma_nat_text_shape(n / 10);
                }
            }
        }
        return Some(d);
    }
    let p = parse_digits(t, end - 1);
    match p {
        None => {
            proof {
                assert forall|n: nat|
                    n <= u128::MAX && nat_text(n) == t@.subrange(0, end as int) implies false by {
                    lemma_text_prefix(n, t@, end as int);
                }
            }
            None
        },
        Some(p) => {
            if p > (u128::MAX - d) / 10 {
                proof {
                    assert forall|n: nat|
                        n <= u128::MAX && nat_text(n) == t@.subrange(0, end as int) implies false by {
                        lemma_text_prefix(n, t@, end as int);
                        {
                            assert(n / 10 == p);
                            assert((48 + n % 10) as u8 == b);
                            assert(n % 10 == d);
                            assert(n == p * 10 + d) by (nonlinear_arith)
                                requires n / 10 == p, n % 10 == d;
                            assert(p * 10 + d > u128::MAX) by (nonlinear_arith)
                                requires p > (u128::MAX - d) / 10, d < 10;
                        }
                    }
                }
                return None;
            }
            assert(p * 10 + d <= u128::MAX) by (nonlinear_arith)
                requires p <= (u128::MAX - d) / 10, d < 10;
            let v: u128 = p * 10 + d;
            proof {
                assert(v / 10 == p && v % 10 == d) by (nonlinear_arith)
                    requires v == p * 10 + d, d < 10;
                assert(v >= 10) by (nonlinear_arith)
                    requires v == p * 10 + d, p >= 1;
                assert(nat_text(v as nat) =~= t@.subrange(0, end as int));
                assert forall|n: nat|
                    n <= u128::MAX && nat_text(n) == t@.subrange(0, end as int) implies n == v by {
                    lemma_text_prefix(n, t@, end as int);
                    {
                        assert((48 + n % 10) as u8 == b);
                        assert(n == (n / 10) * 10 + n % 10) by (nonlinear_arith);
                    }
                }
            }
            Some(v)
        },
    }
}

/// Reads canonical decimal text (an optional minus sign, then digits with no
/// leading zero, and no "-0") as an `i128`.
pub fn text_to_int(t: &[u8]) -> (r: Option<i128>)
    ensures
        r matches Some(n) ==> int_text(n as int) == t@,
        forall|n: int| i128::MIN < n <= i128::MAX && int_text(n) == t@ ==> r == Some(n as i128),
{
    let neg = t.len() > 0 && t[0] == 45;
    let start: usize = if neg { 1 } else { 0 };
    if start >= t.len() || (t.len() > start + 1 && t[start] == 48) || (neg && t[start] == 48) {
        proof {
            assert forall|n: int| i128::MIN < n <= i128::MAX && int_text(n) == t@ implies false by {
                if n < 0 {
                    lemma_nat_text_shape((-n) as nat);
                    assert(t@[0] == 45u8);
                    assert(t@[1] == nat_text((-n) as nat)[0]);
                } else {
                    lemma_nat_text_shape(n as nat);
                    assert(t@[0] == nat_text(n as nat)[0]);
                    if n >= 10 {
                    } else {
                        assert(nat_text(n as nat).len() == 1);
                    }
                }
            }
        }
        return None;
    }
    let digits = slice_subrange(t, start, t.len());
    let m = parse_digits(digits, digits.len());
    proof {
        assert(digits@.subrange(0, digits@.len() as int) =~= digits@);
    }
    match m {
        None => {
            proof {
                assert forall|n: int| i128::MIN < n <= i128::MAX && int_text(n) == t@ implies false by {
                    if n < 0 {
                        lemma_nat_text_shape((-n) as nat);
                        assert(digits@ =~= nat_text((-n) as nat));
                    } else {
                        lemma_nat_text_shape(n as nat);
                        assert(t@[0] == nat_text(n as nat)[0]);
                        assert(digits@ =~= nat_text(n as nat));
                    }
                }
            }
            None
        },
        Some(m) => {
            if m > 170141183460469231731687303715884105727u128 {
                proof {
                    assert forall|n: int| i128::MIN < n <= i128::MAX && int_text(n) == t@ implies false by {
                        if n < 0 {
                            lemma_nat_text_shape((-n) as nat);
                            assert(digits@ =~= nat_text((-n) as nat));
                        } else {
                            lemma_nat_text_shape(n as nat);
                            assert(t@[0] == nat_text(n as nat)[0]);
                            assert(digits@ =~= nat_text(n as nat));
                        }
                    }
                }
                return None;
            }
            let v: i128 = if neg { -(m as i128) } else { m as i128 };
            proof {
                if neg {
                    assert(t@ =~= seq![45u8] + digits@);
                    assert(m >= 1);
                } else {
                    assert(t@ =~= digits@);
                }
                assert forall|n: int| i128::MIN < n <= i128::MAX && int_text(n) == t@ implies n == v by {
                    if n < 0 {
                        lemma_nat_text_shape((-n) as nat);
                        assert(digits@ =~= nat_text((-n) as nat));
                    } else {
                        lemma_nat_text_shape(n as nat);
                        assert(t@[0] == nat_text(n as nat)[0]);
                        assert(digits@ =~= nat_text(n as nat));
                    }
                }
            }
            Some(v)
        },
    }
}

} // verus!
