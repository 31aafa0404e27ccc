//! Canonical integer-index property keys: the keys that own-property
//! enumeration lists first, in numeric order.

use vstd::prelude::*;

verus! {

pub open spec fn is_digit_char(c: char) -> bool {
    '0' <= c && c <= '9'
}

/// The number a string of decimal digits spells.
pub open spec fn decimal_value(s: Seq<char>) -> nat
    decreases s.len(),
{
    if s.len() == 0 {
        0
    } else {
        decimal_value(s.drop_last()) * 10 + ((s.last() as u32) - ('0' as u32)) as nat
    }
}

/// `s` is the canonical decimal form of an index that fits in 32 bits: one
/// to ten digits, no leading zero unless it is `"0"`.
pub open spec fn spec_canonical_integer_index(s: Seq<char>) -> Option<u32> {
    if 1 <= s.len() <= 10 && !(s.len() > 1 && s[0] == '0') && (forall|i: int| 0 <= i < s.len() ==> is_digit_char(
        #[trigger] s[i],
    )) && decimal_value(s) <= u32::MAX {
        Some(decimal_value(s) as u32)
    } else {
        None
    }
}

proof fn lemma_decimal_bound(s: Seq<char>)
    requires
        forall|i: int| 0 <= i < s.len() ==> is_digit_char(#[trigger] s[i]),
    ensures
        decimal_value(s) < vstd::arithmetic::power::pow(10, s.len()),
    decreases s.len(),
{
    reveal(vstd::arithmetic::power::pow);
    if s.len() > 0 {
        let t = s.drop_last();
        assert forall|i: int| 0 <= i < t.len() implies is_digit_char(#[trigger] t[i]) by {
            assert(t[i] == s[i]);
        }
        lemma_decimal_bound(t);
        assert(is_digit_char(s[s.len() - 1]));
        let p = vstd::arithmetic::power::pow(10, t.len());
        assert(decimal_value(s) < p * 10) by (nonlinear_arith)
            requires
                decimal_value(s) == decimal_value(t) * 10 + ((s.last() as u32) - ('0' as u32)) as nat,
                decimal_value(t) < p,
                ((s.last() as u32) - ('0' as u32)) as nat <= 9;
        assert(vstd::arithmetic::power::pow(10, s.len()) == 10 * p);
    }
}

/// The index `s` names when it is a canonical 32-bit integer index.
pub fn canonical_integer_index(s: &str) -> (r: Option<u32>)
    ensures
        r == spec_canonical_integer_index(s@),
{
    let n = s.unicode_len();
    if n == 0 || n > 10 {
        return None;
    }
    if n > 1 && s.get_char(0) == '0' {
        return None;
    }
    let mut value: u64 = 0;
    let mut i: usize = 0;
    proof {
        reveal(vstd::arithmetic::power::pow);
        assert(vstd::arithmetic::power::pow(10, 0) == 1);
        assert(s@.take(0) =~= Seq::<char>::empty());
    }
    while i < n
        invariant
            n == s@.len(),
            1 <= n <= 10,
            i <= n,
            forall|j: int| 0 <= j < i ==> is_digit_char(#[trigger] s@[j]),
            value == decimal_value(s@.take(i as int)),
            value < vstd::arithmetic::power::pow(10, i as nat),
        decreases n - i,
    {
        let c = s.get_char(i);
        if !('0' <= c && c <= '9') {
            return None;
        }
        let d = (c as u32) - ('0' as u32);
        proof {
            assert(s@.take(i + 1).drop_last() =~= s@.take(i as int));
            assert(s@.take(i + 1).last() == c);
            assert forall|j: int| 0 <= j < i + 1 implies is_digit_char(#[trigger] s@.take(i + 1)[j]) by {}
            lemma_decimal_bound(s@.take(i + 1));
            lemma_pow10_bound(i as nat);
        }
        value = value * 10 + d as u64;
        i += 1;
    }
    proof {
        assert(s@.take(n as int) =~= s@);
    }
    if value <= u32::MAX as u64 {
        Some(value as u32)
    } else {
        None
    }
}

proof fn lemma_pow10_bound(i: nat)
    requires
        i <= 10,
    ensures
        vstd::arithmetic::power::pow(10, i) <= 10_000_000_000,
        vstd::arithmetic::power::pow(10, i + 1) == 10 * vstd::arithmetic::power::pow(10, i),
{
    reveal_with_fuel(vstd::arithmetic::power::pow, 12);
    vstd::arithmetic::power::lemma_pow_increases(10, i, 10);
}

/// The decimal digit character of `d` (below ten).
pub open spec fn digit_char(d: nat) -> char {
    ((('0' as u32) + d) as u32) as char
}

/// The decimal text of `n`, without leading zeros.
pub open spec fn decimal_text(n: nat) -> Seq<char>
    decreases n,
{
    if n < 10 {
        seq![digit_char(n)]
    } else {
        decimal_text(n / 10).push(digit_char(n % 10))
    }
}

proof fn lemma_digit_char(d: nat)
    requires
        d < 10,
    ensures
        is_digit_char(digit_char(d)),
        ((digit_char(d) as u32) - ('0' as u32)) as nat == d,
        d != 0 ==> digit_char(d) != '0',
{
}

proof fn lemma_decimal_text(n: nat)
    ensures
        decimal_text(n).len() >= 1,
        forall|i: int| 0 <= i < decimal_text(n).len() ==> is_digit_char(#[trigger] decimal_text(n)[i]),
        decimal_value(decimal_text(n)) == n,
        n != 0 ==> decimal_text(n)[0] != '0',
        decimal_text(n).len() > 1 ==> n >= 10,
        n < vstd::arithmetic::power::pow(10, (decimal_text(n).len() - 1) as nat) * 10,
        n >= vstd::arithmetic::power::pow(10, (decimal_text(n).len() - 1) as nat) || n < 10,
    decreases n,
{
    reveal(vstd::arithmetic::power::pow);
    if n < 10 {
        lemma_digit_char(n);
        assert(decimal_text(n).drop_last() =~= Seq::<char>::empty());
        assert(decimal_value(Seq::<char>::empty()) == 0);
        assert(decimal_value(decimal_text(n)) == decimal_value(decimal_text(n).drop_last()) * 10 + ((
        decimal_text(n).last() as u32) - ('0' as u32)) as nat);
    } else {
        lemma_decimal_text(n / 10);
        lemma_digit_char(n % 10);
        let t = decimal_text(n / 10);
        assert(decimal_text(n).drop_last() =~= t);
        assert(decimal_value(decimal_text(n)) == decimal_value(decimal_text(n).drop_last()) * 10 + ((
        decimal_text(n).last() as u32) - ('0' as u32)) as nat);
        assert forall|i: int| 0 <= i < decimal_text(n).len() implies is_digit_char(#[trigger] decimal_text(n)[i]) by {
            if i < t.len() {
                assert(decimal_text(n)[i] == t[i]);
            }
        }
        assert(decimal_text(n)[0] == t[0]);
        let p = vstd::arithmetic::power::pow(10, (t.len() - 1) as nat);
        assert(vstd::arithmetic::power::pow(10, t.len() as nat) == 10 * p) by {
            assert((t.len() - 1 + 1) as nat == t.len());
        }
        assert(n == (n / 10) * 10 + n % 10);
        assert(n < p * 10 * 10) by (nonlinear_arith)
            requires
                n / 10 < p * 10,
                n == (n / 10) * 10 + n % 10,
                n % 10 < 10,
        ;
        if n / 10 >= 10 {
            assert(n >= p * 10) by (nonlinear_arith)
                requires
                    n / 10 >= p,
                    n == (n / 10) * 10 + n % 10,
            ;
        } else {
            assert(t.len() == 1);
            assert(p == 1);
        }
    }
}

/// Canonical integer indices are exactly the decimal texts of the 32-bit
/// numbers: the text of every `n` is read back as `n`, and a text read as
/// an index is that index's text (so `"01"`, `"+1"`, `""` and texts past
/// 4294967295 are no indices).
pub proof fn law_integer_index_round_trip(n: u32, s: Seq<char>)
    ensures
        spec_canonical_integer_index(decimal_text(n as nat)) == Some(n),
        spec_canonical_integer_index(s) matches Some(v) ==> s == decimal_text(v as nat),
{
    lemma_decimal_text(n as nat);
    let t = decimal_text(n as nat);
    if t.len() > 10 {
        reveal(vstd::arithmetic::power::pow);
        assert(vstd::arithmetic::power::pow(10, 0) == 1);
        lemma_pow10_bound(0);
        lemma_pow10_bound(1);
        lemma_pow10_bound(2);
        lemma_pow10_bound(3);
        lemma_pow10_bound(4);
        lemma_pow10_bound(5);
        lemma_pow10_bound(6);
        lemma_pow10_bound(7);
        lemma_pow10_bound(8);
        lemma_pow10_bound(9);
        assert(vstd::arithmetic::power::pow(10, 10) == 10_000_000_000);
        vstd::arithmetic::power::lemma_pow_increases(10, 10, (t.len() - 1) as nat);
        assert(false);
    }
    if t.len() > 1 {
        assert(t[0] != '0');
    }
    if let Some(v) = spec_canonical_integer_index(s) {
        lemma_canonical_is_text(s);
    }
}

proof fn lemma_canonical_is_text(s: Seq<char>)
    requires
        s.len() >= 1,
        !(s.len() > 1 && s[0] == '0'),
        forall|i: int| 0 <= i < s.len() ==> is_digit_char(#[trigger] s[i]),
    ensures
        s == decimal_text(decimal_value(s)),
        s.len() > 1 ==> decimal_value(s) >= 10,
    decreases s.len(),
{
    let d = ((s.last() as u32) - ('0' as u32)) as nat;
    assert(is_digit_char(s.last()));
    if s.len() == 1 {
        assert(s.drop_last() =~= Seq::<char>::empty());
        assert(decimal_value(Seq::<char>::empty()) == 0);
        assert(decimal_value(s) == decimal_value(s.drop_last()) * 10 + d);
        assert(decimal_value(s) == d);
        assert(digit_char(d) == s[0]);
        assert(s =~= seq![digit_char(d)]);
    } else {
        let t = s.drop_last();
        assert forall|i: int| 0 <= i < t.len() implies is_digit_char(#[trigger] t[i]) by {
            assert(t[i] == s[i]);
        }
        assert(t[0] == s[0]);
        lemma_canonical_is_text(t);
        if t.len() == 1 {
            assert(t[0] != '0');
            assert(decimal_value(t) == ((t[0] as u32) - ('0' as u32)) as nat) by {
                assert(t.drop_last() =~= Seq::<char>::empty());
                assert(decimal_value(Seq::<char>::empty()) == 0);
                assert(decimal_value(t) == decimal_value(t.drop_last()) * 10 + ((t.last() as u32) - ('0'
                    as u32)) as nat);
            }
            assert(decimal_value(t) >= 1);
        }
        let v = decimal_value(s);
        assert(v == decimal_value(t) * 10 + d);
        assert(v / 10 == decimal_value(t) && v % 10 == d) by (nonlinear_arith)
            requires
                v == decimal_value(t) * 10 + d,
                d < 10,
        ;
        assert(digit_char(d) == s.last());
        assert(s =~= t.push(s.last()));
    }
}

} // verus!
