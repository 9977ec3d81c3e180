use vstd::arithmetic::div_mod::{lemma_breakdown, lemma_fundamental_div_mod};
use vstd::prelude::*;

verus! {

/// `16^n`.
pub open spec fn pow16(n: nat) -> nat
    decreases n,
{
    if n == 0 {
        1
    } else {
        16 * pow16((n - 1) as nat)
    }
}

/// Whether `c` is a hexadecimal digit, in either case.
pub open spec fn is_hex_char(c: char) -> bool {
    ('0' <= c && c <= '9') || ('a' <= c && c <= 'f') || ('A' <= c && c <= 'F')
}

/// Whether `c` is a lowercase hexadecimal digit.
pub open spec fn is_lower_hex_char(c: char) -> bool {
    ('0' <= c && c <= '9') || ('a' <= c && c <= 'f')
}

/// The value of a hexadecimal digit (0 for any other character).
pub open spec fn hex_digit_value(c: char) -> nat {
    if '0' <= c && c <= '9' {
        (c as int - '0' as int) as nat
    } else if 'a' <= c && c <= 'f' {
        (c as int - 'a' as int + 10) as nat
    } else if 'A' <= c && c <= 'F' {
        (c as int - 'A' as int + 10) as nat
    } else {
        0
    }
}

/// The lowercase hexadecimal digit of `d` (`d < 16`).
pub open spec fn hex_char(d: nat) -> char {
    if d < 10 {
        if d == 0 { '0' } else if d == 1 { '1' } else if d == 2 { '2' } else if d == 3 { '3' }
        else if d == 4 { '4' } else if d == 5 { '5' } else if d == 6 { '6' } else if d == 7 { '7' }
        else if d == 8 { '8' } else { '9' }
    } else {
        if d == 10 { 'a' } else if d == 11 { 'b' } else if d == 12 { 'c' } else if d == 13 { 'd' }
        else if d == 14 { 'e' } else { 'f' }
    }
}

/// A non-empty run of hexadecimal digits.
pub open spec fn is_hex_digits(s: Seq<char>) -> bool {
    s.len() > 0 && forall|i: int| 0 <= i < s.len() ==> #[trigger] is_hex_char(s[i])
}

/// The number that a run of hexadecimal digits denotes, most significant first.
pub open spec fn hex_value(s: Seq<char>) -> nat
    decreases s.len(),
{
    if s.len() == 0 {
        0
    } else {
        hex_value(s.drop_last()) * 16 + hex_digit_value(s.last())
    }
}

/// The last `n` lowercase hexadecimal digits of `v`, zero-padded to width `n`.
pub open spec fn fixed_hex(v: nat, n: nat) -> Seq<char>
    decreases n,
{
    if n == 0 {
        Seq::empty()
    } else {
        fixed_hex(v / 16, (n - 1) as nat).push(hex_char(v % 16))
    }
}

/// The lowercase hexadecimal digits of `v` without leading zeros (`"0"` for zero).
pub open spec fn natural_hex(v: nat) -> Seq<char>
    decreases v,
{
    if v < 16 {
        seq![hex_char(v)]
    } else {
        natural_hex(v / 16).push(hex_char(v % 16))
    }
}

/// Each digit is a lowercase hexadecimal character that reads back as itself.
pub proof fn lemma_hex_char(d: nat)
    requires
        d < 16,
    ensures
        is_hex_char(hex_char(d)),
        is_lower_hex_char(hex_char(d)),
        hex_digit_value(hex_char(d)) == d,
{
}

/// Appending a digit multiplies by sixteen and adds the digit.
pub proof fn lemma_hex_value_push(s: Seq<char>, c: char)
    ensures
        hex_value(s.push(c)) == hex_value(s) * 16 + hex_digit_value(c),
{
    assert(s.push(c).drop_last() =~= s);
}

/// Fixed digits have the requested width and are lowercase hexadecimal.
pub proof fn lemma_fixed_hex_shape(v: nat, n: nat)
    ensures
        fixed_hex(v, n).len() == n,
        n > 0 ==> is_hex_digits(fixed_hex(v, n)),
        forall|i: int| 0 <= i < n ==> #[trigger] is_lower_hex_char(fixed_hex(v, n)[i]),
    decreases n,
{
    if n > 0 {
        lemma_fixed_hex_shape(v / 16, (n - 1) as nat);
        lemma_hex_char(v % 16);
        let s = fixed_hex(v, n);
        assert forall|i: int| 0 <= i < n implies #[trigger] is_lower_hex_char(s[i]) by {
            if i < n - 1 {
                assert(s[i] == fixed_hex(v / 16, (n - 1) as nat)[i]);
            }
        }
        assert forall|i: int| 0 <= i < n implies #[trigger] is_hex_char(s[i]) by {
            assert(is_lower_hex_char(s[i]));
        }
    }
}

/// Lowercase digits read and written back at their own width are unchanged.
pub proof fn lemma_fixed_hex_of_value(s: Seq<char>)
    requires
        forall|i: int| 0 <= i < s.len() ==> #[trigger] is_lower_hex_char(s[i]),
    ensures
        fixed_hex(hex_value(s), s.len()) =~= s,
    decreases s.len(),
{
    if s.len() > 0 {
        let p = s.drop_last();
        let c = s.last();
        assert(is_lower_hex_char(s[s.len() - 1]));
        assert forall|i: int| 0 <= i < p.len() implies #[trigger] is_lower_hex_char(p[i]) by {
            assert(p[i] == s[i]);
        }
        lemma_fixed_hex_of_value(p);
        let d = hex_digit_value(c);
        assert(d < 16);
        assert(hex_char(d) == c);
        let v = hex_value(s);
        assert(v == hex_value(p) * 16 + d);
        assert(v / 16 == hex_value(p) && v % 16 == d) by {
            vstd::arithmetic::div_mod::lemma_fundamental_div_mod_converse(
                v as int,
                16,
                hex_value(p) as int,
                d as int,
            );
        }
        assert(s =~= p.push(c));
    }
}

/// Reading back `n` fixed digits of `v` gives `v` modulo `16^n`.
pub proof fn lemma_fixed_hex_value(v: nat, n: nat)
    ensures
        hex_value(fixed_hex(v, n)) == v % pow16(n),
    decreases n,
{
    if n == 0 {
        assert(fixed_hex(v, n) =~= Seq::<char>::empty());
        assert(v % 1 == 0);
    } else {
        let m = (n - 1) as nat;
        lemma_fixed_hex_value(v / 16, m);
        lemma_hex_value_push(fixed_hex(v / 16, m), hex_char(v % 16));
        lemma_hex_char(v % 16);
        lemma_pow16_positive(m);
        lemma_breakdown(v as int, 16, pow16(m) as int);
    }
}

/// Powers of sixteen are positive.
pub proof fn lemma_pow16_positive(n: nat)
    ensures
        pow16(n) > 0,
    decreases n,
{
    if n > 0 {
        lemma_pow16_positive((n - 1) as nat);
    }
}

/// `16^(a + b) == 16^a * 16^b`.
pub proof fn lemma_pow16_add(a: nat, b: nat)
    ensures
        pow16(a + b) == pow16(a) * pow16(b),
    decreases b,
{
    if b == 0 {
        assert(pow16(0) == 1);
        assert(a + b == a);
    } else {
        let c = (b - 1) as nat;
        lemma_pow16_add(a, c);
        assert(a + b == (a + c) + 1);
        assert(pow16(a + b) == 16 * pow16(a + c));
        assert(pow16(b) == 16 * pow16(c));
        assert(pow16(a) * (16 * pow16(c)) == 16 * (pow16(a) * pow16(c))) by (nonlinear_arith);
    }
}

/// The two last of `n >= 2` fixed digits are the two fixed digits of the same value.
pub proof fn lemma_fixed_hex_tail(v: nat, n: nat)
    requires
        n >= 2,
    ensures
        fixed_hex(v, n).subrange(n - 2, n as int) =~= fixed_hex(v, 2),
{
    let b = fixed_hex(v / 16 / 16, (n - 2) as nat);
    lemma_fixed_hex_shape(v / 16 / 16, (n - 2) as nat);
    let a = fixed_hex(v / 16, (n - 1) as nat);
    assert(a == b.push(hex_char((v / 16) % 16)));
    assert(fixed_hex(v / 16 / 16, 0) =~= Seq::<char>::empty());
    assert(fixed_hex(v / 16, 1) =~= seq![hex_char((v / 16) % 16)]);
    assert(fixed_hex(v, 2) =~= seq![hex_char((v / 16) % 16), hex_char(v % 16)]);
    assert(fixed_hex(v, n) == b.push(hex_char((v / 16) % 16)).push(hex_char(v % 16)));
}

/// A value below `16^n` has at most `n` natural digits.
pub proof fn lemma_natural_hex_len(v: nat, n: nat)
    requires
        v < pow16(n),
    ensures
        1 <= natural_hex(v).len() <= if n == 0 { 1 } else { n },
    decreases v,
{
    if v >= 16 {
        assert(n >= 2) by {
            if n == 0 {
            } else if n == 1 {
                assert(pow16(1) == 16 * pow16(0));
            }
        }
        let m = (n - 1) as nat;
        assert(v / 16 < pow16(m)) by {
            lemma_fundamental_div_mod(v as int, 16);
        }
        lemma_natural_hex_len(v / 16, m);
    }
}

/// Natural digits are a non-empty run of hexadecimal digits.
pub proof fn lemma_natural_hex_shape(v: nat)
    ensures
        is_hex_digits(natural_hex(v)),
    decreases v,
{
    lemma_hex_char(v % 16);
    if v >= 16 {
        lemma_natural_hex_shape(v / 16);
        let s = natural_hex(v);
        let p = natural_hex(v / 16);
        assert forall|i: int| 0 <= i < s.len() implies #[trigger] is_hex_char(s[i]) by {
            if i < s.len() - 1 {
                assert(s[i] == p[i]);
            }
        }
    } else {
        lemma_hex_char(v);
    }
}

/// Distinct values have distinct natural digits.
pub proof fn lemma_natural_hex_injective(a: nat, b: nat)
    requires
        natural_hex(a) == natural_hex(b),
    ensures
        a == b,
    decreases a + b,
{
    let (x, y) = (natural_hex(a), natural_hex(b));
    lemma_hex_char(a % 16);
    lemma_hex_char(b % 16);
    if a < 16 && b < 16 {
        lemma_hex_char(a);
        lemma_hex_char(b);
        assert(x[0] == hex_char(a) && y[0] == hex_char(b));
        assert(hex_digit_value(x[0]) == a && hex_digit_value(y[0]) == b);
    } else if a >= 16 && b >= 16 {
        assert(natural_hex(a / 16) =~= x.drop_last());
        assert(natural_hex(b / 16) =~= y.drop_last());
        assert(hex_digit_value(x.last()) == a % 16);
        assert(hex_digit_value(y.last()) == b % 16);
        lemma_natural_hex_injective(a / 16, b / 16);
        lemma_fundamental_div_mod(a as int, 16);
        lemma_fundamental_div_mod(b as int, 16);
    } else if a >= 16 {
        assert(false) by {
            lemma_natural_hex_grows(a);
        }
    } else {
        assert(false) by {
            lemma_natural_hex_grows(b);
        }
    }
}

/// Values of sixteen and above take at least two natural digits.
proof fn lemma_natural_hex_grows(v: nat)
    requires
        v >= 16,
    ensures
        natural_hex(v).len() >= 2,
{
    lemma_natural_hex_shape(v / 16);
}

} // verus!
