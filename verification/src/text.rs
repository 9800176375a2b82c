//! Decimal text of integers, of machine size and beyond.

use vstd::prelude::*;
use vstd::string::*;

verus! {

/// The character of a decimal digit; `'9'` for anything above eight.
pub open spec fn digit_char(d: int) -> char {
    if d <= 0 {
        '0'
    } else if d == 1 {
        '1'
    } else if d == 2 {
        '2'
    } else if d == 3 {
        '3'
    } else if d == 4 {
        '4'
    } else if d == 5 {
        '5'
    } else if d == 6 {
        '6'
    } else if d == 7 {
        '7'
    } else if d == 8 {
        '8'
    } else {
        '9'
    }
}

/// Decimal notation of a natural number, without leading zeros.
pub open spec fn decimal(n: nat) -> Seq<char>
    decreases n,
{
    if n < 10 {
        seq![digit_char(n as int)]
    } else {
        decimal(n / 10).push(digit_char((n % 10) as int))
    }
}

/// Decimal notation of an integer: a minus sign before the digits of a
/// negative number.
pub open spec fn int_text(i: int) -> Seq<char> {
    if i < 0 {
        seq!['-'] + decimal((-i) as nat)
    } else {
        decimal(i as nat)
    }
}

/// The number that a sequence of decimal digits stands for, least
/// significant digit first.
pub open spec fn digits_value(ds: Seq<u8>) -> nat
    decreases ds.len(),
{
    if ds.len() == 0 {
        0
    } else {
        ds[0] as nat + 10 * digits_value(ds.drop_first())
    }
}

/// Every entry is a decimal digit.
pub open spec fn all_digits(ds: Seq<u8>) -> bool {
    forall|i: int| 0 <= i < ds.len() ==> ds[i] < 10
}

/// Digits of a positive number: at least one, the most significant not zero.
pub open spec fn canonical(ds: Seq<u8>) -> bool {
    all_digits(ds) && ds.len() >= 1 && ds.last() != 0
}

/// The digits of `n`, least significant first.
pub open spec fn digits_of(n: nat) -> Seq<u8>
    decreases n,
{
    if n < 10 {
        seq![n as u8]
    } else {
        seq![(n % 10) as u8] + digits_of(n / 10)
    }
}

/// The digits of twice the number plus `carry`.
pub open spec fn doubled(ds: Seq<u8>, carry: nat) -> Seq<u8>
    decreases ds.len(),
{
    if ds.len() == 0 {
        if carry == 0 {
            Seq::empty()
        } else {
            seq![carry as u8]
        }
    } else {
        let t = 2 * ds[0] as nat + carry;
        seq![(t % 10) as u8] + doubled(ds.drop_first(), t / 10)
    }
}

/// The digits as text, most significant first.
pub open spec fn leading_text(ds: Seq<u8>) -> Seq<char>
    decreases ds.len(),
{
    if ds.len() == 0 {
        Seq::empty()
    } else {
        leading_text(ds.drop_first()).push(digit_char(ds[0] as int))
    }
}

/// The digits of a positive number are canonical and stand for it.
pub proof fn lemma_digits_of(n: nat)
    requires
        n >= 1,
    ensures
        canonical(digits_of(n)),
        digits_value(digits_of(n)) == n,
    decreases n,
{
    if n < 10 {
        let ds = digits_of(n);
        assert(ds.drop_first() =~= Seq::<u8>::empty());
        assert(digits_value(ds.drop_first()) == 0);
        assert(ds[0] == n);
    } else {
        lemma_digits_of(n / 10);
        let head = seq![(n % 10) as u8];
        let rest = digits_of(n / 10);
        assert((head + rest).drop_first() =~= rest);
        assert((head + rest).last() == rest.last());
        assert((head + rest)[0] == n % 10);
        assert(digits_value(head + rest) == n % 10 + 10 * digits_value(rest));
    }
}

/// Doubling keeps digits canonical and doubles what they stand for.
pub proof fn lemma_doubled(ds: Seq<u8>, carry: nat)
    requires
        all_digits(ds),
        carry <= 1,
    ensures
        all_digits(doubled(ds, carry)),
        digits_value(doubled(ds, carry)) == 2 * digits_value(ds) + carry,
        doubled(ds, carry).len() >= ds.len(),
        canonical(ds) ==> canonical(doubled(ds, carry)),
    decreases ds.len(),
{
    if ds.len() == 0 {
        if carry != 0 {
            let one = seq![carry as u8];
            assert(one.drop_first() =~= Seq::<u8>::empty());
            assert(digits_value(one.drop_first()) == 0);
            assert(one[0] == carry);
        } else {
            assert(digits_value(Seq::<u8>::empty()) == 0);
        }
    } else {
        let t = 2 * ds[0] as nat + carry;
        let rest = ds.drop_first();
        assert(all_digits(rest));
        lemma_doubled(rest, t / 10);
        let head = seq![(t % 10) as u8];
        let tail = doubled(rest, t / 10);
        assert((head + tail).drop_first() =~= tail);
        assert((head + tail)[0] == t % 10);
        assert(digits_value(head + tail) == t % 10 + 10 * digits_value(tail));
        if canonical(ds) {
            if rest.len() == 0 {
                assert(ds.last() == ds[0]);
                if t / 10 == 0 {
                    assert(tail =~= Seq::<u8>::empty());
                    assert((head + tail).last() == head[0]);
                } else {
                    assert((head + tail).last() == tail.last());
                }
            } else {
                assert(rest.last() == ds.last());
                assert(canonical(rest));
                assert((head + tail).last() == tail.last());
            }
        }
    }
}

/// Canonical digits stand for a positive number.
pub proof fn lemma_canonical_positive(ds: Seq<u8>)
    requires
        canonical(ds),
    ensures
        digits_value(ds) >= 1,
    decreases ds.len(),
{
    let rest = ds.drop_first();
    if rest.len() == 0 {
        assert(ds.last() == ds[0]);
    } else {
        assert(rest.last() == ds.last());
        lemma_canonical_positive(rest);
    }
}

/// Canonical digits, read from the most significant one, are the decimal
/// notation of the number they stand for.
pub proof fn lemma_leading_text(ds: Seq<u8>)
    requires
        canonical(ds),
    ensures
        leading_text(ds) == decimal(digits_value(ds)),
    decreases ds.len(),
{
    let rest = ds.drop_first();
    if rest.len() == 0 {
        assert(leading_text(rest) =~= Seq::<char>::empty());
        assert(digits_value(rest) == 0);
        assert(leading_text(ds) =~= seq![digit_char(ds[0] as int)]);
    } else {
        assert(rest.last() == ds.last());
        lemma_canonical_positive(rest);
        lemma_leading_text(rest);
        let v = digits_value(ds);
        assert(v / 10 == digits_value(rest));
        assert(v % 10 == ds[0] as nat);
    }
}

/// The one-character text of a decimal digit.
pub fn digit_str(d: u8) -> (s: &'static str)
    requires
        d < 10,
    ensures
        s@ == seq![digit_char(d as int)],
{
    proof {
        reveal_strlit("0");
        reveal_strlit("1");
        reveal_strlit("2");
        reveal_strlit("3");
        reveal_strlit("4");
        reveal_strlit("5");
        reveal_strlit("6");
        reveal_strlit("7");
        reveal_strlit("8");
        reveal_strlit("9");
    }
    let s = if d == 0 {
        "0"
    } else if d == 1 {
        "1"
    } else if d == 2 {
        "2"
    } else if d == 3 {
        "3"
    } else if d == 4 {
        "4"
    } else if d == 5 {
        "5"
    } else if d == 6 {
        "6"
    } else if d == 7 {
        "7"
    } else if d == 8 {
        "8"
    } else {
        "9"
    };
    assert(s@ =~= seq![digit_char(d as int)]);
    s
}

/// Appends the decimal notation of `n` to `out`.
pub fn push_decimal(out: &mut String, n: u64)
    ensures
        final(out)@ == old(out)@ + decimal(n as nat),
    decreases n,
{
    if n >= 10 {
        push_decimal(out, n / 10);
    }
    let ghost before = out@;
    out.append(digit_str((n % 10) as u8));
    proof {
        if n >= 10 {
            assert(before == old(out)@ + decimal((n / 10) as nat));
            assert(out@ =~= old(out)@ + decimal(n as nat));
        } else {
            assert(out@ =~= old(out)@ + decimal(n as nat));
        }
    }
}

/// Decimal notation of a signed integer.
pub fn int_to_text(i: i64) -> (s: String)
    ensures
        s@ == int_text(i as int),
{
    let mut s = String::new();
    if i < 0 {
        proof {
            reveal_strlit("-");
        }
        s.append("-");
        let magnitude: u64 = ((-(i + 1)) as u64) + 1;
        push_decimal(&mut s, magnitude);
        assert(s@ =~= int_text(i as int));
    } else {
        push_decimal(&mut s, i as u64);
        assert(s@ =~= int_text(i as int));
    }
    s
}

/// The decimal digits of `n`, least significant first.
pub fn digits_from(n: u64) -> (ds: Vec<u8>)
    ensures
        ds@ == digits_of(n as nat),
{
    let mut ds: Vec<u8> = Vec::new();
    let mut rest: u64 = n;
    while rest >= 10
        invariant
            ds@ + digits_of(rest as nat) == digits_of(n as nat),
        decreases rest,
    {
        let ghost before = ds@;
        ds.push((rest % 10) as u8);
        proof {
            assert(ds@ + digits_of((rest / 10) as nat) =~= before + digits_of(rest as nat));
        }
        rest = rest / 10;
    }
    let ghost before = ds@;
    ds.push(rest as u8);
    proof {
        assert(ds@ =~= before + digits_of(rest as nat));
    }
    ds
}

/// The digits of twice the number that `ds` stands for.
pub fn double_digits(ds: &Vec<u8>) -> (out: Vec<u8>)
    requires
        all_digits(ds@),
    ensures
        out@ == doubled(ds@, 0),
{
    let mut out: Vec<u8> = Vec::new();
    let mut carry: u8 = 0;
    let mut i: usize = 0;
    proof {
        assert(ds@.skip(0) =~= ds@);
        assert(out@ + doubled(ds@, 0) =~= doubled(ds@, 0));
    }
    while i < ds.len()
        invariant
            i <= ds.len(),
            carry <= 1,
            all_digits(ds@),
            out@ + doubled(ds@.skip(i as int), carry as nat) == doubled(ds@, 0),
        decreases ds.len() - i,
    {
        let t: u8 = 2 * ds[i] + carry;
        let ghost before = out@;
        let ghost suffix = ds@.skip(i as int);
        out.push(t % 10);
        proof {
            assert(suffix[0] == ds@[i as int]);
            assert(suffix.drop_first() =~= ds@.skip(i + 1));
            assert(out@ + doubled(ds@.skip(i + 1), (t / 10) as nat) =~= before + doubled(
                suffix,
                carry as nat,
            ));
        }
        carry = t / 10;
        i = i + 1;
    }
    let ghost before = out@;
    proof {
        assert(ds@.skip(i as int).len() == 0);
    }
    if carry != 0 {
        out.push(carry);
    }
    proof {
        assert(out@ =~= before + doubled(ds@.skip(i as int), carry as nat));
    }
    out
}

/// The digits as text, most significant first.
pub fn digits_to_text(ds: &Vec<u8>) -> (s: String)
    requires
        all_digits(ds@),
    ensures
        s@ == leading_text(ds@),
{
    let mut s = String::new();
    let mut i: usize = ds.len();
    proof {
        assert(ds@.skip(i as int).len() == 0);
        assert(s@ =~= leading_text(ds@.skip(i as int)));
    }
    while i > 0
        invariant
            i <= ds.len(),
            all_digits(ds@),
            s@ == leading_text(ds@.skip(i as int)),
        decreases i,
    {
        i = i - 1;
        let ghost before = s@;
        s.append(digit_str(ds[i]));
        proof {
            let suffix = ds@.skip(i as int);
            assert(suffix[0] == ds@[i as int]);
            assert(suffix.drop_first() =~= ds@.skip(i + 1));
            assert(s@ =~= leading_text(suffix));
        }
    }
    proof {
        assert(ds@.skip(0) =~= ds@);
    }
    s
}

/// Whether the two texts are the same.
pub fn same_text(a: &str, b: &str) -> (same: bool)
    ensures
        same == (a@ == b@),
{
    let n = a.unicode_len();
    if n != b.unicode_len() {
        return false;
    }
    let mut i: usize = 0;
    while i < n
        invariant
            i <= n,
            n == a@.len(),
            n == b@.len(),
            forall|j: int| 0 <= j < i ==> a@[j] == b@[j],
        decreases n - i,
    {
        if a.get_char(i) != b.get_char(i) {
            return false;
        }
        i = i + 1;
    }
    assert(a@ =~= b@);
    true
}

} // verus!
