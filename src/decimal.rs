use vstd::prelude::*;

verus! {

/// ASCII code of the digit zero.
pub const ZERO: u8 = 48;

/// `b` is an ASCII decimal digit.
pub open spec fn is_digit(b: u8) -> bool {
    ZERO <= b <= ZERO + 9
}

/// Decimal ASCII text of `n`, without leading zeros (`"0"` for zero).
pub open spec fn decimal(n: nat) -> Seq<u8>
    decreases n,
{
    if n < 10 {
        seq![(n + ZERO) as u8]
    } else {
        decimal(n / 10).push((n % 10 + ZERO) as u8)
    }
}

/// The number that a string of decimal digits denotes.
pub open spec fn digits_value(s: Seq<u8>) -> nat
    decreases s.len(),
{
    if s.len() == 0 {
        0
    } else {
        digits_value(s.drop_last()) * 10 + (s.last() - ZERO) as nat
    }
}

/// A number read from decimal text: a nonempty run of digits whose value
/// does not exceed `bound`.
pub open spec fn read_number(s: Seq<u8>, bound: nat) -> Option<nat> {
    if s.len() > 0 && (forall|i: int| 0 <= i < s.len() ==> is_digit(#[trigger] s[i]))
        && digits_value(s) <= bound {
        Some(digits_value(s))
    } else {
        None
    }
}

/// Decimal text is a nonempty run of digits that reads back as the number.
pub proof fn lemma_decimal_reads_back(n: nat)
    ensures
        decimal(n).len() > 0,
        forall|i: int| 0 <= i < decimal(n).len() ==> is_digit(#[trigger] decimal(n)[i]),
        digits_value(decimal(n)) == n,
        !decimal(n).contains(0u8),
        !decimal(n).contains(32u8),
    decreases n,
{
    if n >= 10 {
        lemma_decimal_reads_back(n / 10);
        assert(decimal(n).drop_last() =~= decimal(n / 10));
        assert(decimal(n) =~= decimal(n / 10).push((n % 10 + ZERO) as u8));
        assert(decimal(n).last() - ZERO == n % 10);
        assert(n == (n / 10) * 10 + n % 10);
        assert(digits_value(decimal(n)) == digits_value(decimal(n / 10)) * 10 + (n % 10));
    } else {
        assert(decimal(n).drop_last() =~= Seq::<u8>::empty());
        assert(digits_value(decimal(n)) == digits_value(Seq::<u8>::empty()) * 10 + n);
    }
}

/// Appends the decimal text of `n` to `out`.
pub fn push_decimal(out: &mut Vec<u8>, n: u64)
    ensures
        final(out)@ == old(out)@ + decimal(n as nat),
    decreases n,
{
    if n >= 10 {
        push_decimal(out, n / 10);
    }
    out.push((n % 10) as u8 + ZERO);
    assert(decimal(n as nat) =~= if n < 10 {
        seq![((n % 10) as u8 + ZERO) as u8]
    } else {
        decimal((n / 10) as nat).push(((n % 10) as u8 + ZERO) as u8)
    });
}

/// Reads the decimal number in `s[from..to]`, if it is a nonempty run of
/// digits whose value is at most `bound`.
pub fn parse_number(s: &[u8], from: usize, to: usize, bound: u64) -> (r: Option<u64>)
    requires
        from <= to <= s@.len(),
    ensures
        match r {
            Some(v) => read_number(s@.subrange(from as int, to as int), bound as nat) == Some(
                v as nat,
            ),
            None => read_number(s@.subrange(from as int, to as int), bound as nat) is None,
        },
{
    if from == to {
        return None;
    }
    let mut acc: u128 = 0;
    let mut too_big = false;
    let mut i = from;
    while i < to
        invariant
            from <= i <= to <= s@.len(),
            forall|k: int| from <= k < i ==> is_digit(#[trigger] s@[k]),
            too_big ==> digits_value(s@.subrange(from as int, i as int)) > bound,
            !too_big ==> acc == digits_value(s@.subrange(from as int, i as int)),
            !too_big ==> acc <= bound,
        decreases to - i,
    {
        let b = s[i];
        if b < ZERO || b > ZERO + 9 {
            assert(!is_digit(s@.subrange(from as int, to as int)[i - from]));
            return None;
        }
        let ghost prefix = s@.subrange(from as int, i as int);
        let ghost next = s@.subrange(from as int, i + 1 as int);
        assert(next.drop_last() =~= prefix);
        assert(next.last() == b);
        if !too_big {
            acc = acc * 10 + (b - ZERO) as u128;
            if acc > bound as u128 {
                too_big = true;
            }
        } else {
            assert(digits_value(next) >= digits_value(prefix)) by (nonlinear_arith)
                requires
                    digits_value(next) == digits_value(prefix) * 10 + (b - ZERO) as nat,
            ;
        }
        i = i + 1;
    }
    let ghost whole = s@.subrange(from as int, to as int);
    assert(forall|k: int| 0 <= k < whole.len() ==> is_digit(#[trigger] whole[k])) by {
        assert(forall|k: int| 0 <= k < whole.len() ==> whole[k] == s@[from + k]);
    }
    if too_big {
        None
    } else {
        Some(acc as u64)
    }
}

} // verus!
