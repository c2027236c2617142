//! Byte strings: copying, and numbers written in decimal.

use vstd::prelude::*;

verus! {

/// The byte `0`.
pub const ZERO: u8 = 48;

/// The byte `9`.
pub const NINE: u8 = 57;

/// Whether `byte` is a decimal digit.
pub open spec fn is_digit(byte: u8) -> bool {
    ZERO <= byte <= NINE
}

/// `n` written in decimal, without sign and without leading zeros.
pub open spec fn decimal(n: nat) -> Seq<u8>
    decreases n,
{
    if n < 10 {
        seq![(ZERO + n) as u8]
    } else {
        decimal(n / 10).push((ZERO + n % 10) as u8)
    }
}

/// The number that the digits of `text` stand for, read as decimal; the
/// empty text stands for zero.
pub open spec fn decimal_value(text: Seq<u8>) -> nat
    decreases text.len(),
{
    if text.len() == 0 {
        0
    } else {
        (decimal_value(text.drop_last()) * 10 + (text.last() - ZERO)) as nat
    }
}

/// The first place at or after `from` where `text` holds no digit; the
/// length of `text` where digits run to its end.
pub open spec fn digits_end(text: Seq<u8>, from: int) -> int
    decreases text.len() - from,
{
    if 0 <= from < text.len() && is_digit(text[from]) {
        digits_end(text, from + 1)
    } else {
        from
    }
}

/// Where `digits_end` lies, and that it bounds a run of digits.
pub proof fn lemma_digits_end(text: Seq<u8>, from: int)
    requires
        0 <= from <= text.len(),
    ensures
        from <= digits_end(text, from) <= text.len(),
        forall|i: int| from <= i < digits_end(text, from) ==> is_digit(#[trigger] text[i]),
        digits_end(text, from) < text.len() ==> !is_digit(text[digits_end(text, from)]),
    decreases text.len() - from,
{
    if from < text.len() && is_digit(text[from]) {
        lemma_digits_end(text, from + 1);
    }
}

/// A run of digits that ends in a byte that is no digit, or at the end of the
/// text, is the run that `digits_end` finds.
pub proof fn lemma_digits_end_is(text: Seq<u8>, from: int, end: int)
    requires
        0 <= from <= end <= text.len(),
        forall|i: int| from <= i < end ==> is_digit(#[trigger] text[i]),
        end < text.len() ==> !is_digit(text[end]),
    ensures
        digits_end(text, from) == end,
    decreases end - from,
{
    if from < end {
        lemma_digits_end_is(text, from + 1, end);
    }
}

/// The decimal form of a number is made of digits, at least one, and stands
/// for that number.
pub proof fn lemma_decimal(n: nat)
    ensures
        decimal(n).len() >= 1,
        forall|i: int| 0 <= i < decimal(n).len() ==> is_digit(#[trigger] decimal(n)[i]),
        decimal_value(decimal(n)) == n,
    decreases n,
{
    if n < 10 {
        let text = decimal(n);
        assert(text.drop_last() =~= Seq::<u8>::empty());
        assert(decimal_value(text.drop_last()) == 0);
    } else {
        lemma_decimal(n / 10);
        let text = decimal(n);
        assert(text.drop_last() =~= decimal(n / 10));
        assert(text.last() == (ZERO + n % 10) as u8);
    }
}

/// A text that goes on stands for no smaller number than its beginning.
pub proof fn lemma_decimal_value_grows(text: Seq<u8>, upto: int)
    requires
        0 <= upto <= text.len(),
        forall|i: int| 0 <= i < text.len() ==> is_digit(#[trigger] text[i]),
    ensures
        decimal_value(text.take(upto)) <= decimal_value(text),
    decreases text.len() - upto,
{
    if upto < text.len() {
        lemma_decimal_value_grows(text, upto + 1);
        let longer = text.take(upto + 1);
        assert(longer.drop_last() =~= text.take(upto));
        assert(is_digit(text[upto]));
    } else {
        assert(text.take(upto) =~= text);
    }
}

/// The byte strings of `list`, each as a sequence of bytes.
pub open spec fn texts(list: Seq<Vec<u8>>) -> Seq<Seq<u8>> {
    Seq::new(list.len(), |i: int| list[i]@)
}

/// Appends the bytes of `src` to `dst`.
pub fn append(dst: &mut Vec<u8>, src: &Vec<u8>)
    ensures
        final(dst)@ == old(dst)@ + src@,
{
    let mut i: usize = 0;
    while i < src.len()
        invariant
            i <= src.len(),
            dst@ == old(dst)@ + src@.take(i as int),
        decreases src.len() - i,
    {
        dst.push(src[i]);
        i = i + 1;
        assert(dst@ =~= old(dst)@ + src@.take(i as int));
    }
    assert(src@.take(src.len() as int) =~= src@);
}

/// The bytes of `src` from `from` up to, not including, `to`.
pub fn copy_range(src: &Vec<u8>, from: usize, to: usize) -> (copy: Vec<u8>)
    requires
        from <= to <= src.len(),
    ensures
        copy@ == src@.subrange(from as int, to as int),
{
    let mut copy: Vec<u8> = Vec::new();
    let mut i: usize = from;
    while i < to
        invariant
            from <= i <= to <= src.len(),
            copy@ == src@.subrange(from as int, i as int),
        decreases to - i,
    {
        copy.push(src[i]);
        i = i + 1;
        assert(copy@ =~= src@.subrange(from as int, i as int));
    }
    copy
}

/// A copy of `src`.
pub fn copy(src: &Vec<u8>) -> (copy: Vec<u8>)
    ensures
        copy@ == src@,
{
    let copy = copy_range(src, 0, src.len());
    assert(src@.subrange(0, src.len() as int) =~= src@);
    copy
}

/// Whether the two byte strings are the same.
pub fn same(a: &Vec<u8>, b: &Vec<u8>) -> (equal: bool)
    ensures
        equal == (a@ == b@),
{
    if a.len() != b.len() {
        return false;
    }
    let mut i: usize = 0;
    while i < a.len()
        invariant
            i <= a.len(),
            a.len() == b.len(),
            a@.take(i as int) == b@.take(i as int),
        decreases a.len() - i,
    {
        if a[i] != b[i] {
            return false;
        }
        i = i + 1;
        assert(a@.take(i as int) =~= a@.take(i - 1).push(a@[i - 1]));
        assert(b@.take(i as int) =~= b@.take(i - 1).push(b@[i - 1]));
    }
    assert(a@.take(a.len() as int) =~= a@);
    assert(b@.take(b.len() as int) =~= b@);
    true
}

/// Appends `n`, written in decimal, to `dst`.
pub fn push_decimal(dst: &mut Vec<u8>, n: u64)
    ensures
        final(dst)@ == old(dst)@ + decimal(n as nat),
{
    // The digits after the first, lowest first.
    let mut low: Vec<u8> = Vec::new();
    let mut rest: u64 = n;
    while rest >= 10
        invariant
            decimal(n as nat) == decimal(rest as nat) + low@.reverse(),
        decreases rest,
    {
        let digit: u8 = ZERO + (rest % 10) as u8;
        proof {
            let before = low@;
            let after = low@.push(digit);
            assert(after.reverse() =~= seq![digit] + before.reverse());
            assert(decimal(rest as nat) == decimal((rest / 10) as nat).push(digit));
            assert(decimal((rest / 10) as nat).push(digit) + before.reverse() =~= decimal(
                (rest / 10) as nat,
            ) + after.reverse());
        }
        low.push(digit);
        rest = rest / 10;
    }
    dst.push(ZERO + rest as u8);
    let ghost head = dst@;
    assert(head =~= old(dst)@ + decimal(rest as nat));
    let mut left: usize = low.len();
    while left > 0
        invariant
            left <= low.len(),
            dst@ == head + low@.reverse().take(low.len() - left),
        decreases left,
    {
        left = left - 1;
        dst.push(low[left]);
        assert(dst@ =~= head + low@.reverse().take(low.len() - left));
    }
    assert(low@.reverse().take(low.len() as int) =~= low@.reverse());
    assert(dst@ =~= old(dst)@ + decimal(n as nat));
}

/// `n`, written in decimal.
pub fn decimal_text(n: u64) -> (text: Vec<u8>)
    ensures
        text@ == decimal(n as nat),
{
    let mut text: Vec<u8> = Vec::new();
    push_decimal(&mut text, n);
    assert(text@ =~= decimal(n as nat));
    text
}

/// The number of digits of `n` written in decimal.
pub open spec fn decimal_len(n: nat) -> nat
    decreases n,
{
    if n < 10 {
        1
    } else {
        decimal_len(n / 10) + 1
    }
}

/// The decimal form of a number has as many bytes as the number has digits.
pub proof fn lemma_decimal_len(n: nat)
    ensures
        decimal(n).len() == decimal_len(n),
    decreases n,
{
    if n >= 10 {
        lemma_decimal_len(n / 10);
    }
}

/// The greatest number of bytes that `stamp_decimal` writes.
pub const STAMP_LEN: usize = 10;

/// Writes `n` in decimal into `buf` from the place `at` on, over what
/// stands there, and gives the place after the last digit. Nothing is
/// allocated: a process that must not allocate can call this on a buffer
/// that was made before.
pub fn stamp_decimal(buf: &mut Vec<u8>, at: usize, n: u32) -> (end: usize)
    requires
        at + STAMP_LEN <= old(buf).len(),
    ensures
        end == at + decimal(n as nat).len(),
        end <= at + STAMP_LEN,
        final(buf)@ == old(buf)@.take(at as int) + decimal(n as nat) + old(buf)@.skip(end as int),
{
    let mut digits: usize = 1;
    let mut rest: u32 = n;
    while rest >= 10
        invariant
            1 <= digits <= STAMP_LEN,
            decimal_len(n as nat) == decimal_len(rest as nat) + digits - 1,
            rest as int <= u32::MAX as int,
            digits == 1 ==> rest <= 4294967295,
            digits == 2 ==> rest <= 429496729,
            digits == 3 ==> rest <= 42949672,
            digits == 4 ==> rest <= 4294967,
            digits == 5 ==> rest <= 429496,
            digits == 6 ==> rest <= 42949,
            digits == 7 ==> rest <= 4294,
            digits == 8 ==> rest <= 429,
            digits == 9 ==> rest <= 42,
            digits == 10 ==> rest <= 4,
        decreases rest,
    {
        rest = rest / 10;
        digits = digits + 1;
    }
    proof {
        lemma_decimal_len(n as nat);
    }
    let end = at + digits;
    let mut left: usize = digits;
    let mut rest: u32 = n;
    while left > 1
        invariant
            1 <= left <= digits,
            end == at + digits,
            end <= old(buf).len(),
            buf.len() == old(buf).len(),
            decimal_len(rest as nat) == left,
            decimal(n as nat) == decimal(rest as nat) + buf@.subrange(at + left, end as int),
            buf@.take(at as int) == old(buf)@.take(at as int),
            buf@.skip(end as int) == old(buf)@.skip(end as int),
        decreases left,
    {
        let digit: u8 = ZERO + (rest % 10) as u8;
        let ghost before = buf@;
        left = left - 1;
        buf.set(at + left, digit);
        proof {
            assert(decimal(rest as nat) == decimal((rest / 10) as nat).push(digit));
            assert(buf@.subrange(at + left, end as int) =~= seq![digit] + before.subrange(
                at + left + 1,
                end as int,
            ));
            assert(decimal((rest / 10) as nat).push(digit) + before.subrange(
                at + left + 1,
                end as int,
            ) =~= decimal((rest / 10) as nat) + buf@.subrange(at + left, end as int));
            assert(buf@.take(at as int) =~= before.take(at as int));
            assert(buf@.skip(end as int) =~= before.skip(end as int));
        }
        rest = rest / 10;
    }
    let ghost before = buf@;
    proof {
        lemma_decimal_len(rest as nat);
        lemma_decimal((rest / 10) as nat);
        lemma_decimal_len((rest / 10) as nat);
        assert(rest < 10);
    }
    buf.set(at, ZERO + rest as u8);
    proof {
        assert(decimal(rest as nat) =~= seq![(ZERO + rest) as u8]);
        assert(buf@.subrange(at as int, end as int) =~= decimal(rest as nat) + before.subrange(
            at + 1,
            end as int,
        ));
        assert(buf@.subrange(at as int, end as int) == decimal(n as nat));
        assert(buf@.take(at as int) =~= before.take(at as int));
        assert(buf@.skip(end as int) =~= before.skip(end as int));
        assert(buf@ =~= buf@.take(at as int) + buf@.subrange(at as int, end as int) + buf@.skip(
            end as int,
        ));
    }
    end
}

/// The byte of a minus sign.
pub const MINUS: u8 = 45;

/// `n` written in decimal, with a minus sign where it is negative.
pub open spec fn signed_decimal(n: int) -> Seq<u8> {
    if n < 0 {
        seq![MINUS] + decimal((-n) as nat)
    } else {
        decimal(n as nat)
    }
}

/// Appends `n`, written in decimal, to `dst`.
pub fn push_signed(dst: &mut Vec<u8>, n: i32)
    ensures
        final(dst)@ == old(dst)@ + signed_decimal(n as int),
{
    let wide: i64 = n as i64;
    if wide < 0 {
        dst.push(MINUS);
        push_decimal(dst, (-wide) as u64);
        assert(dst@ =~= old(dst)@ + signed_decimal(n as int));
    } else {
        push_decimal(dst, wide as u64);
    }
}

/// A number of at most 32 bits read at `from`: the value of the run of
/// digits that starts there, and the place where the run ends. `None`
/// where no digit stands at `from`, or the run stands for more than
/// `u32::MAX`.
pub open spec fn spec_number(text: Seq<u8>, from: int) -> Option<(u32, int)> {
    let end = digits_end(text, from);
    let value = decimal_value(text.subrange(from, end));
    if end <= from || value > u32::MAX {
        None
    } else {
        Some((value as u32, end))
    }
}

/// Reads the decimal number that starts at `from`.
pub fn read_number(text: &Vec<u8>, from: usize) -> (number: Option<(u32, usize)>)
    requires
        from <= text.len(),
    ensures
        match number {
            Some((value, end)) => spec_number(text@, from as int) == Some((value, end as int))
                && from < end <= text.len(),
            None => spec_number(text@, from as int) is None,
        },
{
    let ghost end = digits_end(text@, from as int);
    let ghost run = text@.subrange(from as int, end);
    proof {
        lemma_digits_end(text@, from as int);
    }
    let mut at: usize = from;
    let mut value: u64 = 0;
    while at < text.len() && text[at] >= ZERO && text[at] <= NINE
        invariant
            from <= at <= end <= text.len(),
            end == digits_end(text@, from as int),
            run == text@.subrange(from as int, end),
            forall|i: int| from <= i < end ==> is_digit(#[trigger] text@[i]),
            end < text.len() ==> !is_digit(text@[end]),
            value == decimal_value(run.take(at - from)),
            value <= u32::MAX,
        decreases text.len() - at,
    {
        assert(at < end);
        let digit: u64 = (text[at] - ZERO) as u64;
        let next: u64 = value * 10 + digit;
        proof {
            let longer = run.take(at + 1 - from);
            assert(longer.drop_last() =~= run.take(at - from));
            assert(longer.last() == text@[at as int]);
            assert(next == decimal_value(longer));
        }
        if next > u32::MAX as u64 {
            proof {
                lemma_decimal_value_grows(run, at + 1 - from);
            }
            return None;
        }
        value = next;
        at = at + 1;
    }
    proof {
        assert(at == end);
        assert(run.take(at - from) =~= run);
    }
    if at == from {
        None
    } else {
        Some((value as u32, at))
    }
}

/// A decimal number that stands in a text, followed by a byte that is no
/// digit or by the end of the text, is read back as it was written.
pub proof fn lemma_read_written(text: Seq<u8>, from: int, n: u32)
    requires
        0 <= from,
        from + decimal(n as nat).len() <= text.len(),
        text.subrange(from, from + decimal(n as nat).len()) == decimal(n as nat),
        from + decimal(n as nat).len() < text.len() ==> !is_digit(
            text[from + decimal(n as nat).len()],
        ),
    ensures
        spec_number(text, from) == Some((n, from + decimal(n as nat).len())),
{
    let written = decimal(n as nat);
    let end = from + written.len();
    lemma_decimal(n as nat);
    assert forall|i: int| from <= i < end implies is_digit(#[trigger] text[i]) by {
        assert(text[i] == text.subrange(from, end)[i - from]);
    }
    lemma_digits_end_is(text, from, end);
}

} // verus!
