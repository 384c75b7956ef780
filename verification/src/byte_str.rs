//! Numeric codec: format and parse unsigned integers in bases 2..36 over
//! plain ASCII byte sequences, with strict bounded-buffer semantics.

use vstd::prelude::*;

verus! {

/// Error from formatting a number into a bounded buffer.
#[derive(Clone, Copy, Debug, PartialEq, Eq, Structural)]
pub enum FormatNumErr {
    /// Not enough bytes to fully format the number
    Overrun,
}

/// Error from parsing a numeric byte string.
#[derive(Clone, Copy, Debug, PartialEq, Eq, Structural)]
pub enum ParseNumErr {
    /// A checked accumulation step would exceed the target width
    Overflow,
    /// The byte is not a digit of the requested base
    BadDigit(u8),
    /// The base itself is outside the accepted range
    BadBase(u8),
}

/// A byte buffer with a fixed maximum capacity, chosen at construction.
/// Appending beyond the capacity fails explicitly; nothing is dropped.
pub struct ByteBuf {
    data: Vec<u8>,
    cap: usize,
}

impl View for ByteBuf {
    type V = Seq<u8>;

    closed spec fn view(&self) -> Seq<u8> {
        self.data@
    }
}

impl ByteBuf {
    /// Maximum number of bytes the buffer can ever hold.
    pub closed spec fn capacity(&self) -> nat {
        self.cap as nat
    }

    /// The contents never exceed the capacity.
    pub open spec fn wf(&self) -> bool {
        self@.len() <= self.capacity()
    }

    /// An empty buffer that can hold up to `cap` bytes.
    pub fn new(cap: usize) -> (r: ByteBuf)
        ensures
            r@ == Seq::<u8>::empty(),
            r.capacity() == cap,
            r.wf(),
    {
        ByteBuf { data: Vec::new(), cap }
    }

    pub fn len(&self) -> (r: usize)
        ensures
            r == self@.len(),
    {
        self.data.len()
    }

    pub fn is_empty(&self) -> (r: bool)
        ensures
            r == (self@.len() == 0),
    {
        self.data.len() == 0
    }

    /// Append one byte; reports whether there was room for it.
    pub fn push(&mut self, b: u8) -> (r: bool)
        requires
            old(self).wf(),
        ensures
            final(self).wf(),
            final(self).capacity() == old(self).capacity(),
            old(self)@.len() < old(self).capacity() ==> r && final(self)@ == old(self)@.push(b),
            old(self)@.len() >= old(self).capacity() ==> !r && final(self)@ == old(self)@,
    {
        if self.data.len() < self.cap {
            self.data.push(b);
            true
        } else {
            false
        }
    }

    /// Remove and return the last byte, if any.
    pub fn pop(&mut self) -> (r: Option<u8>)
        requires
            old(self).wf(),
        ensures
            final(self).wf(),
            final(self).capacity() == old(self).capacity(),
            old(self)@.len() == 0 ==> r is None && final(self)@ == old(self)@,
            old(self)@.len() > 0 ==> r == Some(old(self)@.last()) && final(self)@
                == old(self)@.drop_last(),
    {
        self.data.pop()
    }

    pub fn clear(&mut self)
        ensures
            final(self)@ == Seq::<u8>::empty(),
            final(self).capacity() == old(self).capacity(),
            final(self).wf(),
    {
        self.data.clear();
    }

    pub fn as_slice(&self) -> (r: &[u8])
        ensures
            r@ == self@,
    {
        self.data.as_slice()
    }

    /// Reverse the contents in place.
    pub fn reverse(&mut self)
        ensures
            final(self)@ == old(self)@.reverse(),
            final(self).capacity() == old(self).capacity(),
            old(self).wf() ==> final(self).wf(),
    {
        let n = self.data.len();
        let mut out: Vec<u8> = Vec::new();
        let mut i: usize = 0;
        while i < n
            invariant
                i <= n,
                n == self.data@.len(),
                out@.len() == i,
                forall|j: int| 0 <= j < i ==> out@[j] == self.data@[n - 1 - j],
            decreases n - i,
        {
            let b = self.data[n - 1 - i];
            out.push(b);
            i += 1;
        }
        self.data = out;
        proof {
            assert(self@ =~= old(self)@.reverse());
        }
    }
}

/// Numeric value of an ASCII digit byte: `0`-`9`, `a`-`z` and `A`-`Z`
/// (letters count from ten). Non-digit bytes map to 36, which no base admits.
pub open spec fn digit_value(chr: u8) -> nat {
    if 48 <= chr <= 57 {
        (chr - 48) as nat
    } else if 97 <= chr <= 122 {
        (chr - 87) as nat
    } else if 65 <= chr <= 90 {
        (chr - 55) as nat
    } else {
        36
    }
}

/// The byte is an ASCII digit or letter.
pub open spec fn is_digit_char(chr: u8) -> bool {
    (48 <= chr <= 57) || (97 <= chr <= 122) || (65 <= chr <= 90)
}

/// One accumulation step of the left-to-right parse: classify `chr`, then
/// fold it into `n` with checked multiply and add. `_` is accepted and
/// ignored as a visual separator.
pub open spec fn spec_parse_digit(n: usize, chr: u8, base: u8) -> Result<usize, ParseNumErr> {
    if !(2 <= base && base < 36) {
        Err(ParseNumErr::BadBase(base))
    } else if chr == 95 {
        Ok(n)
    } else if is_digit_char(chr) && digit_value(chr) < base {
        if n * base + digit_value(chr) <= usize::MAX {
            Ok((n * base + digit_value(chr)) as usize)
        } else {
            Err(ParseNumErr::Overflow)
        }
    } else {
        Err(ParseNumErr::BadDigit(chr))
    }
}

/// ASCII digit byte for a value below 36: `0`-`9` for 0-9, `A`-`Z` for 10-35.
pub open spec fn spec_digit_char(v: nat) -> u8 {
    if v < 10 {
        (48 + v) as u8
    } else {
        (55 + v) as u8
    }
}

/// Digits of `n` in the given base, least-significant first. Zero has the
/// single digit `0`.
pub open spec fn spec_fmt_digits_lsb(n: nat, base: nat) -> Seq<u8>
    decreases n
        when base >= 2
        via spec_fmt_digits_lsb_dec
{
    if n < base {
        seq![spec_digit_char(n)]
    } else {
        seq![spec_digit_char(n % base)] + spec_fmt_digits_lsb(n / base, base)
    }
}

#[via_fn]
proof fn spec_fmt_digits_lsb_dec(n: nat, base: nat) {
    if base >= 2 && n >= base {
        vstd::arithmetic::div_mod::lemma_div_decreases(n as int, base as int);
    }
}

/// Digits of `n` in the given base, most-significant first: the textual form.
pub open spec fn spec_fmt_digits(n: nat, base: nat) -> Seq<u8> {
    spec_fmt_digits_lsb(n, base).reverse()
}

/// Format `n` in the given base into `buf`, most-significant digit first,
/// appending after any bytes already present. Digits are accumulated
/// least-significant first with a capacity check per push, then the whole
/// buffer is reversed. On `Overrun` the buffer keeps the partial,
/// unreversed digits.
pub fn to_string(n: usize, base: u8, buf: &mut ByteBuf) -> (r: Result<(), FormatNumErr>)
    requires
        old(buf).wf(),
        2 <= base <= 36,
    ensures
        final(buf).wf(),
        final(buf).capacity() == old(buf).capacity(),
        r is Ok <==> old(buf)@.len() + spec_fmt_digits_lsb(n as nat, base as nat).len()
            <= old(buf).capacity(),
        r is Ok ==> final(buf)@ == spec_fmt_digits(n as nat, base as nat) + old(buf)@.reverse(),
        r is Err ==> r == Err::<(), FormatNumErr>(FormatNumErr::Overrun) && final(buf)@
            == old(buf)@ + spec_fmt_digits_lsb(n as nat, base as nat).take(
            old(buf).capacity() - old(buf)@.len()),
{
    let ghost digits = spec_fmt_digits_lsb(n as nat, base as nat);
    let mut m = n;
    let ghost mut pushed: int = 0;
    loop
        invariant_except_break
            digits == digits.take(pushed) + spec_fmt_digits_lsb(m as nat, base as nat),
        invariant
            old(buf).wf(),
            2 <= base <= 36,
            buf.wf(),
            buf.capacity() == old(buf).capacity(),
            0 <= pushed <= digits.len(),
            buf@ == old(buf)@ + digits.take(pushed),
            digits == spec_fmt_digits_lsb(n as nat, base as nat),
        ensures
            buf@ == old(buf)@ + digits,
            old(buf)@.len() + digits.len() <= old(buf).capacity(),
        decreases m,
    {
        let ghost m_prev = m;
        let div = m / (base as usize);
        let rem = m % (base as usize);
        let digit: u8 = if rem < 10 {
            48 + (rem as u8)
        } else {
            55 + (rem as u8)
        };
        proof {
            if m < base {
                vstd::arithmetic::div_mod::lemma_small_mod(m as nat, base as nat);
                vstd::arithmetic::div_mod::lemma_basic_div(m as int, base as int);
                assert(spec_fmt_digits_lsb(m as nat, base as nat) == seq![digit]);
            } else {
                vstd::arithmetic::div_mod::lemma_div_decreases(m as int, base as int);
                assert(spec_fmt_digits_lsb(m as nat, base as nat) == seq![digit]
                    + spec_fmt_digits_lsb((m as nat) / (base as nat), base as nat));
            }
        }
        if !buf.push(digit) {
            proof {
                assert(digits.len() >= pushed + 1);
                assert(old(buf)@.len() + pushed == old(buf).capacity());
                assert(digits.take(pushed) =~= digits.take(
                    old(buf).capacity() - old(buf)@.len()));
            }
            return Err(FormatNumErr::Overrun);
        }
        proof {
            assert(digits.take(pushed + 1) =~= digits.take(pushed) + seq![digit]);
            assert(buf@ =~= old(buf)@ + digits.take(pushed + 1));
            pushed = pushed + 1;
        }
        m = div;
        if m == 0 {
            proof {
                vstd::arithmetic::div_mod::lemma_small_div_converse(m_prev as int, base as int);
                assert(m_prev < base);
                assert(digits =~= digits.take(pushed));
            }
            break;
        }
        proof {
            assert(m_prev >= base);
            assert(digits =~= digits.take(pushed) + spec_fmt_digits_lsb(m as nat, base as nat));
        }
    }
    buf.reverse();
    proof {
        lemma_reverse_append(old(buf)@, digits);
    }
    Ok(())
}

/// Reversal distributes over concatenation, swapping the operands.
proof fn lemma_reverse_append(a: Seq<u8>, b: Seq<u8>)
    ensures
        (a + b).reverse() == b.reverse() + a.reverse(),
{
    assert((a + b).reverse() =~= b.reverse() + a.reverse());
}

/// Fold one byte into the accumulator `n`, in the given base.
pub fn parse_digit(n: usize, chr: u8, base: u8) -> (r: Result<usize, ParseNumErr>)
    ensures
        r == spec_parse_digit(n, chr, base),
{
    if !(2 <= base && base < 36) {
        return Err(ParseNumErr::BadBase(base));
    }
    if chr == 95 {
        // `_`: ignore, to use as delimiter
        return Ok(n);
    }
    let val: u8 = if 48 <= chr && chr <= 57 {
        // `0`..=`9`
        chr - 48
    } else if 97 <= chr && chr <= 122 {
        // `a`..=`z`
        chr - 97 + 10
    } else if 65 <= chr && chr <= 90 {
        // `A`..=`Z`
        chr - 65 + 10
    } else {
        return Err(ParseNumErr::BadDigit(chr));
    };
    if !(val < base) {
        return Err(ParseNumErr::BadDigit(chr));
    }
    match n.checked_mul(base as usize) {
        None => Err(ParseNumErr::Overflow),
        Some(m) => match m.checked_add(val as usize) {
            None => Err(ParseNumErr::Overflow),
            Some(s) => Ok(s),
        },
    }
}

/// Left-to-right fold of `spec_parse_digit` over a byte sequence, starting
/// from the accumulator `acc`. The first failing byte aborts the parse.
pub open spec fn spec_fold_digits(acc: usize, s: Seq<u8>, base: u8) -> Result<usize, ParseNumErr>
    decreases s.len(),
{
    if s.len() == 0 {
        Ok(acc)
    } else {
        match spec_parse_digit(acc, s[0], base) {
            Ok(m) => spec_fold_digits(m, s.skip(1), base),
            Err(e) => Err(e),
        }
    }
}

/// Value of a numeric byte string: an optional base prefix (`0x`/`0X` for 16,
/// `0o` for 8, `0b`/`0B` for 2, none for 10) followed by the digits.
/// The binary prefix deliberately selects base 2: dispatching it with a base
/// outside the validator's range would make every binary literal fail on its
/// first digit, so the choice is fixed here explicitly.
pub open spec fn spec_parse_num(s: Seq<u8>) -> Result<usize, ParseNumErr> {
    if s.len() >= 2 && s[0] == 48 && (s[1] == 120 || s[1] == 88) {
        spec_fold_digits(0, s.skip(2), 16)
    } else if s.len() >= 2 && s[0] == 48 && s[1] == 111 {
        spec_fold_digits(0, s.skip(2), 8)
    } else if s.len() >= 2 && s[0] == 48 && (s[1] == 98 || s[1] == 66) {
        spec_fold_digits(0, s.skip(2), 2)
    } else {
        spec_fold_digits(0, s, 10)
    }
}

/// Parse a numeric byte string into a machine word, detecting the base from
/// an optional prefix and folding the digits left to right with checked
/// arithmetic.
pub fn parse_num(buf: &[u8]) -> (r: Result<usize, ParseNumErr>)
    ensures
        r == spec_parse_num(buf@),
{
    let len = buf.len();
    let mut base: u8 = 10;
    let mut i: usize = 0;
    if len >= 2 && buf[0] == 48 {
        let c1 = buf[1];
        if c1 == 120 || c1 == 88 {
            // `0x` / `0X`
            base = 16;
            i = 2;
        } else if c1 == 111 {
            // `0o`
            base = 8;
            i = 2;
        } else if c1 == 98 || c1 == 66 {
            // `0b` / `0B`
            base = 2;
            i = 2;
        }
    }
    let mut acc: usize = 0;
    proof {
        assert(buf@.skip(0) =~= buf@);
        assert(spec_parse_num(buf@) == spec_fold_digits(0, buf@.skip(i as int), base));
    }
    while i < len
        invariant
            i <= len,
            len == buf@.len(),
            2 <= base < 36,
            spec_parse_num(buf@) == spec_fold_digits(acc, buf@.skip(i as int), base),
        decreases len - i,
    {
        let c = buf[i];
        proof {
            assert(buf@.skip(i as int)[0] == c);
            assert(buf@.skip(i as int).skip(1) =~= buf@.skip(i as int + 1));
        }
        match parse_digit(acc, c, base) {
            Ok(m) => {
                acc = m;
            },
            Err(e) => {
                return Err(e);
            },
        }
        i = i + 1;
    }
    Ok(acc)
}

/// Formatting an unsigned value into a bounded byte buffer.
pub trait ToByteStr {
    /// The numeric value being formatted.
    spec fn num_val(&self) -> nat;

    /// Format `self` in the given base into `buf`, as `to_string` does.
    fn to_string(&self, base: u8, buf: &mut ByteBuf) -> (r: Result<(), FormatNumErr>)
        requires
            old(buf).wf(),
            2 <= base <= 36,
        ensures
            final(buf).wf(),
            final(buf).capacity() == old(buf).capacity(),
            r is Ok <==> old(buf)@.len() + spec_fmt_digits_lsb(self.num_val(), base as nat).len()
                <= old(buf).capacity(),
            r is Ok ==> final(buf)@ == spec_fmt_digits(self.num_val(), base as nat)
                + old(buf)@.reverse(),
            r is Err ==> r == Err::<(), FormatNumErr>(FormatNumErr::Overrun) && final(buf)@
                == old(buf)@ + spec_fmt_digits_lsb(self.num_val(), base as nat).take(
                old(buf).capacity() - old(buf)@.len()),
    ;
}

impl ToByteStr for u8 {
    open spec fn num_val(&self) -> nat {
        *self as nat
    }

    fn to_string(&self, base: u8, buf: &mut ByteBuf) -> (r: Result<(), FormatNumErr>) {
        to_string(*self as usize, base, buf)
    }
}

impl ToByteStr for u32 {
    open spec fn num_val(&self) -> nat {
        *self as nat
    }

    fn to_string(&self, base: u8, buf: &mut ByteBuf) -> (r: Result<(), FormatNumErr>) {
        to_string(*self as usize, base, buf)
    }
}

/// Parsing a numeric byte string into an unsigned value of a fixed width.
/// A parsed word that does not fit the width is an `Overflow`.
pub trait ParseByteStr: Sized {
    /// Largest value of the target width.
    spec fn max_val() -> nat;

    /// The value of the target width holding the parsed word.
    spec fn from_usize(n: usize) -> Self;

    /// Parse `buf` as `parse_num` does, then narrow to the target width.
    fn parse(buf: &[u8]) -> (r: Result<Self, ParseNumErr>)
        ensures
            match spec_parse_num(buf@) {
                Ok(n) => if n <= Self::max_val() {
                    r == Ok::<Self, ParseNumErr>(Self::from_usize(n))
                } else {
                    r == Err::<Self, ParseNumErr>(ParseNumErr::Overflow)
                },
                Err(e) => r == Err::<Self, ParseNumErr>(e),
            },
    ;
}

/// Value of a numeric byte string narrowed to the width of `T`.
pub open spec fn spec_parse_val<T: ParseByteStr>(s: Seq<u8>) -> Result<T, ParseNumErr> {
    match spec_parse_num(s) {
        Ok(n) => if n <= T::max_val() {
            Ok(T::from_usize(n))
        } else {
            Err(ParseNumErr::Overflow)
        },
        Err(e) => Err(e),
    }
}

impl ParseByteStr for u8 {
    open spec fn max_val() -> nat {
        u8::MAX as nat
    }

    open spec fn from_usize(n: usize) -> u8 {
        n as u8
    }

    fn parse(buf: &[u8]) -> (r: Result<u8, ParseNumErr>) {
        match parse_num(buf) {
            Ok(n) => if n <= u8::MAX as usize {
                Ok(n as u8)
            } else {
                Err(ParseNumErr::Overflow)
            },
            Err(e) => Err(e),
        }
    }
}

impl ParseByteStr for u16 {
    open spec fn max_val() -> nat {
        u16::MAX as nat
    }

    open spec fn from_usize(n: usize) -> u16 {
        n as u16
    }

    fn parse(buf: &[u8]) -> (r: Result<u16, ParseNumErr>) {
        match parse_num(buf) {
            Ok(n) => if n <= u16::MAX as usize {
                Ok(n as u16)
            } else {
                Err(ParseNumErr::Overflow)
            },
            Err(e) => Err(e),
        }
    }
}

impl ParseByteStr for u32 {
    open spec fn max_val() -> nat {
        u32::MAX as nat
    }

    open spec fn from_usize(n: usize) -> u32 {
        n as u32
    }

    fn parse(buf: &[u8]) -> (r: Result<u32, ParseNumErr>) {
        match parse_num(buf) {
            Ok(n) => if n <= u32::MAX as usize {
                Ok(n as u32)
            } else {
                Err(ParseNumErr::Overflow)
            },
            Err(e) => Err(e),
        }
    }
}

impl ParseByteStr for usize {
    open spec fn max_val() -> nat {
        usize::MAX as nat
    }

    open spec fn from_usize(n: usize) -> usize {
        n
    }

    fn parse(buf: &[u8]) -> (r: Result<usize, ParseNumErr>) {
        parse_num(buf)
    }
}

/// Folding a sequence with one more digit at the end is one more
/// accumulation step after folding the prefix.
proof fn lemma_fold_digits_snoc(acc: usize, s: Seq<u8>, d: u8, base: u8)
    ensures
        spec_fold_digits(acc, s.push(d), base) == match spec_fold_digits(acc, s, base) {
            Ok(m) => spec_parse_digit(m, d, base),
            Err(e) => Err(e),
        },
    decreases s.len(),
{
    if s.len() == 0 {
        assert(s.push(d)[0] == d);
        assert(s.push(d).skip(1) =~= Seq::<u8>::empty());
        match spec_parse_digit(acc, d, base) {
            Ok(m) => {
                assert(spec_fold_digits(m, Seq::<u8>::empty(), base)
                    == Ok::<usize, ParseNumErr>(m));
            },
            Err(e) => {},
        }
    } else {
        assert(s.push(d)[0] == s[0]);
        assert(s.push(d).skip(1) =~= s.skip(1).push(d));
        match spec_parse_digit(acc, s[0], base) {
            Ok(m) => {
                lemma_fold_digits_snoc(m, s.skip(1), d, base);
            },
            Err(e) => {},
        }
    }
}

proof fn lemma_round_trip_rec(v: nat, base: u8)
    requires
        2 <= base < 36,
        v <= usize::MAX,
    ensures
        spec_fold_digits(0, spec_fmt_digits(v, base as nat), base)
            == Ok::<usize, ParseNumErr>(v as usize),
    decreases v,
{
    let b = base as nat;
    if v < b {
        let d = spec_digit_char(v);
        assert(spec_fmt_digits_lsb(v, b) == seq![d]);
        assert(spec_fmt_digits(v, b) =~= seq![d]);
        assert(spec_fmt_digits(v, b)[0] == d);
        assert(spec_fmt_digits(v, b).skip(1) =~= Seq::<u8>::empty());
        assert(digit_value(d) == v);
        assert(spec_parse_digit(0, d, base) == Ok::<usize, ParseNumErr>(v as usize));
        assert(spec_fold_digits(v as usize, Seq::<u8>::empty(), base)
            == Ok::<usize, ParseNumErr>(v as usize));
        assert(spec_fold_digits(0, spec_fmt_digits(v, b), base)
            == Ok::<usize, ParseNumErr>(v as usize));
    } else {
        vstd::arithmetic::div_mod::lemma_div_decreases(v as int, base as int);
        vstd::arithmetic::div_mod::lemma_fundamental_div_mod(v as int, base as int);
        lemma_round_trip_rec(v / b, base);
        let d = spec_digit_char(v % b);
        assert(spec_fmt_digits_lsb(v, b) == seq![d] + spec_fmt_digits_lsb(v / b, b));
        lemma_reverse_append(seq![d], spec_fmt_digits_lsb(v / b, b));
        assert(spec_fmt_digits(v, b) =~= spec_fmt_digits(v / b, b).push(d));
        lemma_fold_digits_snoc(0, spec_fmt_digits(v / b, b), d, base);
        assert(digit_value(d) == v % b);
        assert(v % b < b);
        assert((v / b) * b + (v % b) == v);
        assert(spec_parse_digit((v / b) as usize, d, base)
            == Ok::<usize, ParseNumErr>(v as usize));
    }
}

/// Round trip: for every base in [2, 36) and every machine word `v`, folding
/// the formatted digits of `v` back through the per-digit parser yields `v`
/// again. (Base 36 itself is refused by the digit validator, so it is not
/// covered.)
pub proof fn lemma_format_parse_round_trip(v: usize, base: u8)
    requires
        2 <= base < 36,
    ensures
        spec_fold_digits(0, spec_fmt_digits(v as nat, base as nat), base)
            == Ok::<usize, ParseNumErr>(v),
{
    lemma_round_trip_rec(v as nat, base);
}

/// A value below `base^k` formats into at most `k` digits.
pub proof fn lemma_fmt_digits_len(n: nat, base: nat, k: nat)
    requires
        2 <= base,
        1 <= k,
        n < vstd::arithmetic::power::pow(base as int, k),
    ensures
        spec_fmt_digits_lsb(n, base).len() <= k,
    decreases k,
{
    if n < base {
        assert(spec_fmt_digits_lsb(n, base).len() == 1);
    } else {
        vstd::arithmetic::div_mod::lemma_div_decreases(n as int, base as int);
        vstd::arithmetic::div_mod::lemma_fundamental_div_mod(n as int, base as int);
        assert(k >= 2) by {
            vstd::arithmetic::power::lemma_pow1(base as int);
            if k == 1 {
                assert(vstd::arithmetic::power::pow(base as int, 1) == base);
            }
        }
        let p = vstd::arithmetic::power::pow(base as int, (k - 1) as nat);
        assert(vstd::arithmetic::power::pow(base as int, k) == base * p) by {
            vstd::arithmetic::power::lemma_pow_adds(base as int, 1, (k - 1) as nat);
            vstd::arithmetic::power::lemma_pow1(base as int);
        }
        assert(p > 0) by {
            vstd::arithmetic::power::lemma_pow_positive(base as int, (k - 1) as nat);
        }
        assert((n as int) / (base as int) < p) by {
            if (n as int) / (base as int) >= p {
                vstd::arithmetic::mul::lemma_mul_inequality(p, (n as int) / (base as int),
                    base as int);
                assert(p * (base as int) <= ((n as int) / (base as int)) * (base as int));
            }
        }
        lemma_fmt_digits_len(n / base, base, (k - 1) as nat);
        assert(spec_fmt_digits_lsb(n, base) == seq![spec_digit_char(n % base)]
            + spec_fmt_digits_lsb(n / base, base));
    }
}

proof fn lemma_fmt_digits_decimal_range(n: nat)
    ensures
        forall|i: int|
            0 <= i < spec_fmt_digits_lsb(n, 10).len() ==> 48 <= #[trigger] spec_fmt_digits_lsb(
                n,
                10,
            )[i] <= 57,
    decreases n,
{
    if n < 10 {
    } else {
        lemma_fmt_digits_decimal_range(n / 10);
        assert forall|i: int| 0 <= i < spec_fmt_digits_lsb(n, 10).len() implies 48
            <= #[trigger] spec_fmt_digits_lsb(n, 10)[i] <= 57 by {
            if i == 0 {
                assert(spec_fmt_digits_lsb(n, 10)[0] == spec_digit_char(n % 10));
            } else {
                assert(spec_fmt_digits_lsb(n, 10)[i] == spec_fmt_digits_lsb(n / 10, 10)[i - 1]);
            }
        }
    }
}

/// Round trip through the decimal grammar: the formatted base-10 digits of
/// any machine word parse back to it. No digit can look like a base prefix,
/// so the plain parser applies.
pub proof fn lemma_parse_num_round_trip_decimal(v: usize)
    ensures
        spec_parse_num(spec_fmt_digits(v as nat, 10)) == Ok::<usize, ParseNumErr>(v),
{
    let s = spec_fmt_digits(v as nat, 10);
    lemma_fmt_digits_decimal_range(v as nat);
    if s.len() >= 2 {
        assert(s[1] == spec_fmt_digits_lsb(v as nat, 10)[s.len() - 2]);
        assert(48 <= s[1] <= 57);
    }
    assert(spec_parse_num(s) == spec_fold_digits(0, s, 10));
    lemma_format_parse_round_trip(v, 10);
}

/// Round trip through the hexadecimal grammar: a `0x` prefix followed by
/// the formatted base-16 digits of any machine word parses back to it.
pub proof fn lemma_parse_num_round_trip_hex(v: usize)
    ensures
        spec_parse_num(seq![48u8, 120u8] + spec_fmt_digits(v as nat, 16))
            == Ok::<usize, ParseNumErr>(v),
{
    let s = seq![48u8, 120u8] + spec_fmt_digits(v as nat, 16);
    assert(s[0] == 48 && s[1] == 120);
    assert(s.len() >= 2);
    assert(s.skip(2) =~= spec_fmt_digits(v as nat, 16));
    assert(spec_parse_num(s) == spec_fold_digits(0, spec_fmt_digits(v as nat, 16), 16));
    lemma_format_parse_round_trip(v, 16);
}

} // verus!
