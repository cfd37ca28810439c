//! Decimal numbers for the translator.
//!
//! Source numerals are scanned as digit strings and never computed with, so
//! the library keeps them exactly as decimals: a sign, the digits before the
//! point and the digits after it, both held in canonical form (no leading
//! zeros before the point, no trailing zeros after it, no negative zero).
//! Two numerals denote the same number exactly when their canonical forms
//! are equal.

use vstd::prelude::*;
use vstd::string::*;

use crate::text::{push_char, run_end, lemma_run_end_bounds, lemma_run_end_is, chars_of,
    string_from_range, string_from_chars};

verus! {

/// Mathematical model of a [`ShenNumber`]: the sign and the two digit runs.
#[verifier::ext_equal]
pub struct NumV {
    pub negative: bool,
    pub int_part: Seq<char>,
    pub frac_part: Seq<char>,
}

pub open spec fn is_digit_char(c: char) -> bool {
    '0' <= c && c <= '9'
}

pub open spec fn all_digits(s: Seq<char>) -> bool {
    forall|i: int| 0 <= i < s.len() ==> is_digit_char(#[trigger] s[i])
}

/// Drops leading `'0'` characters but keeps at least one character.
pub open spec fn strip_leading_zeros(s: Seq<char>) -> Seq<char>
    decreases s.len(),
{
    if s.len() > 1 && s[0] == '0' {
        strip_leading_zeros(s.drop_first())
    } else {
        s
    }
}

/// Drops trailing `'0'` characters, possibly leaving the empty sequence.
pub open spec fn strip_trailing_zeros(s: Seq<char>) -> Seq<char>
    decreases s.len(),
{
    if s.len() > 0 && s.last() == '0' {
        strip_trailing_zeros(s.drop_last())
    } else {
        s
    }
}

impl NumV {
    /// Canonical form: digit runs only, a nonempty integer part without a
    /// leading zero (except `0` itself), a fractional part without a trailing
    /// zero, and no negative zero.
    pub open spec fn wf(self) -> bool {
        &&& self.int_part.len() > 0
        &&& all_digits(self.int_part)
        &&& all_digits(self.frac_part)
        &&& (self.int_part.len() > 1 ==> self.int_part[0] != '0')
        &&& (self.frac_part.len() > 0 ==> self.frac_part.last() != '0')
        &&& (self.negative ==> !self.is_zero())
    }

    pub open spec fn is_zero(self) -> bool {
        self.int_part == seq!['0'] && self.frac_part.len() == 0
    }

    pub open spec fn is_integral(self) -> bool {
        self.frac_part.len() == 0
    }

    /// The text this number renders to when the target expects a float:
    /// a fractional part is always written, `.0` if there is none.
    pub open spec fn float_text(self) -> Seq<char> {
        let frac = if self.frac_part.len() == 0 {
            seq!['0']
        } else {
            self.frac_part
        };
        let unsigned = self.int_part + seq!['.'] + frac;
        if self.negative {
            seq!['-'] + unsigned
        } else {
            unsigned
        }
    }

    /// The plain decimal rendering: the point appears only when a
    /// fractional part is present.
    pub open spec fn display_text(self) -> Seq<char> {
        let unsigned = if self.frac_part.len() == 0 {
            self.int_part
        } else {
            self.int_part + seq!['.'] + self.frac_part
        };
        if self.negative {
            seq!['-'] + unsigned
        } else {
            unsigned
        }
    }
}

/// Canonicalizes raw digit runs, as scanned or as split out of a numeral,
/// into a well-formed [`NumV`].
pub open spec fn norm_num(negative: bool, int_raw: Seq<char>, frac_raw: Seq<char>) -> NumV {
    let i = strip_leading_zeros(int_raw);
    let f = strip_trailing_zeros(frac_raw);
    let zero = i == seq!['0'] && f.len() == 0;
    NumV { negative: negative && !zero, int_part: i, frac_part: f }
}

/// The numeric value of a digit character.
pub open spec fn digit_val(c: char) -> int {
    if c == '0' {
        0
    } else if c == '1' {
        1
    } else if c == '2' {
        2
    } else if c == '3' {
        3
    } else if c == '4' {
        4
    } else if c == '5' {
        5
    } else if c == '6' {
        6
    } else if c == '7' {
        7
    } else if c == '8' {
        8
    } else {
        9
    }
}

/// The digit character for a value below ten.
pub open spec fn digit_char(d: int) -> char {
    if d == 0 {
        '0'
    } else if d == 1 {
        '1'
    } else if d == 2 {
        '2'
    } else if d == 3 {
        '3'
    } else if d == 4 {
        '4'
    } else if d == 5 {
        '5'
    } else if d == 6 {
        '6'
    } else if d == 7 {
        '7'
    } else if d == 8 {
        '8'
    } else {
        '9'
    }
}

/// The value denoted by a digit string, most significant digit first.
pub open spec fn dec_value(s: Seq<char>) -> int
    decreases s.len(),
{
    if s.len() == 0 {
        0
    } else {
        dec_value(s.drop_last()) * 10 + digit_val(s.last())
    }
}

/// The decimal digit string of a natural number, without leading zeros.
pub open spec fn dec_digits(n: nat) -> Seq<char>
    decreases n,
{
    if n < 10 {
        seq![digit_char(n as int)]
    } else {
        dec_digits(n / 10) + seq![digit_char((n % 10) as int)]
    }
}

/// End of the digit run of `s` that starts at `i`.
pub open spec fn digit_end(s: Seq<char>, i: int) -> int {
    run_end(s, i, |c: char| is_digit_char(c))
}

/// An unsigned numeral: one or more digits, optionally followed by a point
/// and further digits (possibly none).
pub open spec fn is_numeral(s: Seq<char>) -> bool {
    let e = digit_end(s, 0);
    e > 0 && (e == s.len() || (s[e] == '.' && digit_end(s, e + 1) == s.len()))
}

/// The canonical number denoted by an unsigned numeral.
pub open spec fn numeral_num(s: Seq<char>, negative: bool) -> NumV {
    let e = digit_end(s, 0);
    if e == s.len() {
        norm_num(negative, s, Seq::empty())
    } else {
        norm_num(negative, s.take(e), s.subrange(e + 1, s.len() as int))
    }
}

/// A numeral with an optional leading minus sign.
pub open spec fn is_signed_numeral(s: Seq<char>) -> bool {
    if s.len() > 0 && s[0] == '-' {
        is_numeral(s.drop_first())
    } else {
        is_numeral(s)
    }
}

/// The canonical number denoted by a signed numeral.
pub open spec fn signed_numeral_num(s: Seq<char>) -> NumV {
    if s.len() > 0 && s[0] == '-' {
        numeral_num(s.drop_first(), true)
    } else {
        numeral_num(s, false)
    }
}

/// The canonical number equal to the integer `i`.
pub open spec fn num_of_int(i: int) -> NumV {
    NumV {
        negative: i < 0,
        int_part: dec_digits(if i < 0 { (-i) as nat } else { i as nat }),
        frac_part: Seq::empty(),
    }
}

/// A signed run of digits: the grammar under which a symbol name is read as
/// an integer.
pub open spec fn is_int_numeral(s: Seq<char>) -> bool {
    if s.len() > 0 && s[0] == '-' {
        s.len() > 1 && all_digits(s.drop_first())
    } else {
        s.len() > 0 && all_digits(s)
    }
}

/// The integer denoted by a signed run of digits.
pub open spec fn int_numeral_value(s: Seq<char>) -> int {
    if s.len() > 0 && s[0] == '-' {
        -dec_value(s.drop_first())
    } else {
        dec_value(s)
    }
}

pub open spec fn fits_i64(v: int) -> bool {
    -0x8000_0000_0000_0000 <= v <= 0x7fff_ffff_ffff_ffff
}

/// A signed run of digits whose value fits a 64-bit signed integer.
pub open spec fn is_i64_numeral(s: Seq<char>) -> bool {
    is_int_numeral(s) && fits_i64(int_numeral_value(s))
}

/// The decimal rendering of an integer, with a minus sign when negative.
pub open spec fn int_dec_seq(i: int) -> Seq<char> {
    if i < 0 {
        seq!['-'] + dec_digits((-i) as nat)
    } else {
        dec_digits(i as nat)
    }
}

/// The integer a number truncates to (toward zero): its integer digits with
/// its sign.
impl NumV {
    pub open spec fn trunc_value(self) -> int {
        if self.negative {
            -dec_value(self.int_part)
        } else {
            dec_value(self.int_part)
        }
    }
}

/// Clamps an integer into the 64-bit signed range.
pub open spec fn sat_i64(v: int) -> int {
    if v < -0x8000_0000_0000_0000 {
        -0x8000_0000_0000_0000
    } else if v > 0x7fff_ffff_ffff_ffff {
        0x7fff_ffff_ffff_ffff
    } else {
        v
    }
}

pub proof fn lemma_dec_value_nonneg(s: Seq<char>)
    ensures
        dec_value(s) >= 0,
    decreases s.len(),
{
    if s.len() > 0 {
        lemma_dec_value_nonneg(s.drop_last());
    }
}

/// Appending further digits never shrinks the value.
pub proof fn lemma_dec_value_extend(s: Seq<char>, k: int)
    requires
        0 <= k <= s.len(),
    ensures
        dec_value(s) >= dec_value(s.take(k)),
    decreases s.len() - k,
{
    if k < s.len() {
        lemma_dec_value_extend(s, k + 1);
        assert(s.take(k + 1).drop_last() =~= s.take(k));
        lemma_dec_value_nonneg(s.take(k));
    } else {
        assert(s.take(k) =~= s);
    }
}

proof fn lemma_strip_leading_skip(s: Seq<char>, k: int)
    requires
        0 <= k < s.len(),
        forall|i: int| 0 <= i < k ==> s[i] == '0',
        k == s.len() - 1 || s[k] != '0',
    ensures
        strip_leading_zeros(s) == s.skip(k),
    decreases k,
{
    if k == 0 {
        assert(s.skip(0) =~= s);
    } else {
        assert(s[0] == '0');
        lemma_strip_leading_skip(s.drop_first(), k - 1);
        assert(s.drop_first().skip(k - 1) =~= s.skip(k));
    }
}

proof fn lemma_strip_trailing_take(s: Seq<char>, k: int)
    requires
        0 <= k <= s.len(),
        forall|i: int| k <= i < s.len() ==> s[i] == '0',
        k == 0 || s[k - 1] != '0',
    ensures
        strip_trailing_zeros(s) == s.take(k),
    decreases s.len() - k,
{
    if k == s.len() {
        assert(s.take(k) =~= s);
    } else {
        assert(s.last() == '0');
        lemma_strip_trailing_take(s.drop_last(), k);
        assert(s.drop_last().take(k) =~= s.take(k));
    }
}

proof fn lemma_strip_leading_props(s: Seq<char>)
    requires
        s.len() > 0,
        all_digits(s),
    ensures
        strip_leading_zeros(s).len() > 0,
        all_digits(strip_leading_zeros(s)),
        strip_leading_zeros(s).len() > 1 ==> strip_leading_zeros(s)[0] != '0',
    decreases s.len(),
{
    if s.len() > 1 && s[0] == '0' {
        assert(all_digits(s.drop_first())) by {
            assert(forall|i: int|
                0 <= i < s.drop_first().len() ==> #[trigger] s.drop_first()[i] == s[i + 1]);
        }
        lemma_strip_leading_props(s.drop_first());
    }
}

proof fn lemma_strip_trailing_props(s: Seq<char>)
    requires
        all_digits(s),
    ensures
        all_digits(strip_trailing_zeros(s)),
        strip_trailing_zeros(s).len() > 0 ==> strip_trailing_zeros(s).last() != '0',
        strip_trailing_zeros(s).len() <= s.len(),
    decreases s.len(),
{
    if s.len() > 0 && s.last() == '0' {
        assert(all_digits(s.drop_last())) by {
            assert(forall|i: int|
                0 <= i < s.drop_last().len() ==> #[trigger] s.drop_last()[i] == s[i]);
        }
        lemma_strip_trailing_props(s.drop_last());
    }
}

/// Canonicalization always yields a well-formed number.
pub proof fn lemma_norm_num_wf(negative: bool, int_raw: Seq<char>, frac_raw: Seq<char>)
    requires
        int_raw.len() > 0,
        all_digits(int_raw),
        all_digits(frac_raw),
    ensures
        norm_num(negative, int_raw, frac_raw).wf(),
{
    lemma_strip_leading_props(int_raw);
    lemma_strip_trailing_props(frac_raw);
    let n = norm_num(negative, int_raw, frac_raw);
    if n.negative {
        assert(!(n.int_part == seq!['0'] && n.frac_part.len() == 0));
    }
}

/// What a numeral scans to is canonical, and nonnegative unless asked for.
pub proof fn lemma_numeral_num_wf(u: Seq<char>, negative: bool)
    requires
        is_numeral(u),
    ensures
        numeral_num(u, negative).wf(),
        !negative ==> !numeral_num(u, negative).negative,
{
    let e = digit_end(u, 0);
    lemma_run_end_bounds(u, 0, |c: char| is_digit_char(c));
    if e == u.len() {
        assert(all_digits(u));
        lemma_norm_num_wf(negative, u, Seq::empty());
    } else {
        lemma_run_end_bounds(u, e + 1, |c: char| is_digit_char(c));
        assert(all_digits(u.take(e))) by {
            assert(forall|k: int| 0 <= k < e ==> u.take(e)[k] == #[trigger] u[k]);
        }
        assert(all_digits(u.subrange(e + 1, u.len() as int))) by {
            assert(forall|k: int|
                0 <= k < u.len() - e - 1 ==> u.subrange(e + 1, u.len() as int)[k]
                    == #[trigger] u[k + e + 1]);
        }
        lemma_norm_num_wf(negative, u.take(e), u.subrange(e + 1, u.len() as int));
    }
}

/// What a signed numeral denotes is canonical.
pub proof fn lemma_signed_numeral_num_wf(u: Seq<char>)
    requires
        is_signed_numeral(u),
    ensures
        signed_numeral_num(u).wf(),
{
    if u.len() > 0 && u[0] == '-' {
        lemma_numeral_num_wf(u.drop_first(), true);
    } else {
        lemma_numeral_num_wf(u, false);
    }
}

/// A decimal number held exactly: sign, integer digits, fraction digits,
/// all in the canonical form described by [`NumV::wf`].
#[derive(Debug, PartialEq)]
pub struct ShenNumber {
    pub negative: bool,
    pub int_part: String,
    pub frac_part: String,
}

impl View for ShenNumber {
    type V = NumV;

    open spec fn view(&self) -> NumV {
        NumV {
            negative: self.negative,
            int_part: self.int_part@,
            frac_part: self.frac_part@,
        }
    }
}

impl DeepView for ShenNumber {
    type V = NumV;

    open spec fn deep_view(&self) -> NumV {
        self.view()
    }
}

fn digit_val_x(c: char) -> (d: u64)
    ensures
        d as int == digit_val(c),
        d <= 9,
{
    if c == '0' {
        0
    } else if c == '1' {
        1
    } else if c == '2' {
        2
    } else if c == '3' {
        3
    } else if c == '4' {
        4
    } else if c == '5' {
        5
    } else if c == '6' {
        6
    } else if c == '7' {
        7
    } else if c == '8' {
        8
    } else {
        9
    }
}

fn digit_char_x(d: u64) -> (c: char)
    ensures
        c == digit_char(d as int),
{
    if d == 0 {
        '0'
    } else if d == 1 {
        '1'
    } else if d == 2 {
        '2'
    } else if d == 3 {
        '3'
    } else if d == 4 {
        '4'
    } else if d == 5 {
        '5'
    } else if d == 6 {
        '6'
    } else if d == 7 {
        '7'
    } else if d == 8 {
        '8'
    } else {
        '9'
    }
}

/// The value of the digit run `v[lo..hi]`, unless it exceeds `limit`.
fn digits_to_u64_capped(v: &Vec<char>, lo: usize, hi: usize, limit: u64) -> (r: Option<u64>)
    requires
        lo <= hi <= v@.len(),
        limit >= 9,
    ensures
        ({
            let value = dec_value(v@.subrange(lo as int, hi as int));
            match r {
                Some(a) => a as int == value && a <= limit,
                None => value > limit,
            }
        }),
{
    let ghost u = v@.subrange(lo as int, hi as int);
    let mut acc: u64 = 0;
    let mut i: usize = lo;
    proof {
        assert(u.take(0) =~= Seq::<char>::empty());
    }
    while i < hi
        invariant
            lo <= i <= hi <= v@.len(),
            limit >= 9,
            u == v@.subrange(lo as int, hi as int),
            acc as int == dec_value(u.take(i - lo)),
            acc <= limit,
        decreases hi - i,
    {
        let d = digit_val_x(v[i]);
        proof {
            assert(u.take(i - lo + 1).drop_last() =~= u.take(i - lo));
            assert(u.take(i - lo + 1).last() == v@[i as int]);
        }
        if acc > (limit - d) / 10 {
            proof {
                assert(acc * 10 + d > limit) by {
                    assert(acc >= (limit - d) / 10 + 1);
                    assert((limit - d) / 10 * 10 + 9 >= limit - d);
                    assert(acc * 10 >= ((limit - d) / 10 + 1) * 10) by (nonlinear_arith)
                        requires
                            acc >= (limit - d) / 10 + 1,
                    ;
                }
                assert(dec_value(u.take(i - lo + 1)) > limit);
                lemma_dec_value_extend(u, i - lo + 1);
            }
            return None;
        }
        proof {
            assert(acc * 10 + d <= limit) by {
                assert(acc <= (limit - d) / 10);
                assert((limit - d) / 10 * 10 <= limit - d);
                assert(acc * 10 <= (limit - d) / 10 * 10) by (nonlinear_arith)
                    requires
                        acc <= (limit - d) / 10,
                ;
            }
        }
        acc = acc * 10 + d;
        i += 1;
    }
    proof {
        assert(u.take(hi - lo) =~= u);
    }
    Some(acc)
}

fn u64_digits(n: u64) -> (v: Vec<char>)
    ensures
        v@ == dec_digits(n as nat),
    decreases n,
{
    if n < 10 {
        let mut v: Vec<char> = Vec::new();
        v.push(digit_char_x(n));
        proof {
            assert(v@ =~= dec_digits(n as nat));
        }
        v
    } else {
        let mut v = u64_digits(n / 10);
        v.push(digit_char_x(n % 10));
        proof {
            assert(v@ =~= dec_digits(n as nat));
        }
        v
    }
}

/// The digits of a natural number are canonical: nonempty, digits only, no
/// leading zero, and `0` only for zero itself.
pub proof fn lemma_dec_digits_props(n: nat)
    ensures
        dec_digits(n).len() > 0,
        all_digits(dec_digits(n)),
        dec_digits(n).len() > 1 ==> dec_digits(n)[0] != '0',
        n > 0 ==> dec_digits(n) != seq!['0'],
    decreases n,
{
    if n < 10 {
        assert(dec_digits(n) =~= seq![digit_char(n as int)]);
        if n > 0 {
            assert(dec_digits(n)[0] != '0');
        }
    } else {
        lemma_dec_digits_props(n / 10);
        assert(n / 10 > 0);
    }
}

impl ShenNumber {
    /// The canonical number equal to the given integer.
    pub fn from_i64(i: i64) -> (r: ShenNumber)
        ensures
            r@ == num_of_int(i as int),
            r@.wf(),
    {
        let negative = i < 0;
        let u: u64 = if i == i64::MIN {
            0x8000_0000_0000_0000
        } else if i < 0 {
            (-i) as u64
        } else {
            i as u64
        };
        proof {
            assert(u as int == if i < 0 { -(i as int) } else { i as int });
            lemma_dec_digits_props(u as nat);
        }
        let ds = u64_digits(u);
        let int_part = string_from_chars(&ds);
        ShenNumber { negative, int_part, frac_part: String::new() }
    }
}

/// The decimal rendering of an unsigned machine integer.
pub fn usize_to_string(n: usize) -> (s: String)
    ensures
        s@ == dec_digits(n as nat),
{
    let ds = u64_digits(n as u64);
    string_from_chars(&ds)
}

/// The decimal rendering of a 64-bit integer.
pub fn i64_to_string(i: i64) -> (s: String)
    ensures
        s@ == int_dec_seq(i as int),
{
    if i < 0 {
        let u: u64 = if i == i64::MIN {
            0x8000_0000_0000_0000
        } else {
            (-i) as u64
        };
        proof {
            assert(u as int == -(i as int));
        }
        let ds = u64_digits(u);
        let mut s = String::from_str("-");
        let tail = string_from_chars(&ds);
        s.append(tail.as_str());
        proof {
            reveal_strlit("-");
            assert(s@ =~= int_dec_seq(i as int));
        }
        s
    } else {
        let ds = u64_digits(i as u64);
        string_from_chars(&ds)
    }
}

/// Reads a symbol name as a 64-bit integer: an optional minus sign, then
/// digits, with the value in range.
pub fn parse_i64(name: &str) -> (r: Option<i64>)
    ensures
        r is Some <==> is_i64_numeral(name@),
        r matches Some(x) ==> x as int == int_numeral_value(name@),
{
    let v = chars_of(name);
    let negative = v.len() > 0 && v[0] == '-';
    let off: usize = if negative {
        1
    } else {
        0
    };
    let ghost u = if negative {
        name@.drop_first()
    } else {
        name@
    };
    proof {
        assert(u =~= v@.subrange(off as int, v@.len() as int));
    }
    if v.len() == off {
        return None;
    }
    let mut i: usize = off;
    while i < v.len()
        invariant
            off <= i <= v@.len(),
            u == v@.subrange(off as int, v@.len() as int),
            u == (if negative { name@.drop_first() } else { name@ }),
            negative == (v@.len() > 0 && v@[0] == '-'),
            v@ == name@,
            forall|k: int| off <= k < i ==> is_digit_char(#[trigger] v@[k]),
        decreases v@.len() - i,
    {
        if !(v[i] >= '0' && v[i] <= '9') {
            proof {
                assert(u[i - off] == v@[i as int]);
                assert(!is_digit_char(u[i - off]));
            }
            return None;
        }
        i += 1;
    }
    proof {
        assert(all_digits(u)) by {
            assert(forall|k: int| 0 <= k < u.len() ==> u[k] == v@[#[trigger] (k + off)]);
        }
    }
    let limit: u64 = if negative {
        0x8000_0000_0000_0000
    } else {
        0x7fff_ffff_ffff_ffff
    };
    match digits_to_u64_capped(&v, off, v.len(), limit) {
        None => {
            proof {
                lemma_dec_value_nonneg(u);
            }
            None
        },
        Some(a) => {
            if negative {
                if a == 0x8000_0000_0000_0000 {
                    Some(i64::MIN)
                } else {
                    Some(-(a as i64))
                }
            } else {
                Some(a as i64)
            }
        },
    }
}

impl Clone for ShenNumber {
    fn clone(&self) -> (r: Self)
        ensures
            r@ == self@,
    {
        ShenNumber {
            negative: self.negative,
            int_part: self.int_part.clone(),
            frac_part: self.frac_part.clone(),
        }
    }
}

impl ShenNumber {
    /// Canonicalizes the digit runs `v[i0..i1]` (integer part) and
    /// `v[f0..f1]` (fractional part) into a number.
    pub fn from_digit_runs(v: &Vec<char>, negative: bool, i0: usize, i1: usize, f0: usize, f1:
        usize) -> (r: ShenNumber)
        requires
            i0 < i1 <= v@.len(),
            f0 <= f1 <= v@.len(),
            forall|i: int| i0 <= i < i1 ==> is_digit_char(#[trigger] v@[i]),
            forall|i: int| f0 <= i < f1 ==> is_digit_char(#[trigger] v@[i]),
        ensures
            r@ == norm_num(negative, v@.subrange(i0 as int, i1 as int),
                v@.subrange(f0 as int, f1 as int)),
            r@.wf(),
    {
        let ghost int_raw = v@.subrange(i0 as int, i1 as int);
        let ghost frac_raw = v@.subrange(f0 as int, f1 as int);
        let mut start: usize = i0;
        while start + 1 < i1 && v[start] == '0'
            invariant
                i0 <= start < i1 <= v@.len(),
                forall|i: int| i0 <= i < start ==> v@[i] == '0',
            decreases i1 - start,
        {
            start += 1;
        }
        let mut end: usize = f1;
        while end > f0 && v[end - 1] == '0'
            invariant
                f0 <= end <= f1 <= v@.len(),
                forall|i: int| end <= i < f1 ==> v@[i] == '0',
            decreases end,
        {
            end -= 1;
        }
        proof {
            lemma_strip_leading_skip(int_raw, start - i0);
            assert(int_raw.skip(start - i0) =~= v@.subrange(start as int, i1 as int));
            lemma_strip_trailing_take(frac_raw, end - f0);
            assert(frac_raw.take(end - f0) =~= v@.subrange(f0 as int, end as int));
            lemma_norm_num_wf(negative, int_raw, frac_raw);
        }
        let zero = start + 1 == i1 && v[start] == '0' && end == f0;
        proof {
            if start + 1 == i1 && v@[start as int] == '0' {
                assert(v@.subrange(start as int, i1 as int) =~= seq!['0']);
            } else {
                assert(v@.subrange(start as int, i1 as int)[0] == v@[start as int]);
            }
        }
        let int_part = string_from_range(v, start, i1);
        let frac_part = string_from_range(v, f0, end);
        ShenNumber { negative: negative && !zero, int_part, frac_part }
    }

    /// Parses a signed numeral (`-`? digits, optionally a point and more
    /// digits), the grammar under which symbol names are read as numbers.
    #[verifier::rlimit(50)]
    pub fn from_literal(text: &str) -> (r: Option<ShenNumber>)
        ensures
            r is Some <==> is_signed_numeral(text@),
            r matches Some(n) ==> n@ == signed_numeral_num(text@) && n@.wf(),
    {
        let v = chars_of(text);
        let negative = v.len() > 0 && v[0] == '-';
        let off: usize = if negative { 1 } else { 0 };
        let ghost u = if negative { text@.drop_first() } else { text@ };
        proof {
            assert(u =~= v@.subrange(off as int, v@.len() as int));
        }
        // end of the digit run of the integer part
        let mut e: usize = off;
        while e < v.len() && v[e] >= '0' && v[e] <= '9'
            invariant
                off <= e <= v@.len(),
                forall|i: int| off <= i < e ==> is_digit_char(#[trigger] v@[i]),
            decreases v@.len() - e,
        {
            e += 1;
        }
        proof {
            lemma_run_end_is(u, 0, e - off, |c: char| is_digit_char(c));
        }
        if e == off {
            return None;
        }
        if e == v.len() {
            let n = ShenNumber::from_digit_runs(&v, negative, off, e, e, e);
            proof {
                assert(v@.subrange(off as int, e as int) =~= u);
                assert(v@.subrange(e as int, e as int) =~= Seq::<char>::empty());
            }
            return Some(n);
        }
        if v[e] != '.' {
            return None;
        }
        // the rest must be digits
        let mut k: usize = e + 1;
        while k < v.len() && v[k] >= '0' && v[k] <= '9'
            invariant
                e + 1 <= k <= v@.len(),
                forall|i: int| e + 1 <= i < k ==> is_digit_char(#[trigger] v@[i]),
            decreases v@.len() - k,
        {
            k += 1;
        }
        proof {
            lemma_run_end_is(u, e + 1 - off, k - off, |c: char| is_digit_char(c));
        }
        if k != v.len() {
            return None;
        }
        let n = ShenNumber::from_digit_runs(&v, negative, off, e, e + 1, k);
        proof {
            assert(v@.subrange(off as int, e as int) =~= u.take(e - off));
            assert(v@.subrange(e + 1 as int, k as int) =~= u.subrange(e + 1 - off, u.len() as int));
        }
        Some(n)
    }

    pub fn is_zero(&self) -> (b: bool)
        ensures
            b == self@.is_zero(),
    {
        let s = self.int_part.as_str();
        let b = s.unicode_len() == 1 && s.get_char(0) == '0'
            && self.frac_part.as_str().unicode_len() == 0;
        proof {
            if self.int_part@.len() == 1 && self.int_part@[0] == '0' {
                assert(self.int_part@ =~= seq!['0']);
            }
            if self.int_part@ == seq!['0'] {
                assert(self.int_part@.len() == 1);
            }
        }
        b
    }

    pub fn is_integral(&self) -> (b: bool)
        ensures
            b == self@.is_integral(),
    {
        self.frac_part.as_str().unicode_len() == 0
    }

    /// Renders the number as the target's float literal: the point is always
    /// written, with `.0` standing in for an empty fractional part.
    pub fn float_text(&self) -> (s: String)
        ensures
            s@ == self@.float_text(),
    {
        let mut s = String::new();
        if self.negative {
            push_char(&mut s, '-');
        }
        s.append(self.int_part.as_str());
        push_char(&mut s, '.');
        if self.frac_part.as_str().unicode_len() == 0 {
            push_char(&mut s, '0');
        } else {
            s.append(self.frac_part.as_str());
        }
        proof {
            assert(s@ =~= self@.float_text());
        }
        s
    }

    /// The 64-bit integer this number truncates to (toward zero), clamped
    /// into range — the behaviour of a float-to-integer cast.
    pub fn to_i64_saturating(&self) -> (r: i64)
        ensures
            r as int == sat_i64(self@.trunc_value()),
    {
        let v = chars_of(self.int_part.as_str());
        proof {
            lemma_dec_value_nonneg(self.int_part@);
            assert(v@.subrange(0, v@.len() as int) =~= self.int_part@);
        }
        if self.negative {
            match digits_to_u64_capped(&v, 0, v.len(), 0x8000_0000_0000_0000) {
                Some(a) => {
                    if a == 0x8000_0000_0000_0000 {
                        i64::MIN
                    } else {
                        -(a as i64)
                    }
                },
                None => i64::MIN,
            }
        } else {
            match digits_to_u64_capped(&v, 0, v.len(), 0x7fff_ffff_ffff_ffff) {
                Some(a) => a as i64,
                None => i64::MAX,
            }
        }
    }

    /// Renders the number as a plain decimal: the point appears only when a
    /// fractional part is present.
    pub fn display_text(&self) -> (s: String)
        ensures
            s@ == self@.display_text(),
    {
        let mut s = String::new();
        if self.negative {
            push_char(&mut s, '-');
        }
        s.append(self.int_part.as_str());
        if self.frac_part.as_str().unicode_len() > 0 {
            push_char(&mut s, '.');
            s.append(self.frac_part.as_str());
        }
        proof {
            assert(s@ =~= self@.display_text());
        }
        s
    }
}

} // verus!
