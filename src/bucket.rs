use std::collections::BTreeMap;
use vstd::multiset::Multiset;
use vstd::prelude::*;
use crate::text::{
    all_digits, chars_of, digits_capped, digits_in, digits_value, first_index, lemma_digits_value_bound,
    lemma_first_index_at, pow10,
};
use vstd::std_specs::cmp::OrdSpec;
use vstd::std_specs::iter::IteratorSpec;

verus! {

broadcast use vstd::std_specs::btree::group_btree_axioms;

/// One second, in microseconds.
pub const SECOND: u64 = 1_000_000;

/// One day, in microseconds.
pub const DAY: u64 = 86_400_000_000;

/// The width used by `Auto` before any instant has been seen.
pub const DEFAULT_WIDTH: u64 = 60_000_000;

/// The number of buckets that automatic sizing aims for.
pub const TARGET_BUCKETS: u64 = 15;

/// How wide a bucket is.
#[derive(Debug, Clone, Copy, PartialEq, Eq, Structural)]
pub enum BucketSize {
    /// A fixed positive width, in microseconds.
    Micros(u64),
    /// A width derived from the observed span when it is asked for.
    Auto,
}

/// Why a bucket-width specification was refused.
#[derive(Debug, Clone, Copy, PartialEq, Eq, Structural)]
pub enum BucketSpecError {
    /// Neither `auto` nor a positive decimal number of seconds.
    InvalidBucketSpec,
}

/// Ladder of widths that automatic sizing snaps up to: the smallest rung
/// whose `TARGET_BUCKETS` multiple covers the span, and whole days above one
/// day.
pub open spec fn auto_width(span: int) -> int {
    let t = TARGET_BUCKETS as int;
    if span <= t * 100_000 {
        100_000
    } else if span <= t * 1_000_000 {
        1_000_000
    } else if span <= t * 60_000_000 {
        60_000_000
    } else if span <= t * 300_000_000 {
        300_000_000
    } else if span <= t * 900_000_000 {
        900_000_000
    } else if span <= t * 3_600_000_000 {
        3_600_000_000
    } else if span <= t * 21_600_000_000 {
        21_600_000_000
    } else {
        // smallest whole number of days whose multiple covers the span
        ((span + t * DAY - 1) / (t * DAY)) * DAY
    }
}

/// Left edge of the bucket of width `w` that holds `t`.
pub open spec fn bucket_key(t: int, w: int) -> int {
    (t / w) * w
}

/// Whether `c` is the lower-case ASCII letter `lower` in either case.
pub open spec fn same_letter(c: char, lower: char) -> bool {
    c == lower || c as u32 + 32 == lower as u32
}

/// Whether `s` spells `auto`, ignoring case.
pub open spec fn spells_auto(s: Seq<char>) -> bool {
    &&& s.len() == 4
    &&& same_letter(s[0], 'a')
    &&& same_letter(s[1], 'u')
    &&& same_letter(s[2], 't')
    &&& same_letter(s[3], 'o')
}

/// Index of the first `e` or `E` in `s`, or the length of `s` when there is
/// none.
pub open spec fn exponent_mark(s: Seq<char>) -> int
    decreases s.len(),
{
    if s.len() == 0 {
        0
    } else if s[0] == 'e' || s[0] == 'E' {
        0
    } else {
        1 + exponent_mark(s.drop_first())
    }
}

/// An exponent: an optional sign and at least one ASCII digit.
pub open spec fn exponent_value(es: Seq<char>) -> Option<int> {
    let signed = es.len() > 0 && (es[0] == '+' || es[0] == '-');
    let ed = if signed {
        es.drop_first()
    } else {
        es
    };
    if ed.len() > 0 && all_digits(ed) {
        Some(
            if es[0] == '-' {
                -digits_value(ed)
            } else {
                digits_value(ed)
            },
        )
    } else {
        None
    }
}

/// The digits `d` read as a whole number times ten to the `k`, truncated
/// to a whole number.
pub open spec fn scaled(d: Seq<char>, k: int) -> int {
    if k >= 0 {
        digits_value(d) * pow10(k as nat)
    } else if -k >= d.len() {
        0
    } else {
        digits_value(d.subrange(0, d.len() + k))
    }
}

/// A decimal number of seconds, as microseconds: an optional `+`, integer
/// digits, an optional `.` followed by fraction digits (at least one digit
/// in all), and an optional exponent: `e` or `E`, an optional sign and
/// digits. The value is truncated to the microsecond. `inf`, `NaN` and
/// hexadecimal forms are not numbers here. The result is refused when it is
/// zero or does not fit in 64 bits.
pub open spec fn width_micros(s: Seq<char>) -> Option<int> {
    let body = if s.len() > 0 && s[0] == '+' {
        s.drop_first()
    } else {
        s
    };
    let q = exponent_mark(body);
    let mant = body.subrange(0, q);
    let exp = if q < body.len() {
        exponent_value(body.subrange(q + 1, body.len() as int))
    } else {
        Some(0)
    };
    match exp {
        None => None,
        Some(e) => mantissa_micros(mant, e),
    }
}

/// Microseconds in `mant` seconds times ten to the `e`: integer digits and
/// an optional `.` with fraction digits, at least one digit in all; the
/// value truncated, positive and within 64 bits.
pub open spec fn mantissa_micros(mant: Seq<char>, e: int) -> Option<int> {
    let p = first_index(mant, '.');
    let ip = mant.subrange(0, p);
    let fp = if p < mant.len() {
        mant.subrange(p + 1, mant.len() as int)
    } else {
        Seq::<char>::empty()
    };
    let v = scaled(ip + fp, 6 + e - fp.len());
    if all_digits(ip) && all_digits(fp) && ip.len() + fp.len() > 0 && 0 < v <= u64::MAX {
        Some(v)
    } else {
        None
    }
}

/// The width a specification string stands for, if it is valid.
pub open spec fn parse_size(s: Seq<char>) -> Option<BucketSize> {
    if spells_auto(s) {
        Some(BucketSize::Auto)
    } else {
        match width_micros(s) {
            Some(v) => Some(BucketSize::Micros(v as u64)),
            None => None,
        }
    }
}

impl BucketSize {
    /// Reads `auto` (any case) or a positive decimal number of seconds.
    pub fn from_string(s: &str) -> (r: Result<BucketSize, BucketSpecError>)
        ensures
            r matches Ok(b) ==> parse_size(s@) == Some(b),
            r is Err <==> parse_size(s@) is None,
            r matches Ok(BucketSize::Micros(w)) ==> w > 0,
    {
        let c = chars_of(s);
        if c.len() == 4 && is_letter(c[0], 'a') && is_letter(c[1], 'u') && is_letter(c[2], 't')
            && is_letter(c[3], 'o') {
            return Ok(BucketSize::Auto);
        }
        match parse_width(&c) {
            Some(v) => Ok(BucketSize::Micros(v)),
            None => Err(BucketSpecError::InvalidBucketSpec),
        }
    }
}

/// Exponents at least this large in size are clamped to it.
const EXPONENT_CAP: u128 = 100_000_000_000_000_000_000;

/// `exponent_mark` is the position of the first `e` or `E`, given what
/// precedes it.
proof fn lemma_exponent_mark_at(s: Seq<char>, k: int)
    requires
        0 <= k <= s.len(),
        k < s.len() ==> (s[k] == 'e' || s[k] == 'E'),
        forall|i: int| 0 <= i < k ==> s[i] != 'e' && s[i] != 'E',
    ensures
        exponent_mark(s) == k,
    decreases s.len(),
{
    if s.len() > 0 && k > 0 {
        assert forall|i: int| 0 <= i < k - 1 implies s.drop_first()[i] != 'e'
            && s.drop_first()[i] != 'E' by {
            assert(s.drop_first()[i] == s[i + 1]);
        }
        lemma_exponent_mark_at(s.drop_first(), k - 1);
    }
}

/// The exponent written in `c[from..to]`, clamped to `EXPONENT_CAP` in size.
fn exponent_in(c: &Vec<char>, from: usize, to: usize) -> (r: Option<i128>)
    requires
        from <= to <= c.len(),
    ensures
        r is Some <==> exponent_value(c@.subrange(from as int, to as int)) is Some,
        r matches Some(x) ==> {
            let e = exponent_value(c@.subrange(from as int, to as int))->0;
            &&& (-(EXPONENT_CAP as int) < e < EXPONENT_CAP ==> x == e)
            &&& (e >= EXPONENT_CAP ==> x == EXPONENT_CAP)
            &&& (e <= -(EXPONENT_CAP as int) ==> x == -(EXPONENT_CAP as int))
        },
{
    let ghost es = c@.subrange(from as int, to as int);
    if from == to {
        return None;
    }
    let negative = c[from] == '-';
    let start: usize = if c[from] == '+' || c[from] == '-' {
        from + 1
    } else {
        from
    };
    let ghost ed = if es[0] == '+' || es[0] == '-' {
        es.drop_first()
    } else {
        es
    };
    assert(ed =~= c@.subrange(start as int, to as int));
    if start == to {
        return None;
    }
    match digits_capped(c, start, to, EXPONENT_CAP) {
        Some(m) => {
            if negative {
                Some(0i128 - m as i128)
            } else {
                Some(m as i128)
            }
        },
        None => None,
    }
}

/// Ten to the power `n` for `n` up to 19.
fn pow10_upto19(n: u32) -> (r: u128)
    requires
        n <= 19,
    ensures
        r as int == pow10(n as nat),
        r <= 10_000_000_000_000_000_000,
{
    let mut r: u128 = 1;
    let mut i: u32 = 0;
    while i < n
        invariant
            i <= n <= 19,
            r as int == pow10(i as nat),
            r <= pow10(i as nat),
            pow10(i as nat) <= 10_000_000_000_000_000_000,
        decreases n - i,
    {
        proof {
            crate::text::lemma_pow10_mono((i + 1) as nat, 19);
            crate::text::lemma_pow10_small();
        }
        r = r * 10;
        i = i + 1;
    }
    proof {
        crate::text::lemma_pow10_mono(n as nat, 19);
        crate::text::lemma_pow10_small();
    }
    r
}

/// A scale of twenty or more makes any non-zero digits too large, and a
/// negative scale at least as long as the digits leaves nothing.
proof fn lemma_scaled_out_of_range(d: Seq<char>, k: int)
    requires
        all_digits(d),
    ensures
        k >= 20 ==> !(0 < scaled(d, k) <= u64::MAX),
        k < 0 && -k >= d.len() ==> scaled(d, k) == 0,
{
    if k >= 20 {
        lemma_digits_value_bound(d);
        crate::text::lemma_pow10_mono(20, k as nat);
        crate::text::lemma_pow10_small();
        let v = digits_value(d);
        let t = pow10(k as nat);
        assert(v == 0 || v * t >= t) by (nonlinear_arith)
            requires
                v >= 0,
                t >= 1,
        ;
        assert(scaled(d, k) == v * t);
        assert(t >= 100_000_000_000_000_000_000);
        if v == 0 {
            assert(v * t == 0) by (nonlinear_arith)
                requires
                    v == 0,
            ;
        }
    }
}

/// The digits of `d` times ten to the `k`, truncated, when that is positive
/// and fits in 64 bits.
fn scale_digits(d: &Vec<char>, k: i128) -> (r: Option<u64>)
    requires
        all_digits(d@),
        -1_000_000_000_000_000_000_000 <= k,
    ensures
        r matches Some(v) ==> v as int == scaled(d@, k as int) && v > 0,
        r is None <==> !(0 < scaled(d@, k as int) <= u64::MAX),
{
    let cap: u128 = 20_000_000_000_000_000_000;
    proof {
        lemma_scaled_out_of_range(d@, k as int);
        lemma_digits_value_bound(d@);
    }
    if k >= 0 {
        if k >= 20 {
            return None;
        }
        let value = match digits_capped(d, 0, d.len(), cap) {
            Some(x) => x,
            None => {
                return None;
            },
        };
        assert(d@.subrange(0, d.len() as int) =~= d@);
        let t = pow10_upto19(k as u32);
        proof {
            crate::text::lemma_pow10_positive(k as nat);
        }
        if value >= cap {
            assert(digits_value(d@) * pow10(k as nat) >= cap) by (nonlinear_arith)
                requires
                    digits_value(d@) >= cap,
                    pow10(k as nat) >= 1,
            ;
            return None;
        }
        assert(value * t <= 200_000_000_000_000_000_000_000_000_000_000_000_000) by (
        nonlinear_arith)
            requires
                value < 20_000_000_000_000_000_000,
                t <= 10_000_000_000_000_000_000,
        ;
        let v: u128 = value * t;
        if v == 0 || v > u64::MAX as u128 {
            return None;
        }
        Some(v as u64)
    } else {
        if d.len() as i128 <= 0i128 - k {
            return None;
        }
        let keep: usize = (d.len() as i128 + k) as usize;
        let value = match digits_capped(d, 0, keep, cap) {
            Some(x) => x,
            None => {
                return None;
            },
        };
        if value == 0 || value > u64::MAX as u128 {
            return None;
        }
        Some(value as u64)
    }
}

/// An exponent of `EXPONENT_CAP` or more in size leaves no width.
proof fn lemma_huge_exponent(mant: Seq<char>, e: int)
    requires
        e >= EXPONENT_CAP || e <= -(EXPONENT_CAP as int),
        mant.len() <= usize::MAX,
    ensures
        mantissa_micros(mant, e) is None,
{
    lemma_first_index_bounds_local(mant);
    let p = first_index(mant, '.');
    let ip = mant.subrange(0, p);
    let fp = if p < mant.len() {
        mant.subrange(p + 1, mant.len() as int)
    } else {
        Seq::<char>::empty()
    };
    if all_digits(ip) && all_digits(fp) {
        assert(all_digits(ip + fp)) by {
            assert forall|k: int| 0 <= k < (ip + fp).len() implies '0' <= #[trigger] (ip
                + fp)[k] <= '9' by {
                if k < ip.len() {
                    assert((ip + fp)[k] == ip[k]);
                } else {
                    assert((ip + fp)[k] == fp[k - ip.len()]);
                }
            }
        }
        lemma_scaled_out_of_range(ip + fp, 6 + e - fp.len());
    }
}

proof fn lemma_first_index_bounds_local(s: Seq<char>)
    ensures
        0 <= first_index(s, '.') <= s.len(),
    decreases s.len(),
{
    if s.len() > 0 && s[0] != '.' {
        lemma_first_index_bounds_local(s.drop_first());
    }
}

/// The positive number of microseconds in `c[start..q]` seconds times ten
/// to the `e`, if any.
#[verifier::rlimit(40)]
fn mantissa_width(c: &Vec<char>, start: usize, q: usize, e: i128) -> (r: Option<u64>)
    requires
        start <= q <= c.len(),
        -(EXPONENT_CAP as int) < e < EXPONENT_CAP,
    ensures
        r matches Some(v) ==> mantissa_micros(c@.subrange(start as int, q as int), e as int)
            == Some(v as int) && v > 0,
        r is None <==> mantissa_micros(c@.subrange(start as int, q as int), e as int) is None,
{
    let ghost mant = c@.subrange(start as int, q as int);
    let mut p: usize = start;
    while p < q && c[p] != '.'
        invariant
            start <= p <= q <= c.len(),
            forall|i: int| start <= i < p ==> c@[i] != '.',
        decreases q - p,
    {
        p = p + 1;
    }
    proof {
        lemma_first_index_at(mant, '.', p - start);
    }
    let frac_from: usize = if p < q {
        p + 1
    } else {
        q
    };
    let ghost ip = mant.subrange(0, p - start);
    let ghost fp = if p < q {
        mant.subrange(p - start + 1, mant.len() as int)
    } else {
        Seq::<char>::empty()
    };
    assert(ip =~= c@.subrange(start as int, p as int));
    assert(fp =~= c@.subrange(frac_from as int, q as int));
    if (p - start) + (q - frac_from) == 0 {
        return None;
    }
    if digits_capped(c, start, p, 0).is_none() || digits_capped(c, frac_from, q, 0).is_none() {
        return None;
    }
    let mut d: Vec<char> = Vec::new();
    let mut i: usize = start;
    while i < p
        invariant
            start <= i <= p <= q <= c.len(),
            d@ == c@.subrange(start as int, i as int),
        decreases p - i,
    {
        d.push(c[i]);
        i = i + 1;
        assert(d@ =~= c@.subrange(start as int, i as int));
    }
    let mut j: usize = frac_from;
    while j < q
        invariant
            frac_from <= j <= q <= c.len(),
            d@ == ip + c@.subrange(frac_from as int, j as int),
            ip == c@.subrange(start as int, p as int),
        decreases q - j,
    {
        d.push(c[j]);
        j = j + 1;
        assert(d@ =~= ip + c@.subrange(frac_from as int, j as int));
    }
    assert(d@ =~= ip + fp);
    assert(all_digits(d@)) by {
        assert forall|k: int| 0 <= k < d@.len() implies '0' <= #[trigger] d@[k] <= '9' by {
            if k < ip.len() {
                assert(d@[k] == ip[k]);
            } else {
                assert(d@[k] == fp[k - ip.len()]);
            }
        }
    }
    let f: usize = q - frac_from;
    let k: i128 = 6 + e - f as i128;
    scale_digits(&d, k)
}

/// The positive number of microseconds that `c` spells as seconds, if any.
fn parse_width(c: &Vec<char>) -> (r: Option<u64>)
    ensures
        r matches Some(v) ==> width_micros(c@) == Some(v as int) && v > 0,
        r is None <==> width_micros(c@) is None,
{
    let n = c.len();
    let start: usize = if n > 0 && c[0] == '+' {
        1
    } else {
        0
    };
    let ghost body = if c@.len() > 0 && c@[0] == '+' {
        c@.drop_first()
    } else {
        c@
    };
    assert(body =~= c@.subrange(start as int, n as int));
    let mut q: usize = start;
    while q < n && c[q] != 'e' && c[q] != 'E'
        invariant
            start <= q <= n == c.len(),
            forall|i: int| start <= i < q ==> c@[i] != 'e' && c@[i] != 'E',
        decreases n - q,
    {
        q = q + 1;
    }
    proof {
        lemma_exponent_mark_at(body, q - start);
    }
    let ghost mant = body.subrange(0, q - start);
    assert(mant =~= c@.subrange(start as int, q as int));
    let e: i128 = if q < n {
        assert(body.subrange(q - start + 1, body.len() as int) =~= c@.subrange(q + 1, n as int));
        match exponent_in(c, q + 1, n) {
            Some(x) => x,
            None => {
                return None;
            },
        }
    } else {
        0
    };
    let cap: i128 = EXPONENT_CAP as i128;
    if e == cap || e == 0i128 - cap {
        proof {
            let et = exponent_value(body.subrange(q - start + 1, body.len() as int))->0;
            lemma_huge_exponent(mant, et);
        }
        return None;
    }
    mantissa_width(c, start, q, e)
}

/// Ten to the power `n`, for small `n`.
fn pow10_upto6(n: usize) -> (r: u64)
    requires
        n <= 6,
    ensures
        r as int == pow10(n as nat),
{
    reveal_with_fuel(pow10, 7);
    match n {
        0 => 1,
        1 => 10,
        2 => 100,
        3 => 1_000,
        4 => 10_000,
        5 => 100_000,
        _ => 1_000_000,
    }
}

/// Whether `c` is the lower-case ASCII letter `lower` in either case.
fn is_letter(c: char, lower: char) -> (r: bool)
    requires
        'a' <= lower <= 'z',
    ensures
        r == same_letter(c, lower),
{
    c == lower || (c as u32) + 32 == lower as u32
}

/// What an aggregator holds, as mathematics.
pub struct BucketModel {
    pub size: BucketSize,
    /// How many instants landed in each bucket, by left edge.
    pub counts: Multiset<int>,
    /// Earliest and latest instant seen, if any.
    pub span: Option<(int, int)>,
}

impl BucketModel {
    /// The width in effect for this state.
    pub open spec fn active_width(self) -> int {
        match self.size {
            BucketSize::Micros(w) => w as int,
            BucketSize::Auto => match self.span {
                Some((first, last)) => auto_width(last - first),
                None => DEFAULT_WIDTH as int,
            },
        }
    }

    /// The span after seeing `t`.
    pub open spec fn widen(span: Option<(int, int)>, t: int) -> Option<(int, int)> {
        match span {
            None => Some((t, t)),
            Some((first, last)) => Some(
                (if t < first { t } else { first }, if t > last { t } else { last }),
            ),
        }
    }

    /// The state after one instant is added.
    pub open spec fn add(self, t: int) -> BucketModel {
        let grown = BucketModel { span: Self::widen(self.span, t), ..self };
        BucketModel { counts: self.counts.insert(bucket_key(t, grown.active_width())), ..grown }
    }

    /// The state after the instants of `ts` are added in order.
    pub open spec fn add_all(self, ts: Seq<i64>) -> BucketModel
        decreases ts.len(),
    {
        if ts.len() == 0 {
            self
        } else {
            self.add(ts[0] as int).add_all(ts.drop_first())
        }
    }

    /// The number of instants counted.
    pub open spec fn total(self) -> nat {
        self.counts.len()
    }
}


/// Accumulates instants into an ordered count per bucket.
pub struct TimeBucket {
    bucket_size: BucketSize,
    buckets: BTreeMap<i128, u64>,
    first_timestamp: Option<i64>,
    last_timestamp: Option<i64>,
    total: u64,
    counts: Ghost<Multiset<int>>,
}

impl View for TimeBucket {
    type V = BucketModel;

    closed spec fn view(&self) -> BucketModel {
        BucketModel {
            size: self.bucket_size,
            counts: self.counts@,
            span: match (self.first_timestamp, self.last_timestamp) {
                (Some(f), Some(l)) => Some((f as int, l as int)),
                _ => None,
            },
        }
    }
}

impl TimeBucket {
    /// The map agrees with the ghost counts, the total is their number, and
    /// first and last are set together.
    pub closed spec fn wf(&self) -> bool {
        &&& forall|k: i128| #[trigger]
            self.buckets@.contains_key(k) ==> self.buckets@[k] as int == self.counts@.count(
                k as int,
            ) && self.buckets@[k] > 0
        &&& forall|k: int| #[trigger]
            self.counts@.count(k) > 0 ==> i128::MIN <= k <= i128::MAX
                && self.buckets@.contains_key(k as i128)
        &&& self.total as int == self.counts@.len()
        &&& self.first_timestamp is Some <==> self.last_timestamp is Some
        &&& (self.first_timestamp is Some ==> self.first_timestamp->0 <= self.last_timestamp->0)
        &&& match self.bucket_size {
            BucketSize::Micros(w) => w > 0,
            BucketSize::Auto => true,
        }
    }

    /// An empty aggregator for a width specification; one minute when none
    /// is given.
    pub fn new(bucket_size: Option<String>) -> (r: Result<TimeBucket, BucketSpecError>)
        ensures
            r matches Ok(b) ==> b.wf() && b@.counts.len() == 0 && b@.span is None,
            bucket_size is None ==> (r matches Ok(b) && b@.size == BucketSize::Micros(
                DEFAULT_WIDTH,
            )),
            bucket_size matches Some(s) ==> match parse_size(s@) {
                Some(size) => (r matches Ok(b) && b@.size == size),
                None => r is Err,
            },
    {
        let size = match bucket_size {
            Some(s) => BucketSize::from_string(s.as_str())?,
            None => BucketSize::Micros(DEFAULT_WIDTH),
        };
        Ok(TimeBucket::with_size(size))
    }

    /// An empty aggregator with the given width.
    pub fn with_size(size: BucketSize) -> (r: TimeBucket)
        requires
            size matches BucketSize::Micros(w) ==> w > 0,
        ensures
            r.wf(),
            r@.size == size,
            r@.counts =~= Multiset::<int>::empty(),
            r@.span is None,
    {
        TimeBucket {
            bucket_size: size,
            buckets: BTreeMap::new(),
            first_timestamp: None,
            last_timestamp: None,
            total: 0,
            counts: Ghost(Multiset::empty()),
        }
    }

    /// Adds one instant: widens the span, then counts the instant in the
    /// bucket of the width in effect after widening.
    pub fn add(&mut self, timestamp: i64)
        requires
            old(self).wf(),
            old(self)@.total() < u64::MAX,
        ensures
            final(self).wf(),
            final(self)@ == old(self)@.add(timestamp as int),
    {
        let ghost prior = self@;
        match self.first_timestamp {
            Some(f) => {
                if timestamp < f {
                    self.first_timestamp = Some(timestamp);
                }
            },
            None => {
                self.first_timestamp = Some(timestamp);
            },
        }
        match self.last_timestamp {
            Some(l) => {
                if timestamp > l {
                    self.last_timestamp = Some(timestamp);
                }
            },
            None => {
                self.last_timestamp = Some(timestamp);
            },
        }
        assert(self@.span == BucketModel::widen(prior.span, timestamp as int));
        let width = self.bucket_size_micros();
        let key = floor_key(timestamp, width);
        proof {
            lemma_i128_obeys_cmp();
        }
        let count: u64 = match self.buckets.get(&key) {
            Some(c) => *c,
            None => 0,
        };
        assert(count as int == self.counts@.count(key as int));
        self.buckets.insert(key, count + 1);
        self.total = self.total + 1;
        self.counts = Ghost(self.counts@.insert(key as int));
        assert(self@.counts =~= prior.add(timestamp as int).counts);
    }

    /// Every bucket that holds an instant, as (left edge, count), in
    /// strictly ascending order of left edge.
    pub fn get_buckets(&self) -> (r: Vec<(i128, u64)>)
        requires
            self.wf(),
        ensures
            forall|i: int, j: int| 0 <= i < j < r.len() ==> r[i].0 < r[j].0,
            forall|i: int|
                0 <= i < r.len() ==> r[i].1 > 0 && r[i].1 as int == self@.counts.count(
                    r[i].0 as int,
                ),
            forall|k: int| #[trigger]
                self@.counts.count(k) > 0 ==> exists|i: int| 0 <= i < r.len() && r[i].0 == k,
            count_sum(r@) == self@.total(),
            lists_buckets(self@.counts, r@),
    {
        proof {
            lemma_i128_obeys_cmp();
        }
        let mut out: Vec<(i128, u64)> = Vec::new();
        let entries = self.buckets.iter();
        let ghost items = entries.remaining();
        let ghost keys = items.map_values(|kv: (&i128, &u64)| *kv.0);
        assert(vstd::std_specs::btree::increasing_seq(keys));
        assert forall|i: int, j: int| 0 <= i < j < keys.len() implies keys[i] < keys[j] by {
            assert(keys[i].cmp_spec(&keys[j]) is Less);
        }
        for kv in it: entries
            invariant
                self.wf(),
                it.seq() == items,
                keys == items.map_values(|kv: (&i128, &u64)| *kv.0),
                forall|i: int, j: int| 0 <= i < j < keys.len() ==> keys[i] < keys[j],
                forall|i: int|
                    0 <= i < items.len() ==> self.buckets@.contains_key(*items[i].0)
                        && self.buckets@[*items[i].0] == *items[i].1,
                out.len() == it.index(),
                forall|i: int|
                    0 <= i < out.len() ==> out[i].0 == *it.seq()[i].0 && out[i].1 == *it.seq()[i].1,
        {
            out.push((*kv.0, *kv.1));
        }
        assert forall|i: int, j: int| 0 <= i < j < out.len() implies out[i].0 < out[j].0 by {
            assert(keys[i] == *items[i].0);
            assert(keys[j] == *items[j].0);
        }
        proof {
            lemma_entries_multiset(out@);
            assert forall|k: int| #[trigger] self@.counts.count(k) > 0 implies exists|i: int|
                0 <= i < out.len() && out[i].0 == k by {
                let kk = k as i128;
                assert(self.buckets@.contains_key(kk));
                let q = choose|q: int| 0 <= q < items.len() && *items[q].0 == kk && *items[q].1
                    == self.buckets@[kk];
                assert(out[q].0 == kk);
            }
            assert forall|k: int| #[trigger] entries_multiset(out@).count(k) == self@.counts.count(
                k,
            ) by {
                if exists|i: int| 0 <= i < out.len() && out[i].0 == k {
                    let i = choose|i: int| 0 <= i < out.len() && out[i].0 == k;
                    assert(entries_multiset(out@).count(out@[i].0 as int) == out@[i].1);
                } else {
                    assert(entries_multiset(out@).count(k) == 0);
                }
            }
            assert(entries_multiset(out@) =~= self@.counts);
        }
        out
    }

    /// The width in effect now, in microseconds.
    pub fn bucket_size_micros(&self) -> (r: u64)
        requires
            self.wf(),
        ensures
            r as int == self@.active_width(),
            r > 0,
    {
        match self.bucket_size {
            BucketSize::Micros(w) => w,
            BucketSize::Auto => match (self.first_timestamp, self.last_timestamp) {
                (Some(first), Some(last)) => {
                    let span = (last as i128 - first as i128) as u64;
                    self.calculate_auto_bucket_size(span)
                },
                _ => DEFAULT_WIDTH,
            },
        }
    }

    /// The automatic width for an observed span, both in microseconds.
    pub fn calculate_auto_bucket_size(&self, span: u64) -> (r: u64)
        ensures
            r as int == auto_width(span as int),
            r > 0,
    {
        let t = TARGET_BUCKETS;
        if span <= t * 100_000 {
            100_000
        } else if span <= t * 1_000_000 {
            1_000_000
        } else if span <= t * 60_000_000 {
            60_000_000
        } else if span <= t * 300_000_000 {
            300_000_000
        } else if span <= t * 900_000_000 {
            900_000_000
        } else if span <= t * 3_600_000_000 {
            3_600_000_000
        } else if span <= t * 21_600_000_000 {
            21_600_000_000
        } else {
            let unit: u64 = t * DAY;
            let days: u64 = if span % unit == 0 {
                span / unit
            } else {
                span / unit + 1
            };
            assert(days * DAY <= u64::MAX && days as int == (span + unit - 1) / unit as int)
                by (nonlinear_arith)
                requires
                    unit == 15 * 86_400_000_000u64,
                    span % unit == 0 ==> days == span / unit,
                    span % unit != 0 ==> days == span / unit + 1,
                    span <= u64::MAX,
            ;
            days * DAY
        }
    }

    /// The aggregator's instants, earliest and latest; `None` while empty.
    pub fn time_range(&self) -> (r: Option<(i64, i64)>)
        requires
            self.wf(),
        ensures
            r matches Some((f, l)) ==> self@.span == Some((f as int, l as int)),
            r is None ==> self@.span is None,
    {
        match (self.first_timestamp, self.last_timestamp) {
            (Some(first), Some(last)) => Some((first, last)),
            _ => None,
        }
    }

    /// How many instants have been added.
    pub fn total_matches(&self) -> (r: u64)
        requires
            self.wf(),
        ensures
            r as int == self@.total(),
    {
        self.total
    }
}


/// The total counts every added instant, whatever their order: after adding
/// the instants of `ts` one by one, the total has grown by their number.
pub proof fn lemma_total_counts_every_add(m: BucketModel, ts: Seq<i64>)
    ensures
        m.add_all(ts).total() == m.total() + ts.len(),
    decreases ts.len(),
{
    if ts.len() > 0 {
        lemma_total_counts_every_add(m.add(ts[0] as int), ts.drop_first());
    }
}

/// With a fixed width, the order of two additions does not matter: both
/// orders give the same counts and the same span.
pub proof fn lemma_adds_commute(m: BucketModel, a: i64, b: i64)
    requires
        m.size is Micros,
    ensures
        m.add(a as int).add(b as int) == m.add(b as int).add(a as int),
{
    let ab = m.add(a as int).add(b as int);
    let ba = m.add(b as int).add(a as int);
    assert(ab.counts =~= ba.counts);
}

/// Adding the instant at position `j` first, then the others in order, gives
/// the same state as adding them all in order.
proof fn lemma_add_first(m: BucketModel, ts: Seq<i64>, j: int)
    requires
        m.size is Micros,
        0 <= j < ts.len(),
    ensures
        m.add_all(ts) == m.add(ts[j] as int).add_all(ts.remove(j)),
    decreases j,
{
    if j == 0 {
        assert(ts.remove(0) =~= ts.drop_first());
    } else {
        let y = ts[0];
        let rest = ts.drop_first();
        assert(rest[j - 1] == ts[j]);
        lemma_add_first(m.add(y as int), rest, j - 1);
        lemma_adds_commute(m, y, ts[j]);
        let tail = ts.remove(j);
        assert(tail[0] == y);
        assert(tail.drop_first() =~= rest.remove(j - 1));
    }
}

/// With a fixed width, aggregation does not depend on insertion order: any
/// two orderings of the same instants give the same counts and span.
pub proof fn lemma_order_of_adds_irrelevant(m: BucketModel, ts1: Seq<i64>, ts2: Seq<i64>)
    requires
        m.size is Micros,
        ts1.to_multiset() == ts2.to_multiset(),
    ensures
        m.add_all(ts1) == m.add_all(ts2),
    decreases ts1.len(),
{
    vstd::seq_lib::to_multiset_len(ts1);
    vstd::seq_lib::to_multiset_len(ts2);
    if ts1.len() == 0 {
        assert(ts2 =~= ts1);
    } else {
        let x = ts1[0];
        vstd::seq_lib::to_multiset_contains(ts1, x);
        assert(ts1.contains(x)) by {
            assert(ts1[0] == x);
        }
        vstd::seq_lib::to_multiset_contains(ts2, x);
        let j = choose|j: int| 0 <= j < ts2.len() && ts2[j] == x;
        lemma_add_first(m, ts2, j);
        vstd::seq_lib::to_multiset_remove(ts1, 0);
        vstd::seq_lib::to_multiset_remove(ts2, j);
        assert(ts1.remove(0) =~= ts1.drop_first());
        lemma_order_of_adds_irrelevant(m.add(x as int), ts1.drop_first(), ts2.remove(j));
    }
}

/// `s` lists, in strictly ascending key order, exactly the buckets of `m`
/// whose key lies above `lo`, each with its count.
pub open spec fn lists_above(m: Multiset<int>, s: Seq<(i128, u64)>, lo: int) -> bool {
    &&& forall|i: int, j: int| 0 <= i < j < s.len() ==> s[i].0 < s[j].0
    &&& forall|i: int|
        0 <= i < s.len() ==> s[i].0 > lo && s[i].1 > 0 && s[i].1 as int == m.count(
            s[i].0 as int,
        )
    &&& forall|k: int| #[trigger]
        m.count(k) > 0 && k > lo ==> exists|i: int| 0 <= i < s.len() && s[i].0 == k
}

/// `s` lists exactly the buckets of `m`, in strictly ascending key order.
pub open spec fn lists_buckets(m: Multiset<int>, s: Seq<(i128, u64)>) -> bool {
    lists_above(m, s, i128::MIN - 1)
}

proof fn lemma_lists_above_unique(m: Multiset<int>, a: Seq<(i128, u64)>, b: Seq<(i128, u64)>, lo: int)
    requires
        lists_above(m, a, lo),
        lists_above(m, b, lo),
    ensures
        a == b,
    decreases a.len() + b.len(),
{
    if a.len() == 0 && b.len() == 0 {
        assert(a =~= b);
    } else if a.len() == 0 {
        assert(m.count(b[0].0 as int) > 0);
        assert(false);
    } else if b.len() == 0 {
        assert(m.count(a[0].0 as int) > 0);
        assert(false);
    } else {
        assert(m.count(a[0].0 as int) > 0);
        assert(m.count(b[0].0 as int) > 0);
        let i = choose|i: int| 0 <= i < b.len() && b[i].0 == a[0].0 as int;
        let j = choose|j: int| 0 <= j < a.len() && a[j].0 == b[0].0 as int;
        assert(a[0].0 == b[0].0) by {
            if i > 0 {
                assert(b[0].0 < b[i].0);
            }
            if j > 0 {
                assert(a[0].0 < a[j].0);
            }
        }
        let lo2 = a[0].0 as int;
        let a2 = a.drop_first();
        let b2 = b.drop_first();
        assert forall|k: int| #[trigger] m.count(k) > 0 && k > lo2 implies exists|q: int|
            0 <= q < a2.len() && a2[q].0 == k by {
            let q = choose|q: int| 0 <= q < a.len() && a[q].0 == k;
            assert(q > 0);
            assert(a2[q - 1] == a[q]);
        }
        assert forall|k: int| #[trigger] m.count(k) > 0 && k > lo2 implies exists|q: int|
            0 <= q < b2.len() && b2[q].0 == k by {
            let q = choose|q: int| 0 <= q < b.len() && b[q].0 == k;
            assert(q > 0);
            assert(b2[q - 1] == b[q]);
        }
        assert forall|q: int| 0 <= q < a2.len() implies a2[q].0 > lo2 by {
            assert(a2[q] == a[q + 1]);
        }
        assert forall|q: int| 0 <= q < b2.len() implies b2[q].0 > lo2 by {
            assert(b2[q] == b[q + 1]);
        }
        lemma_lists_above_unique(m, a2, b2, lo2);
        assert(a =~= b) by {
            assert forall|q: int| 0 <= q < a.len() implies a[q] == b[q] by {
                if q > 0 {
                    assert(a[q] == a2[q - 1]);
                    assert(b[q] == b2[q - 1]);
                }
            }
        }
    }
}

/// A state has one bucket list: two lists of its buckets in ascending key
/// order are equal.
pub proof fn lemma_bucket_list_unique(m: Multiset<int>, a: Seq<(i128, u64)>, b: Seq<(i128, u64)>)
    requires
        lists_buckets(m, a),
        lists_buckets(m, b),
    ensures
        a == b,
{
    lemma_lists_above_unique(m, a, b, i128::MIN - 1);
}

/// With a fixed width, the bucket lists that `get_buckets` gives after any
/// two orderings of the same instants are equal.
pub proof fn lemma_bucket_lists_ignore_order(
    m: BucketModel,
    ts1: Seq<i64>,
    ts2: Seq<i64>,
    a: Seq<(i128, u64)>,
    b: Seq<(i128, u64)>,
)
    requires
        m.size is Micros,
        ts1.to_multiset() == ts2.to_multiset(),
        lists_buckets(m.add_all(ts1).counts, a),
        lists_buckets(m.add_all(ts2).counts, b),
    ensures
        a == b,
{
    lemma_order_of_adds_irrelevant(m, ts1, ts2);
    lemma_bucket_list_unique(m.add_all(ts1).counts, a, b);
}

/// Two instants in the same width-`w` interval land in one bucket, whose
/// count grows by two.
pub proof fn lemma_same_interval_shares_bucket(m: BucketModel, w: u64, t1: i64, t2: i64)
    requires
        m.size == BucketSize::Micros(w),
        w > 0,
        t1 as int / w as int == t2 as int / w as int,
    ensures
        bucket_key(t1 as int, w as int) == bucket_key(t2 as int, w as int),
        m.add(t1 as int).add(t2 as int).counts.count(bucket_key(t1 as int, w as int)) == m.counts.count(
            bucket_key(t1 as int, w as int),
        ) + 2,
{
}

/// Automatic sizing depends on the observed span alone, and the width it
/// picks covers the span in at most the target number of buckets.
pub proof fn lemma_auto_width_from_span(a: BucketModel, b: BucketModel)
    requires
        a.size == BucketSize::Auto,
        b.size == BucketSize::Auto,
        a.span == b.span,
    ensures
        a.active_width() == b.active_width(),
        a.span matches Some((first, last)) ==> (first <= last ==> a.active_width() * (TARGET_BUCKETS as int) >= last - first),
        a.span is None ==> a.active_width() == DEFAULT_WIDTH as int,
{
    if let Some((first, last)) = a.span {
        if first <= last {
            let span = last - first;
            if span > 15 * 21_600_000_000 {
                let unit = 15 * DAY as int;
                let days = (span + unit - 1) / unit;
                assert(days * DAY * 15 >= span) by (nonlinear_arith)
                    requires
                        unit == 15 * DAY,
                        days == (span + unit - 1) / unit,
                        span > 0,
                ;
            }
        }
    }
}

/// The sum of the counts of a list of buckets.
pub open spec fn count_sum(s: Seq<(i128, u64)>) -> int
    decreases s.len(),
{
    if s.len() == 0 {
        0
    } else {
        count_sum(s.drop_last()) + s.last().1
    }
}

/// `c` copies of `k`.
spec fn copies(k: int, c: nat) -> Multiset<int>
    decreases c,
{
    if c == 0 {
        Multiset::empty()
    } else {
        copies(k, (c - 1) as nat).insert(k)
    }
}

proof fn lemma_copies(k: int, c: nat)
    ensures
        copies(k, c).len() == c,
        copies(k, c).count(k) == c,
        forall|j: int| j != k ==> copies(k, c).count(j) == 0,
    decreases c,
{
    if c > 0 {
        lemma_copies(k, (c - 1) as nat);
    }
}

/// Each bucket of a list, as copies of its key.
spec fn entries_multiset(s: Seq<(i128, u64)>) -> Multiset<int>
    decreases s.len(),
{
    if s.len() == 0 {
        Multiset::empty()
    } else {
        entries_multiset(s.drop_last()).add(copies(s.last().0 as int, s.last().1 as nat))
    }
}

proof fn lemma_entries_multiset(s: Seq<(i128, u64)>)
    requires
        forall|i: int, j: int| 0 <= i < j < s.len() ==> s[i].0 < s[j].0,
    ensures
        entries_multiset(s).len() == count_sum(s),
        forall|i: int|
            0 <= i < s.len() ==> #[trigger] entries_multiset(s).count(s[i].0 as int) == s[i].1,
        forall|k: int|
            (forall|i: int| 0 <= i < s.len() ==> s[i].0 != k) ==> #[trigger] entries_multiset(
                s,
            ).count(k) == 0,
    decreases s.len(),
{
    if s.len() > 0 {
        let init = s.drop_last();
        let last = s.last();
        lemma_entries_multiset(init);
        lemma_copies(last.0 as int, last.1 as nat);
        assert forall|i: int| 0 <= i < s.len() implies #[trigger] entries_multiset(s).count(
            s[i].0 as int,
        ) == s[i].1 by {
            if i < s.len() - 1 {
                assert(init[i] == s[i]);
            } else {
                assert forall|q: int| 0 <= q < init.len() implies init[q].0 != last.0 by {
                    assert(init[q] == s[q]);
                }
            }
        }
        assert forall|k: int| (forall|i: int| 0 <= i < s.len() ==> s[i].0 != k) implies #[trigger] entries_multiset(s).count(k) == 0 by {
            assert forall|q: int| 0 <= q < init.len() implies init[q].0 != k by {
                assert(init[q] == s[q]);
            }
            assert(s[s.len() - 1].0 != k);
        }
    }
}

proof fn lemma_i128_obeys_cmp()
    ensures
        vstd::laws_cmp::obeys_cmp::<i128>(),
{
    broadcast use vstd::laws_cmp::group_laws_cmp;

}

/// Left edge of the bucket of width `w` holding `t`, rounding down also
/// before the epoch.
fn floor_key(t: i64, w: u64) -> (k: i128)
    requires
        w > 0,
    ensures
        k as int == bucket_key(t as int, w as int),
        t - w < k <= t,
{
    if t >= 0 {
        let q: u64 = (t as u64) / w;
        assert(q * w <= t && t < q * w + w) by (nonlinear_arith)
            requires
                q == (t as u64) / w,
                w > 0,
                t >= 0,
        ;
        let k: u64 = q * w;
        proof {
            lemma_floor_key(t as int, w as int, q as int);
        }
        k as i128
    } else {
        let n: u128 = (0i128 - t as i128) as u128;
        let q: u128 = (n + w as u128 - 1) / (w as u128);
        assert(q * w >= n && q * w < n + w && q * w <= u64::MAX as int + u64::MAX as int)
            by (nonlinear_arith)
            requires
                q == (n + w - 1) / (w as int),
                w > 0,
                n > 0,
                n <= 0x8000_0000_0000_0000,
                w <= u64::MAX,
        ;
        let k: i128 = 0i128 - (q * (w as u128)) as i128;
        proof {
            let qi = -(q as int);
            assert(qi * (w as int) == -((q as int) * (w as int))) by (nonlinear_arith)
                requires
                    qi == -(q as int),
            ;
            assert(t == -(n as int));
            lemma_floor_key(t as int, w as int, qi);
        }
        k
    }
}

/// `q * w` is the bucket key of `t` when it lies within one width below `t`.
proof fn lemma_floor_key(t: int, w: int, q: int)
    requires
        w > 0,
        q * w <= t < q * w + w,
    ensures
        bucket_key(t, w) == q * w,
{
    vstd::arithmetic::div_mod::lemma_fundamental_div_mod(t, w);
    assert(t / w == q) by (nonlinear_arith)
        requires
            w > 0,
            q * w <= t < q * w + w,
            t == w * (t / w) + t % w,
            0 <= t % w < w,
    ;
}

} // verus!
