use vstd::prelude::*;

use crate::fixed::{fx_sat, Fx, FX_INF, FX_NEG_INF, FX_ONE};

verus! {

/// Sampler option kinds.
#[derive(Debug, Clone, Copy, PartialEq, Eq, Structural)]
pub enum SamplerOptionType {
    /// Unsigned integer value.
    UInt,
    /// Real value, held in fixed point.
    Float,
    /// Boolean value.
    Bool,
    /// String value.
    String,
}

/// A sampler option's value, in the widened common forms used for
/// configuration: 64-bit unsigned, fixed-point real, boolean, or text.
#[derive(Debug, Clone, PartialEq, Eq)]
pub enum SamplerOptionValue {
    /// Unsigned integer value.
    UInt(u64),
    /// Real value, held in fixed point.
    Float(Fx),
    /// Boolean value.
    Bool(bool),
    /// String value.
    String(String),
}

impl SamplerOptionValue {
    /// The kind this value belongs to.
    pub open spec fn spec_kind(&self) -> SamplerOptionType {
        match self {
            SamplerOptionValue::UInt(_) => SamplerOptionType::UInt,
            SamplerOptionValue::Float(_) => SamplerOptionType::Float,
            SamplerOptionValue::Bool(_) => SamplerOptionType::Bool,
            SamplerOptionValue::String(_) => SamplerOptionType::String,
        }
    }
}

/// Sampler option handling errors.
#[derive(Debug, Clone, PartialEq, Eq)]
pub enum ConfigureSamplerError {
    /// Unknown option key, or a value of the wrong kind for the option.
    UnknownOrBadType(String),
    /// The supplied key matches more than one option.
    AmbiguousKey(String),
    /// Converting the value to the option's concrete type failed.
    ConversionFailure(String),
    /// The option's value cannot be accessed as requested.
    CannotAccessOptionValue(String),
}

impl ConfigureSamplerError {
    /// A short description, in place of a `Display` implementation.
    pub fn message(&self) -> String {
        match self {
            ConfigureSamplerError::UnknownOrBadType(s) => s.clone(),
            ConfigureSamplerError::AmbiguousKey(s) => s.clone(),
            ConfigureSamplerError::ConversionFailure(s) => s.clone(),
            ConfigureSamplerError::CannotAccessOptionValue(s) => s.clone(),
        }
    }
}

/// Whitespace as the configuration grammar trims it.
pub open spec fn is_ws(c: char) -> bool {
    c == ' ' || c == '\t' || c == '\n' || c == '\r'
}

/// Drop leading whitespace.
pub open spec fn trim_front(s: Seq<char>) -> Seq<char>
    decreases s.len(),
{
    if s.len() > 0 && is_ws(s[0]) {
        trim_front(s.drop_first())
    } else {
        s
    }
}

/// Drop trailing whitespace.
pub open spec fn trim_back(s: Seq<char>) -> Seq<char>
    decreases s.len(),
{
    if s.len() > 0 && is_ws(s.last()) {
        trim_back(s.drop_last())
    } else {
        s
    }
}

/// The text with surrounding whitespace dropped.
pub open spec fn trimmed(s: Seq<char>) -> Seq<char> {
    trim_back(trim_front(s))
}

proof fn lemma_trim_front_skip(s: Seq<char>, a: int)
    requires
        0 <= a <= s.len(),
        forall|j: int| 0 <= j < a ==> is_ws(s[j]),
        a < s.len() ==> !is_ws(s[a as int]),
    ensures
        trim_front(s) == s.skip(a),
    decreases a,
{
    if a == 0 {
        assert(s.skip(0) =~= s);
    } else {
        assert(is_ws(s[0]));
        lemma_trim_front_skip(s.drop_first(), a - 1);
        assert(s.drop_first().skip(a - 1) =~= s.skip(a));
    }
}

proof fn lemma_trim_back_take(s: Seq<char>, b: int)
    requires
        0 <= b <= s.len(),
        forall|j: int| b <= j < s.len() ==> is_ws(s[j]),
        b > 0 ==> !is_ws(s[b - 1]),
    ensures
        trim_back(s) == s.subrange(0, b),
    decreases s.len() - b,
{
    if b == s.len() {
        assert(s.subrange(0, s.len() as int) =~= s);
    } else {
        assert(is_ws(s.last()));
        lemma_trim_back_take(s.drop_last(), b);
        assert(s.drop_last().subrange(0, b) =~= s.subrange(0, b));
    }
}

/// Copy of the text with surrounding whitespace dropped.
pub fn trim_chars(v: &Vec<char>) -> (r: Vec<char>)
    ensures
        r@ == trimmed(v@),
{
    let n = v.len();
    let mut a: usize = 0;
    while a < n && is_ws_exec(v[a])
        invariant
            0 <= a <= n,
            n == v@.len(),
            forall|j: int| 0 <= j < a ==> is_ws(#[trigger] v@[j]),
        decreases n - a,
    {
        a = a + 1;
    }
    let mut b: usize = n;
    while b > a && is_ws_exec(v[b - 1])
        invariant
            a <= b <= n,
            n == v@.len(),
            forall|j: int| 0 <= j < a ==> is_ws(#[trigger] v@[j]),
            a < n ==> !is_ws(v@[a as int]),
            forall|j: int| b <= j < n ==> is_ws(#[trigger] v@[j]),
        decreases b,
    {
        b = b - 1;
    }
    let mut out: Vec<char> = Vec::new();
    let mut i: usize = a;
    while i < b
        invariant
            a <= i <= b <= n,
            n == v@.len(),
            out@ =~= v@.subrange(a as int, i as int),
        decreases b - i,
    {
        out.push(v[i]);
        i = i + 1;
    }
    proof {
        lemma_trim_front_skip(v@, a as int);
        let sk = v@.skip(a as int);
        if b == a {
            assert(forall|j: int| 0 <= j < sk.len() ==> sk[j] == v@[a + j]);
            lemma_trim_back_take(sk, 0);
        } else {
            assert(!is_ws(v@[(b - 1) as int]));
            lemma_trim_back_take(sk, b - a as int);
        }
        assert(out@ =~= sk.subrange(0, b - a as int));
    }
    out
}

fn is_ws_exec(c: char) -> (r: bool)
    ensures
        r == is_ws(c),
{
    c == ' ' || c == '\t' || c == '\n' || c == '\r'
}

/// A decimal digit.
pub open spec fn is_digit(c: char) -> bool {
    48 <= c as u32 <= 57
}

/// The digit's value.
pub open spec fn digit_val(c: char) -> int {
    c as u32 - 48
}

/// Whether the text is all digits.
pub open spec fn all_digits(s: Seq<char>) -> bool {
    forall|i: int| 0 <= i < s.len() ==> is_digit(#[trigger] s[i])
}

/// The value of a digit string, most significant first.
pub open spec fn digits_val(s: Seq<char>) -> int
    decreases s.len(),
{
    if s.len() == 0 {
        0
    } else {
        digits_val(s.drop_last()) * 10 + digit_val(s.last())
    }
}

/// Appending digits never shrinks the value.
proof fn lemma_digits_val_mono(s: Seq<char>, i: int)
    requires
        0 <= i <= s.len(),
        all_digits(s),
    ensures
        digits_val(s) >= digits_val(s.subrange(0, i)),
        digits_val(s) >= 0,
    decreases s.len() - i,
{
    if i == s.len() {
        assert(s.subrange(0, s.len() as int) =~= s);
        lemma_digits_val_nonneg(s);
    } else {
        lemma_digits_val_mono(s, i + 1);
        let p = s.subrange(0, i);
        let q = s.subrange(0, i + 1);
        assert(q.drop_last() =~= p);
        lemma_digits_val_nonneg(p);
        assert(digits_val(q) == digits_val(p) * 10 + digit_val(s[i]));
        assert(digits_val(p) * 10 >= digits_val(p)) by (nonlinear_arith)
            requires
                digits_val(p) >= 0,
        ;
    }
}

proof fn lemma_digits_val_nonneg(s: Seq<char>)
    requires
        all_digits(s),
    ensures
        digits_val(s) >= 0,
    decreases s.len(),
{
    if s.len() > 0 {
        assert(all_digits(s.drop_last())) by {
            assert(forall|i: int|
                0 <= i < s.len() - 1 ==> s.drop_last()[i] == #[trigger] s[i]);
        }
        lemma_digits_val_nonneg(s.drop_last());
        assert(is_digit(s.last()));
    }
}

fn is_digit_exec(c: char) -> (r: bool)
    ensures
        r == is_digit(c),
{
    let u = c as u32;
    48 <= u && u <= 57
}

/// Parse a digit string into a 64-bit unsigned value: succeeds exactly on
/// nonempty all-digit text whose value fits.
pub fn parse_uint_chars(k: &Vec<char>) -> (r: Option<u64>)
    ensures
        r is Some <==> (k@.len() > 0 && all_digits(k@) && digits_val(k@) <= u64::MAX),
        r matches Some(u) ==> u == digits_val(k@),
{
    let n = k.len();
    if n == 0 {
        return None;
    }
    let mut acc: u64 = 0;
    let mut i: usize = 0;
    while i < n
        invariant
            0 <= i <= n,
            n == k@.len(),
            all_digits(k@.subrange(0, i as int)),
            acc == digits_val(k@.subrange(0, i as int)),
        decreases n - i,
    {
        let c = k[i];
        if !is_digit_exec(c) {
            return None;
        }
        let d = (c as u32 - 48) as u64;
        proof {
            let p = k@.subrange(0, i as int);
            let q = k@.subrange(0, i + 1);
            assert(q.drop_last() =~= p);
            assert(q.last() == k@[i as int]);
        }
        if acc > (u64::MAX - d) / 10 {
            proof {
                let q = k@.subrange(0, i + 1);
                assert(digits_val(q) == acc * 10 + d);
                assert(acc * 10 + d > u64::MAX) by (nonlinear_arith)
                    requires
                        acc > (u64::MAX - d) / 10,
                        0 <= d <= 9,
                        acc >= 0,
                ;
                if all_digits(k@) && digits_val(k@) <= u64::MAX {
                    lemma_digits_val_mono(k@, i + 1);
                    assert(false);
                }
            }
            return None;
        }
        proof {
            assert(acc * 10 + d <= u64::MAX) by (nonlinear_arith)
                requires
                    acc <= (u64::MAX - d) / 10,
                    0 <= d <= 9,
                    acc >= 0,
            ;
        }
        acc = acc * 10 + d;
        i = i + 1;
    }
    proof {
        assert(k@.subrange(0, n as int) =~= k@);
    }
    Some(acc)
}

/// Ten to the `k`.
pub open spec fn pow10(k: nat) -> int
    decreases k,
{
    if k == 0 {
        1
    } else {
        10 * pow10((k - 1) as nat)
    }
}

fn pow10_exec(k: usize) -> (r: u64)
    requires
        k <= 10,
    ensures
        r as int == pow10(k as nat),
        1 <= r <= 10000000000u64,
{
    let mut d: u64 = 1;
    let mut j: usize = 0;
    proof {
        reveal_with_fuel(pow10, 11);
    }
    while j < k
        invariant
            0 <= j <= k <= 10,
            d as int == pow10(j as nat),
            1 <= d <= 10000000000u64,
            pow10(10) == 10000000000int,
        decreases k - j,
    {
        proof {
            reveal_with_fuel(pow10, 11);
            lemma_pow10_bound(j as nat);
        }
        d = d * 10;
        j = j + 1;
    }
    d
}

/// Nine or fewer digits stay below a billion.
proof fn lemma_pow10_le_ten(j: nat)
    requires
        j <= 9,
    ensures
        pow10(j) <= 1000000000,
{
    reveal_with_fuel(pow10, 11);
    if j <= 9 {
        lemma_pow10_mono(j, 9);
    }
}

proof fn lemma_pow10_mono(a: nat, b: nat)
    requires
        a <= b,
    ensures
        pow10(a) <= pow10(b),
        pow10(a) >= 1,
    decreases b,
{
    if b > 0 {
        if a == b {
            lemma_pow10_mono((a - 1) as nat, (b - 1) as nat);
        } else {
            lemma_pow10_mono(a, (b - 1) as nat);
        }
    }
}

proof fn lemma_pow10_bound(j: nat)
    requires
        j <= 9,
    ensures
        pow10(j) <= 1000000000,
        pow10(j) >= 1,
        pow10((j + 1) as nat) == 10 * pow10(j),
{
    reveal_with_fuel(pow10, 11);
    lemma_pow10_mono(j, 9);
    assert(pow10(9) == 1000000000);
}

/// Integer parts above this saturate the parsed value to the
/// representation's edge.
pub open spec fn fx_parse_cap() -> int {
    0x10000000000
}

/// The fixed-point reading of an unsigned decimal with integer digits `ip`
/// and fractional digits `fp`: fractional digits beyond the tenth are read
/// but do not contribute; the value is rounded half-up at the last
/// fractional bit, and an integer part beyond the cap saturates.
pub open spec fn fx_of_decimal(ip: Seq<char>, fp: Seq<char>) -> int {
    if digits_val(ip) > fx_parse_cap() {
        FX_INF as int
    } else {
        let f10 = if fp.len() > 10 {
            fp.subrange(0, 10)
        } else {
            fp
        };
        let k = f10.len() as nat;
        let num = digits_val(ip) * pow10(k) + digits_val(f10);
        fx_sat((num * (FX_ONE as int) * 2 + pow10(k)) / (2 * pow10(k)))
    }
}

/// Parse the digits of an unsigned decimal (`ip` integer digits, `fp`
/// fractional digits) into fixed point.
fn parse_decimal_magnitude(ip: &Vec<char>, fp: &Vec<char>) -> (r: i64)
    requires
        all_digits(ip@),
        all_digits(fp@),
    ensures
        r as int == fx_of_decimal(ip@, fp@),
        r >= 0,
{
    // Integer digits, capped.
    let n = ip.len();
    let mut acc: u64 = 0;
    let mut big = false;
    let mut i: usize = 0;
    while i < n
        invariant
            0 <= i <= n,
            n == ip@.len(),
            all_digits(ip@),
            !big ==> acc == digits_val(ip@.subrange(0, i as int)) && acc <= 0x10000000000u64,
            big ==> digits_val(ip@.subrange(0, i as int)) > 0x10000000000,
        decreases n - i,
    {
        let c = ip[i];
        proof {
            assert(is_digit(ip@[i as int]));
        }
        let d = (c as u32 - 48) as u64;
        proof {
            let p = ip@.subrange(0, i as int);
            let q = ip@.subrange(0, i + 1);
            assert(q.drop_last() =~= p);
            assert(q.last() == ip@[i as int]);
            assert(all_digits(p)) by {
                assert(forall|j: int| 0 <= j < p.len() ==> p[j] == #[trigger] ip@[j]);
            }
            assert(all_digits(q)) by {
                assert(forall|j: int| 0 <= j < q.len() ==> q[j] == #[trigger] ip@[j]);
            }
            lemma_digits_val_nonneg(p);
            if big {
                assert(digits_val(q) == digits_val(p) * 10 + digit_val(ip@[i as int]));
                assert(digits_val(p) * 10 > 0x10000000000) by (nonlinear_arith)
                    requires
                        digits_val(p) > 0x10000000000,
                ;
            }
        }
        if !big {
            if acc > 0x10000000000u64 / 10 {
                proof {
                    let q = ip@.subrange(0, i + 1);
                    assert(digits_val(q) == acc * 10 + d);
                    assert(acc * 10 + d > 0x10000000000) by (nonlinear_arith)
                        requires
                            acc > 0x10000000000u64 / 10,
                            0 <= d <= 9,
                            acc >= 0,
                    ;
                }
                big = true;
            } else {
                proof {
                    assert(acc * 10 + d <= 0x10000000000u64 + 9) by (nonlinear_arith)
                        requires
                            acc <= 0x10000000000u64 / 10,
                            0 <= d <= 9,
                            acc >= 0,
                    ;
                }
                let next = acc * 10 + d;
                if next > 0x10000000000u64 {
                    big = true;
                } else {
                    acc = next;
                }
            }
        }
        i = i + 1;
    }
    proof {
        assert(ip@.subrange(0, n as int) =~= ip@);
    }
    if big {
        return FX_INF;
    }
    // First ten fractional digits.
    let nfrac = if fp.len() > 10 {
        10
    } else {
        fp.len()
    };
    let mut facc: u64 = 0;
    let mut i: usize = 0;
    while i < nfrac
        invariant
            0 <= i <= nfrac <= 10,
            nfrac <= fp@.len(),
            nfrac == (if fp@.len() > 10 {
                10int
            } else {
                fp@.len() as int
            }),
            all_digits(fp@),
            facc == digits_val(fp@.subrange(0, i as int)),
            facc <= 10000000000u64,
        decreases nfrac - i,
    {
        let c = fp[i];
        proof {
            assert(is_digit(fp@[i as int]));
        }
        let d = (c as u32 - 48) as u64;
        proof {
            let p = fp@.subrange(0, i as int);
            let q = fp@.subrange(0, i + 1);
            assert(q.drop_last() =~= p);
            assert(q.last() == fp@[i as int]);
            lemma_digits_lt_pow10(fp@, i as int);
            lemma_pow10_le_ten(i as nat);
            assert(facc * 10 + d <= 9999999999u64) by (nonlinear_arith)
                requires
                    facc <= 999999999u64,
                    0 <= d <= 9,
            ;
        }
        facc = facc * 10 + d;
        i = i + 1;
    }
    // Combine and round half-up.
    let p10 = pow10_exec(nfrac);
    proof {
        assert((acc as int) * (p10 as int) <= 0x10000000000 * 10000000000int) by (nonlinear_arith)
            requires
                0 <= acc <= 0x10000000000u64,
                0 <= p10 <= 10000000000u64,
        ;
    }
    let num: u128 = (acc as u128) * (p10 as u128) + (facc as u128);
    proof {
        assert((num as int) * (FX_ONE as int) <= (0x10000000000 * 10000000000int + 10000000000int)
            * (FX_ONE as int)) by (nonlinear_arith)
            requires
                0 <= num as int <= 0x10000000000 * 10000000000int + 10000000000int,
        ;
    }
    let val: u128 = (num * (FX_ONE as u128) * 2 + (p10 as u128)) / (2 * (p10 as u128));
    let r: i64 = if val > FX_INF as u128 {
        FX_INF
    } else {
        val as i64
    };
    proof {
        let f10 = if fp@.len() > 10 {
            fp@.subrange(0, 10)
        } else {
            fp@
        };
        assert(f10 =~= fp@.subrange(0, nfrac as int));
        assert(facc == digits_val(f10));
        assert(num as int == digits_val(ip@) * pow10(f10.len() as nat) + digits_val(f10));
        assert(r as int == fx_sat(
            (num as int * (FX_ONE as int) * 2 + pow10(f10.len() as nat)) / (2 * pow10(
                f10.len() as nat,
            )),
        ));
    }
    r
}

/// A digit string's value within the 64-bit range casts losslessly.
pub proof fn lemma_digits_val_in_u64(k: Seq<char>)
    requires
        all_digits(k),
        digits_val(k) <= u64::MAX,
    ensures
        digits_val(k) as u64 as int == digits_val(k),
{
    lemma_digits_val_nonneg(k);
}

/// A prefix of `i` digits stays below ten to the `i`.
proof fn lemma_digits_lt_pow10(s: Seq<char>, i: int)
    requires
        0 <= i <= s.len(),
        all_digits(s),
    ensures
        0 <= digits_val(s.subrange(0, i)),
        digits_val(s.subrange(0, i)) < pow10(i as nat),
    decreases i,
{
    if i == 0 {
        assert(s.subrange(0, 0) =~= Seq::<char>::empty());
    } else {
        lemma_digits_lt_pow10(s, i - 1);
        let p = s.subrange(0, i - 1);
        let q = s.subrange(0, i);
        assert(q.drop_last() =~= p);
        assert(q.last() == s[i - 1]);
        assert(is_digit(s[i - 1]));
        assert(digits_val(q) == digits_val(p) * 10 + digit_val(s[i - 1]));
        assert(pow10(i as nat) == 10 * pow10((i - 1) as nat));
        assert(digits_val(p) * 10 + 9 < 10 * pow10((i - 1) as nat)) by (nonlinear_arith)
            requires
                digits_val(p) < pow10((i - 1) as nat),
        ;
    }
}


/// The first dot at or after `i`, or the length.
pub open spec fn dot_index(s: Seq<char>, i: int) -> int
    decreases s.len() - i when 0 <= i <= s.len()
{
    if i >= s.len() {
        s.len() as int
    } else if s[i] == '.' {
        i
    } else {
        dot_index(s, i + 1)
    }
}



/// The first `=` at or after `i`, or the length.
pub open spec fn eq_index(s: Seq<char>, i: int) -> int
    decreases s.len() - i when 0 <= i <= s.len()
{
    if i >= s.len() {
        s.len() as int
    } else if s[i] == '=' {
        i
    } else {
        eq_index(s, i + 1)
    }
}

/// The first `:` at or after `i`, or the length.
pub open spec fn colon_index(s: Seq<char>, i: int) -> int
    decreases s.len() - i when 0 <= i <= s.len()
{
    if i >= s.len() {
        s.len() as int
    } else if s[i] == ':' {
        i
    } else {
        colon_index(s, i + 1)
    }
}

/// A segment's key part: what stands before its first `=`, or nothing
/// when it has none (the whole segment is then a bare value).
pub open spec fn seg_key(seg: Seq<char>) -> Seq<char> {
    let e = eq_index(seg, 0);
    if e < seg.len() {
        seg.subrange(0, e)
    } else {
        Seq::<char>::empty()
    }
}

/// A segment's value part: what follows its first `=`, or the whole
/// segment when it has none.
pub open spec fn seg_val(seg: Seq<char>) -> Seq<char> {
    let e = eq_index(seg, 0);
    if e < seg.len() {
        seg.subrange(e + 1, seg.len() as int)
    } else {
        seg
    }
}

/// The reading of a value literal of a given numeric or boolean kind, per
/// the value grammar; text-kind values are handled apart, since they carry
/// owned text.
pub open spec fn parse_value_spec(kind: SamplerOptionType, s: Seq<char>) -> Option<
    SamplerOptionValue,
> {
    let k = trimmed(s);
    match kind {
        SamplerOptionType::UInt => if k.len() > 0 && all_digits(k) && digits_val(k)
            <= u64::MAX {
            Some(SamplerOptionValue::UInt(digits_val(k) as u64))
        } else {
            None
        },
        SamplerOptionType::Float => match parse_fx_spec(k) {
            Some(x) => Some(SamplerOptionValue::Float(Fx { bits: x as i64 })),
            None => None,
        },
        SamplerOptionType::Bool => match parse_bool_spec(k) {
            Some(b) => Some(SamplerOptionValue::Bool(b)),
            None => None,
        },
        SamplerOptionType::String => None,
    }
}

/// The word "inf" in any case mix.
pub open spec fn is_inf_core(s: Seq<char>) -> bool {
    s.len() == 3 && (s[0] == 'i' || s[0] == 'I') && (s[1] == 'n' || s[1] == 'N') && (s[2] == 'f'
        || s[2] == 'F')
}

/// The reading of a real-valued literal: `inf` forms (case-insensitive,
/// optionally signed) map to the saturation points; otherwise an optional
/// sign, integer digits, and fractional digits around a single dot.
pub open spec fn parse_fx_spec(k: Seq<char>) -> Option<int> {
    if is_inf_core(k) || (k.len() == 4 && k[0] == '+' && is_inf_core(k.drop_first())) {
        Some(FX_INF as int)
    } else if k.len() == 4 && k[0] == '-' && is_inf_core(k.drop_first()) {
        Some(FX_NEG_INF as int)
    } else {
        let neg = k.len() > 0 && k[0] == '-';
        let rest = if k.len() > 0 && (k[0] == '-' || k[0] == '+') {
            k.drop_first()
        } else {
            k
        };
        let d = dot_index(rest, 0);
        let ip = rest.subrange(0, d);
        let fp = if d < rest.len() {
            rest.subrange(d + 1, rest.len() as int)
        } else {
            Seq::<char>::empty()
        };
        if all_digits(ip) && all_digits(fp) && ip.len() + fp.len() >= 1 {
            let m = fx_of_decimal(ip, fp);
            if neg {
                Some(fx_sat(-m))
            } else {
                Some(m)
            }
        } else {
            None
        }
    }
}

fn is_inf_core_exec(v: &Vec<char>, from: usize) -> (r: bool)
    requires
        from <= v@.len(),
    ensures
        r == is_inf_core(v@.skip(from as int)),
{
    let n = v.len();
    if n - from != 3 {
        return false;
    }
    let ghost s = v@.skip(from as int);
    proof {
        assert(s.len() == 3);
        assert(s[0] == v@[from as int]);
        assert(s[1] == v@[from + 1]);
        assert(s[2] == v@[from + 2]);
    }
    let c0 = v[from];
    let c1 = v[from + 1];
    let c2 = v[from + 2];
    (c0 == 'i' || c0 == 'I') && (c1 == 'n' || c1 == 'N') && (c2 == 'f' || c2 == 'F')
}

/// Parse a trimmed real-valued literal into fixed point.
pub fn parse_fx_chars(k: &Vec<char>) -> (r: Option<i64>)
    ensures
        r is Some <==> parse_fx_spec(k@) is Some,
        r matches Some(x) ==> Some(x as int) == parse_fx_spec(k@),
{
    let n = k.len();
    if is_inf_core_exec(k, 0) {
        proof {
            assert(k@.skip(0) =~= k@);
        }
        return Some(FX_INF);
    }
    proof {
        assert(k@.skip(0) =~= k@);
    }
    if n == 4 && (k[0] == '+' || k[0] == '-') {
        let inner = is_inf_core_exec(k, 1);
        proof {
            assert(k@.skip(1) =~= k@.drop_first());
        }
        if inner {
            if k[0] == '+' {
                return Some(FX_INF);
            }
            return Some(FX_NEG_INF);
        }
    }
    let signed = n > 0 && (k[0] == '-' || k[0] == '+');
    let neg = n > 0 && k[0] == '-';
    let start: usize = if signed {
        1
    } else {
        0
    };
    // Split at the first dot and collect the digit groups.
    let mut ip: Vec<char> = Vec::new();
    let mut fp: Vec<char> = Vec::new();
    let mut seen_dot = false;
    let mut i: usize = start;
    let ghost rest = if signed {
        k@.drop_first()
    } else {
        k@
    };
    proof {
        assert(rest.len() == n - start);
        assert(forall|j: int| 0 <= j < rest.len() ==> rest[j] == #[trigger] k@[start + j]);
    }
    while i < n
        invariant
            start <= i <= n,
            n == k@.len(),
            rest.len() == n - start,
            forall|j: int| 0 <= j < rest.len() ==> rest[j] == #[trigger] k@[start + j],
            !seen_dot ==> {
                &&& ip@ =~= rest.subrange(0, i - start)
                &&& fp@.len() == 0
                &&& dot_index(rest, 0) == dot_index(rest, i - start)
                &&& forall|j: int| 0 <= j < i - start ==> (#[trigger] rest[j]) != '.'
            },
            seen_dot ==> {
                &&& dot_index(rest, 0) == ip@.len() as int
                &&& ip@.len() < rest.len()
                &&& ip@ =~= rest.subrange(0, ip@.len() as int)
                &&& rest[ip@.len() as int] == '.'
                &&& i - start > ip@.len()
                &&& fp@ =~= rest.subrange(ip@.len() as int + 1, i - start)
            },
        decreases n - i,
    {
        let c = k[i];
        proof {
            assert(rest[i - start] == k@[start + (i - start)]);
            assert(start + (i - start) == i as int);
        }
        if c == '.' {
            if seen_dot {
                // A second dot: the fractional group holds a non-digit, so
                // the literal is rejected below.
                fp.push(c);
            } else {
                seen_dot = true;
            }
        } else {
            if seen_dot {
                fp.push(c);
            } else {
                ip.push(c);
            }
        }
        i = i + 1;
    }
    proof {
        if !seen_dot {
            assert(ip@ =~= rest.subrange(0, rest.len() as int));
            assert(ip@ =~= rest);
            assert(dot_index(rest, rest.len() as int) == rest.len());
        } else {
            assert(fp@ =~= rest.subrange(ip@.len() as int + 1, rest.len() as int));
        }
    }
    // Validate the digit groups.
    let ip_ok = all_digits_exec(&ip);
    let fp_ok = all_digits_exec(&fp);
    if !ip_ok || !fp_ok || (ip.len() == 0 && fp.len() == 0) {
        return None;
    }
    let m = parse_decimal_magnitude(&ip, &fp);
    if neg {
        let v = Fx { bits: 0 }.sub(Fx { bits: m });
        Some(v.bits)
    } else {
        Some(m)
    }
}

fn all_digits_exec(v: &Vec<char>) -> (r: bool)
    ensures
        r == all_digits(v@),
{
    let n = v.len();
    let mut i: usize = 0;
    while i < n
        invariant
            0 <= i <= n,
            n == v@.len(),
            forall|j: int| 0 <= j < i ==> is_digit(#[trigger] v@[j]),
        decreases n - i,
    {
        if !is_digit_exec(v[i]) {
            return false;
        }
        i = i + 1;
    }
    true
}

/// The reading of a boolean literal: `true`/`t`/`yes`/`1` and
/// `false`/`f`/`no`/`0`, case-sensitive.
pub open spec fn parse_bool_spec(k: Seq<char>) -> Option<bool> {
    if k == seq!['t', 'r', 'u', 'e'] || k == seq!['t'] || k == seq!['y', 'e', 's'] || k == seq![
        '1',
    ] {
        Some(true)
    } else if k == seq!['f', 'a', 'l', 's', 'e'] || k == seq!['f'] || k == seq!['n', 'o'] || k
        == seq!['0'] {
        Some(false)
    } else {
        None
    }
}

/// Parse a trimmed boolean literal.
pub fn parse_bool_chars(k: &Vec<char>) -> (r: Option<bool>)
    ensures
        r == parse_bool_spec(k@),
{
    let n = k.len();
    let r = if n == 4 && k[0] == 't' && k[1] == 'r' && k[2] == 'u' && k[3] == 'e' {
        proof {
            assert(k@ =~= seq!['t', 'r', 'u', 'e']);
        }
        Some(true)
    } else if n == 1 && k[0] == 't' {
        proof {
            assert(k@ =~= seq!['t']);
        }
        Some(true)
    } else if n == 3 && k[0] == 'y' && k[1] == 'e' && k[2] == 's' {
        proof {
            assert(k@ =~= seq!['y', 'e', 's']);
        }
        Some(true)
    } else if n == 1 && k[0] == '1' {
        proof {
            assert(k@ =~= seq!['1']);
        }
        Some(true)
    } else if n == 5 && k[0] == 'f' && k[1] == 'a' && k[2] == 'l' && k[3] == 's' && k[4] == 'e' {
        proof {
            assert(k@ =~= seq!['f', 'a', 'l', 's', 'e']);
        }
        Some(false)
    } else if n == 1 && k[0] == 'f' {
        proof {
            assert(k@ =~= seq!['f']);
        }
        Some(false)
    } else if n == 2 && k[0] == 'n' && k[1] == 'o' {
        proof {
            assert(k@ =~= seq!['n', 'o']);
        }
        Some(false)
    } else if n == 1 && k[0] == '0' {
        proof {
            assert(k@ =~= seq!['0']);
        }
        Some(false)
    } else {
        proof {
            assert(k@ != seq!['t', 'r', 'u', 'e'] && k@ != seq!['t'] && k@ != seq!['y', 'e', 's']
                && k@ != seq!['1'] && k@ != seq!['f', 'a', 'l', 's', 'e'] && k@ != seq!['f'] && k@
                != seq!['n', 'o'] && k@ != seq!['0']) by {
                if k@ == seq!['t', 'r', 'u', 'e'] {
                    assert(k@.len() == 4 && k@[0] == 't' && k@[1] == 'r' && k@[2] == 'u' && k@[3]
                        == 'e');
                }
                if k@ == seq!['t'] {
                    assert(k@.len() == 1 && k@[0] == 't');
                }
                if k@ == seq!['y', 'e', 's'] {
                    assert(k@.len() == 3 && k@[0] == 'y' && k@[1] == 'e' && k@[2] == 's');
                }
                if k@ == seq!['1'] {
                    assert(k@.len() == 1 && k@[0] == '1');
                }
                if k@ == seq!['f', 'a', 'l', 's', 'e'] {
                    assert(k@.len() == 5 && k@[0] == 'f' && k@[1] == 'a' && k@[2] == 'l' && k@[3]
                        == 's' && k@[4] == 'e');
                }
                if k@ == seq!['f'] {
                    assert(k@.len() == 1 && k@[0] == 'f');
                }
                if k@ == seq!['n', 'o'] {
                    assert(k@.len() == 2 && k@[0] == 'n' && k@[1] == 'o');
                }
                if k@ == seq!['0'] {
                    assert(k@.len() == 1 && k@[0] == '0');
                }
            }
        }
        None
    };
    r
}

/// Relies on `str::chars`: yields exactly the text's characters, in order.
#[verifier::external_body]
pub fn str_chars(s: &str) -> (r: Vec<char>)
    ensures
        r@ == s@,
{
    s.chars().collect()
}

/// Relies on `String` collection from characters (`FromIterator`): builds
/// exactly this text.
#[verifier::external_body]
pub fn chars_to_string(v: &Vec<char>) -> (r: String)
    ensures
        r@ == v@,
{
    v.iter().collect()
}

impl SamplerOptionValue {
    /// Try to parse a string into an option value of the given kind, per
    /// the value literal grammar: unsigned integers as decimal digits,
    /// reals as decimal or an `inf` form, booleans from the fixed word
    /// lists, and strings verbatim (trimmed).
    pub fn parse_value(typ: SamplerOptionType, s: &str) -> (r: Result<
        SamplerOptionValue,
        ConfigureSamplerError,
    >)
        ensures
            ({
                let k = trimmed(s@);
                match typ {
                    SamplerOptionType::UInt => {
                        &&& r.is_ok() <==> (k.len() > 0 && all_digits(k) && digits_val(k)
                            <= u64::MAX)
                        &&& r matches Ok(v) ==> (v matches SamplerOptionValue::UInt(u) && u as int
                            == digits_val(k))
                    },
                    SamplerOptionType::Float => {
                        &&& r.is_ok() <==> parse_fx_spec(k) is Some
                        &&& r matches Ok(v) ==> (v matches SamplerOptionValue::Float(x) && Some(
                            x.bits as int,
                        ) == parse_fx_spec(k))
                    },
                    SamplerOptionType::Bool => {
                        &&& r.is_ok() <==> parse_bool_spec(k) is Some
                        &&& r matches Ok(v) ==> (v matches SamplerOptionValue::Bool(b) && Some(b)
                            == parse_bool_spec(k))
                    },
                    SamplerOptionType::String => {
                        r matches Ok(v) && (v matches SamplerOptionValue::String(t) && t@ == k)
                    },
                }
            }),
    {
        let chars = str_chars(s);
        let k = trim_chars(&chars);
        match typ {
            SamplerOptionType::UInt => match parse_uint_chars(&k) {
                Some(u) => Ok(SamplerOptionValue::UInt(u)),
                None => Err(
                    ConfigureSamplerError::ConversionFailure(
                        "bad unsigned integer value".to_string(),
                    ),
                ),
            },
            SamplerOptionType::Float => match parse_fx_chars(&k) {
                Some(x) => Ok(SamplerOptionValue::Float(Fx { bits: x })),
                None => Err(
                    ConfigureSamplerError::ConversionFailure("bad real value".to_string()),
                ),
            },
            SamplerOptionType::Bool => match parse_bool_chars(&k) {
                Some(b) => Ok(SamplerOptionValue::Bool(b)),
                None => Err(
                    ConfigureSamplerError::ConversionFailure("bad boolean value".to_string()),
                ),
            },
            SamplerOptionType::String => Ok(SamplerOptionValue::String(chars_to_string(&k))),
        }
    }
}

} // verus!
