//! Display settings: the resolution given as "WIDTHxHEIGHT", the frame
//! limit, and how long to wait after a frame to keep to that limit.
use vstd::prelude::*;
use vstd::string::StringSliceAdditionalSpecFns;

verus! {

/// The byte `'x'` that separates width and height.
pub const SEPARATOR: u8 = 120;

/// The byte `'+'`, which may start an unsigned number.
pub const PLUS: u8 = 43;

/// The highest frame limit the game accepts.
pub const MAX_FRAMELIMIT: u64 = 1000;

/// Whether `b` is an ASCII decimal digit.
pub open spec fn is_digit(b: u8) -> bool {
    48 <= b <= 57
}

/// Whether every byte of `s` is a decimal digit.
pub open spec fn all_digits(s: Seq<u8>) -> bool {
    forall|i: int| 0 <= i < s.len() ==> is_digit(#[trigger] s[i])
}

/// The number that the decimal digits `s` spell, most significant first.
pub open spec fn digits_value(s: Seq<u8>) -> nat
    decreases s.len(),
{
    if s.len() == 0 {
        0
    } else {
        digits_value(s.drop_last()) * 10 + (s.last() - 48) as nat
    }
}

/// The digits of an unsigned number: the text without one leading `'+'`.
pub open spec fn unsigned_digits(s: Seq<u8>) -> Seq<u8> {
    if s.len() > 0 && s[0] == PLUS {
        s.drop_first()
    } else {
        s
    }
}

/// The `usize` that the text `s` spells as Rust reads an unsigned number:
/// an optional `'+'`, then at least one decimal digit and nothing else, of a
/// value that fits in `usize`.
pub open spec fn spec_parse_usize(s: Seq<u8>) -> Option<usize> {
    let d = unsigned_digits(s);
    if d.len() > 0 && all_digits(d) && digits_value(d) <= usize::MAX {
        Some(digits_value(d) as usize)
    } else {
        None
    }
}

/// The index of the first byte `b` in `s`, or the length of `s` when there
/// is none.
pub open spec fn first_index(s: Seq<u8>, b: u8) -> nat
    decreases s.len(),
{
    if s.len() == 0 {
        0
    } else if s[0] == b {
        0
    } else {
        1 + first_index(s.drop_first(), b)
    }
}

/// The resolution that the text `s` gives: the part before the first `'x'`
/// is the width and the part between the first and the second `'x'` (or the
/// end) is the height; anything after a second `'x'` is ignored. `None`
/// when there is no `'x'` or either part is not a `usize`.
pub open spec fn spec_resolution(s: Seq<u8>) -> Option<(usize, usize)> {
    let i = first_index(s, SEPARATOR);
    if i >= s.len() {
        None
    } else {
        let rest = s.skip(i + 1 as int);
        match (spec_parse_usize(s.take(i as int)), spec_parse_usize(rest.take(first_index(rest, SEPARATOR) as int))) {
            (Some(w), Some(h)) => Some((w, h)),
            _ => None,
        }
    }
}

/// `first_index` is the position of the first `b`.
proof fn lemma_first_index(s: Seq<u8>, b: u8, i: int)
    requires
        0 <= i <= s.len(),
        forall|j: int| 0 <= j < i ==> s[j] != b,
        i == s.len() || s[i] == b,
    ensures
        first_index(s, b) == i,
    decreases i,
{
    if i > 0 {
        lemma_first_index(s.drop_first(), b, i - 1);
    }
}

/// A prefix of a digit string spells no larger number than the whole.
proof fn lemma_digits_prefix(s: Seq<u8>, k: int)
    requires
        0 <= k <= s.len(),
        all_digits(s),
    ensures
        digits_value(s.take(k)) <= digits_value(s),
    decreases s.len(),
{
    if k < s.len() {
        let t = s.drop_last();
        assert(all_digits(t)) by {
            assert forall|i: int| 0 <= i < t.len() implies is_digit(#[trigger] t[i]) by {
                assert(t[i] == s[i]);
            }
        }
        lemma_digits_prefix(t, k);
        assert(t.take(k) =~= s.take(k));
        assert(s.take(s.len() as int) =~= s);
    } else {
        assert(s.take(k) =~= s);
    }
}

/// The decimal digits of `n`, most significant first, without leading
/// zeros ("0" for zero).
pub open spec fn decimal(n: nat) -> Seq<u8>
    decreases n,
{
    if n < 10 {
        seq![(n + 48) as u8]
    } else {
        decimal(n / 10).push((n % 10 + 48) as u8)
    }
}

/// `decimal(n)` is a non-empty string of digits that spells `n`.
proof fn lemma_decimal(n: nat)
    ensures
        decimal(n).len() > 0,
        all_digits(decimal(n)),
        digits_value(decimal(n)) == n,
    decreases n,
{
    let d = decimal(n);
    if n < 10 {
        assert(d.drop_last() =~= Seq::<u8>::empty());
        assert(d.last() == (n + 48) as u8);
        assert(((n + 48) as u8) as int == n + 48);
        assert(digits_value(d.drop_last()) == 0);
        assert(digits_value(d) == digits_value(d.drop_last()) * 10 + (d.last() - 48) as nat);
    } else {
        lemma_decimal(n / 10);
        assert(d.drop_last() =~= decimal(n / 10));
        assert(d.last() == (n % 10 + 48) as u8);
        assert(((n % 10 + 48) as u8) as int == n % 10 + 48);
        assert(n == (n / 10) * 10 + n % 10);
        assert(digits_value(d) == digits_value(d.drop_last()) * 10 + (d.last() - 48) as nat);
        assert forall|i: int| 0 <= i < d.len() implies is_digit(#[trigger] d[i]) by {
            if i < d.len() - 1 {
                assert(d[i] == decimal(n / 10)[i]);
            }
        }
    }
}

/// A resolution written as width, `'x'` and height, each in decimal, reads
/// back as that width and height.
pub proof fn lemma_resolution_round_trip(w: usize, h: usize)
    ensures
        spec_resolution(decimal(w as nat) + seq![SEPARATOR] + decimal(h as nat)) == Some((w, h)),
{
    let dw = decimal(w as nat);
    let dh = decimal(h as nat);
    lemma_decimal(w as nat);
    lemma_decimal(h as nat);
    let s = dw + seq![SEPARATOR] + dh;
    assert forall|j: int| 0 <= j < dw.len() implies s[j] != SEPARATOR by {
        assert(s[j] == dw[j]);
        assert(is_digit(dw[j]));
    }
    assert(s[dw.len() as int] == SEPARATOR);
    lemma_first_index(s, SEPARATOR, dw.len() as int);
    let rest = s.skip(dw.len() + 1int);
    assert(rest =~= dh);
    assert forall|j: int| 0 <= j < dh.len() implies dh[j] != SEPARATOR by {
        assert(is_digit(dh[j]));
    }
    lemma_first_index(dh, SEPARATOR, dh.len() as int);
    assert(s.take(dw.len() as int) =~= dw);
    assert(dh.take(dh.len() as int) =~= dh);
    assert(is_digit(dw[0]) && is_digit(dh[0]));
    assert(unsigned_digits(dw) == dw);
    assert(unsigned_digits(dh) == dh);
}

/// The index of the first `b` in `s[start..end]`, or `end`.
fn find_byte(s: &[u8], b: u8, start: usize, end: usize) -> (r: usize)
    requires
        start <= end <= s@.len(),
    ensures
        r == start + first_index(s@.subrange(start as int, end as int), b),
        r <= end,
{
    let ghost sub = s@.subrange(start as int, end as int);
    let mut i = start;
    while i < end
        invariant
            start <= i <= end <= s@.len(),
            sub == s@.subrange(start as int, end as int),
            forall|j: int| 0 <= j < i - start ==> sub[j] != b,
        decreases end - i,
    {
        if s[i] == b {
            proof {
                lemma_first_index(sub, b, i - start);
            }
            return i;
        }
        i = i + 1;
    }
    proof {
        lemma_first_index(sub, b, end - start);
    }
    end
}

/// Reads `s[start..end]` as an unsigned number the way Rust's
/// `usize::from_str` does.
fn parse_usize(s: &[u8], start: usize, end: usize) -> (r: Option<usize>)
    requires
        start <= end <= s@.len(),
    ensures
        r == spec_parse_usize(s@.subrange(start as int, end as int)),
{
    let ghost t = s@.subrange(start as int, end as int);
    let mut first = start;
    if start < end && s[start] == PLUS {
        first = start + 1;
    }
    let ghost d = s@.subrange(first as int, end as int);
    assert(d =~= unsigned_digits(t));
    if first == end {
        assert(d.len() == 0);
        assert(spec_parse_usize(t) is None);
        return None;
    }
    let mut value: usize = 0;
    let mut i = first;
    while i < end
        invariant
            first <= i <= end <= s@.len(),
            d == s@.subrange(first as int, end as int),
            d == unsigned_digits(s@.subrange(start as int, end as int)),
            all_digits(d.take(i - first)),
            value == digits_value(d.take(i - first)),
        decreases end - i,
    {
        let c = s[i];
        if c < 48 || c > 57 {
            assert(!all_digits(d)) by {
                assert(d[i - first] == c);
            }
            return None;
        }
        let digit = (c - 48) as usize;
        let ghost next = d.take(i - first + 1);
        assert(next.drop_last() =~= d.take(i - first));
        assert(next.last() == c);
        assert(all_digits(next)) by {
            assert forall|j: int| 0 <= j < next.len() implies is_digit(#[trigger] next[j]) by {
                if j < next.len() - 1 {
                    assert(next[j] == d.take(i - first)[j]);
                }
            }
        }
        match value.checked_mul(10) {
            None => {
                proof {
                    if all_digits(d) {
                        lemma_digits_prefix(d, i - first + 1);
                    }
                }
                return None;
            },
            Some(v10) => match v10.checked_add(digit) {
                None => {
                    proof {
                        if all_digits(d) {
                            lemma_digits_prefix(d, i - first + 1);
                        }
                    }
                    return None;
                },
                Some(v) => {
                    value = v;
                },
            },
        }
        i = i + 1;
    }
    assert(d.take(end - first) =~= d);
    Some(value)
}

/// The width and height that the text `resolution` gives ("1280x720" gives
/// 1280 and 720); `None` when it gives none.
pub fn parse_resolution(resolution: &str) -> (r: Option<(usize, usize)>)
    ensures
        r == spec_resolution(resolution.spec_bytes()),
{
    let s = resolution.as_bytes();
    let ghost b = s@;
    let n = s.len();
    let i = find_byte(s, SEPARATOR, 0, n);
    assert(b.subrange(0, n as int) =~= b);
    if i >= n {
        return None;
    }
    let ghost rest = b.skip(i + 1);
    let j = find_byte(s, SEPARATOR, i + 1, n);
    assert(b.subrange(i + 1, n as int) =~= rest);
    assert(b.subrange(0, i as int) =~= b.take(i as int));
    assert(b.subrange(i + 1, j as int) =~= rest.take(first_index(rest, SEPARATOR) as int));
    let w = parse_usize(s, 0, i);
    let h = parse_usize(s, i + 1, j);
    match (w, h) {
        (Some(w), Some(h)) => Some((w, h)),
        _ => None,
    }
}

/// The frame limit in use: the one asked for, but at most 1000.
pub fn clamp_framelimit(framelimit: u64) -> (r: u64)
    ensures
        r == (if framelimit < MAX_FRAMELIMIT { framelimit } else { MAX_FRAMELIMIT }),
{
    if framelimit < MAX_FRAMELIMIT {
        framelimit
    } else {
        MAX_FRAMELIMIT
    }
}

/// The window size and frame limit the game runs with.
#[derive(Clone, Copy, PartialEq, Eq, Structural, Debug)]
pub struct FrameConfig {
    pub width: usize,
    pub height: usize,
    pub framelimit: u64,
}

impl FrameConfig {
    /// The settings given by the command line's resolution text and frame
    /// limit; `None` when the resolution is not of the form
    /// "WIDTHxHEIGHT".
    pub fn from_args(resolution: &str, framelimit: u64) -> (r: Option<FrameConfig>)
        ensures
            r is Some <==> spec_resolution(resolution.spec_bytes()) is Some,
            r matches Some(c) ==> {
                &&& (c.width, c.height) == spec_resolution(resolution.spec_bytes())->0
                &&& c.framelimit == (if framelimit < MAX_FRAMELIMIT { framelimit } else { MAX_FRAMELIMIT })
            },
    {
        match parse_resolution(resolution) {
            None => None,
            Some((width, height)) => Some(FrameConfig { width, height, framelimit: clamp_framelimit(framelimit) }),
        }
    }
}

/// How many milliseconds to wait after a frame that took `elapsed_ms`
/// milliseconds, with at most `framelimit` frames a second: `None` (no wait)
/// once `elapsed_ms / 1000` reaches `1000 / framelimit`; otherwise a frame's
/// share of a second, `1000 / framelimit` whole milliseconds, less the
/// elapsed whole seconds.
pub fn frame_sleep_ms(elapsed_ms: u64, framelimit: u64) -> (r: Option<u64>)
    requires
        framelimit > 0,
    ensures
        r is Some <==> elapsed_ms * framelimit < 1_000_000,
        r matches Some(ms) ==> ms == 1000u64 / framelimit - elapsed_ms / 1000u64,
{
    assert((elapsed_ms as u128) * (framelimit as u128) <= u128::MAX) by (nonlinear_arith)
        requires
            elapsed_ms <= u64::MAX,
            framelimit <= u64::MAX,
    ;
    let product: u128 = (elapsed_ms as u128) * (framelimit as u128);
    if product < 1_000_000 {
        let per_frame = 1000 / framelimit;
        let secs = elapsed_ms / 1000;
        assert(secs <= per_frame) by (nonlinear_arith)
            requires
                elapsed_ms * framelimit < 1_000_000,
                framelimit > 0,
                secs == elapsed_ms / 1000u64,
                per_frame == 1000u64 / framelimit,
        {
            assert(secs * 1000 <= elapsed_ms);
            assert(secs * 1000 * framelimit <= elapsed_ms * framelimit);
            assert(secs * framelimit < 1000);
        }
        Some(per_frame - secs)
    } else {
        None
    }
}

} // verus!
