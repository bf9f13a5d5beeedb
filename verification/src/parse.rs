//! Verified parsing of the catalog's numeric fields.
//!
//! The catalogs write plain decimal fields: an optional sign, digits,
//! and at most one fraction point. Values are parsed directly into the
//! engine's integer units (micro-units of the field's own unit), so no
//! floating-point reading stands between the file and the engine.

use vstd::prelude::*;

verus! {

pub open spec fn spec_is_digit(c: u8) -> bool {
    48 <= c <= 57
}

pub open spec fn spec_all_digits(s: Seq<u8>) -> bool {
    forall|i: int| 0 <= i < s.len() ==> spec_is_digit(#[trigger] s[i])
}

/// The number a digit string denotes, most significant digit first.
pub open spec fn spec_digits_val(s: Seq<u8>) -> int
    decreases s.len(),
{
    if s.len() == 0 {
        0
    } else {
        spec_digits_val(s.drop_last()) * 10 + (s.last() - 48)
    }
}

pub open spec fn spec_pow10(n: nat) -> int
    decreases n,
{
    if n == 0 {
        1
    } else {
        10 * spec_pow10((n - 1) as nat)
    }
}

pub proof fn lemma_pow10_values()
    ensures
        spec_pow10(0) == 1,
        spec_pow10(1) == 10,
        spec_pow10(2) == 100,
        spec_pow10(3) == 1000,
        spec_pow10(4) == 10000,
        spec_pow10(5) == 100000,
        spec_pow10(6) == 1000000,
        spec_pow10(13) == 10_000_000_000_000,
        spec_pow10(14) == 100_000_000_000_000,
        spec_pow10(15) == 1_000_000_000_000_000,
{
    reveal_with_fuel(spec_pow10, 17);
}

pub proof fn lemma_pow10_pos(n: nat)
    ensures
        spec_pow10(n) >= 1,
    decreases n,
{
    if n > 0 {
        lemma_pow10_pos((n - 1) as nat);
    }
}

pub proof fn lemma_pow10_monotone(a: nat, b: nat)
    requires
        a <= b,
    ensures
        1 <= spec_pow10(a) <= spec_pow10(b),
    decreases b,
{
    lemma_pow10_pos(a);
    if a < b {
        lemma_pow10_monotone(a, (b - 1) as nat);
        lemma_pow10_pos((b - 1) as nat);
    }
}

pub proof fn lemma_digits_val_bound(s: Seq<u8>)
    requires
        spec_all_digits(s),
    ensures
        0 <= spec_digits_val(s) < spec_pow10(s.len()),
    decreases s.len(),
{
    if s.len() == 0 {
    } else {
        assert(spec_all_digits(s.drop_last())) by {
            assert forall|i: int| 0 <= i < s.drop_last().len() implies spec_is_digit(
                #[trigger] s.drop_last()[i],
            ) by {
                assert(s.drop_last()[i] == s[i]);
            }
        }
        lemma_digits_val_bound(s.drop_last());
        assert(spec_is_digit(s.last()));
        assert(spec_pow10(s.len()) == 10 * spec_pow10((s.len() - 1) as nat));
    }
}

/// The value of the digit run `s[from..to]`, or `None` on a non-digit.
pub fn digits_value(s: &[u8], from: usize, to: usize) -> (r: Option<u64>)
    requires
        from <= to <= s@.len(),
        to - from <= 15,
    ensures
        ({
            let seg = s@.subrange(from as int, to as int);
            match r {
                Some(v) => spec_all_digits(seg) && v == spec_digits_val(seg),
                None => !spec_all_digits(seg),
            }
        }),
{
    let ghost seg = s@.subrange(from as int, to as int);
    let mut acc: u64 = 0;
    let mut i: usize = from;
    while i < to
        invariant
            from <= i <= to <= s@.len(),
            to - from <= 15,
            seg == s@.subrange(from as int, to as int),
            spec_all_digits(s@.subrange(from as int, i as int)),
            acc == spec_digits_val(s@.subrange(from as int, i as int)),
            acc < spec_pow10((i - from) as nat),
        decreases to - i,
    {
        let c = s[i];
        if c < 48 || c > 57 {
            proof {
                assert(seg[i - from] == s@[i as int]);
                assert(!spec_is_digit(seg[i - from]));
            }
            return None;
        }
        proof {
            lemma_pow10_monotone((i - from) as nat, 14);
            lemma_pow10_values();
        }
        acc = acc * 10 + ((c - 48) as u64);
        proof {
            let prev = s@.subrange(from as int, i as int);
            let cur = s@.subrange(from as int, (i + 1) as int);
            assert(cur.drop_last() =~= prev);
            assert(cur.last() == s@[i as int]);
            assert(spec_all_digits(cur)) by {
                assert forall|j: int| 0 <= j < cur.len() implies spec_is_digit(
                    #[trigger] cur[j],
                ) by {
                    if j < cur.len() - 1 {
                        assert(cur[j] == prev[j]);
                    }
                }
            }
            assert(spec_pow10(((i + 1) - from) as nat) == 10 * spec_pow10((i - from) as nat));
        }
        i = i + 1;
    }
    proof {
        assert(s@.subrange(from as int, i as int) == seg);
    }
    Some(acc)
}

/// A well-formed unsigned decimal in `s` with the fraction point at
/// `k`: one to thirteen integer digits, then either the end or a point
/// followed by at least one digit. `k == s.len()` means no fraction.
pub open spec fn spec_decimal_shape(s: Seq<u8>, k: int) -> bool {
    &&& 1 <= k <= s.len()
    &&& k <= 13
    &&& spec_all_digits(s.subrange(0, k))
    &&& (k == s.len() || (s[k] == 46 && k + 1 < s.len() && spec_all_digits(
        s.subrange(k + 1, s.len() as int),
    )))
}

/// The fraction digits as micro-units: the first six digits, padded
/// with zeros when fewer are written; further digits are truncated.
pub open spec fn spec_frac_micro(f: Seq<u8>) -> int {
    if f.len() >= 6 {
        spec_digits_val(f.subrange(0, 6))
    } else {
        spec_digits_val(f) * spec_pow10((6 - f.len()) as nat)
    }
}

/// The decimal with fraction point at `k`, in micro-units.
pub open spec fn spec_decimal_micro(s: Seq<u8>, k: int) -> int {
    spec_digits_val(s.subrange(0, k)) * 1_000_000 + if k == s.len() {
        0
    } else {
        spec_frac_micro(s.subrange(k + 1, s.len() as int))
    }
}

/// Parse `s[from..to]` as an unsigned decimal into micro-units.
/// `Some` comes exactly on the well-formed fields, with the value the
/// shape denotes; anything else, a sign included, is refused.
pub fn parse_decimal_micro(s: &[u8], from: usize, to: usize) -> (r: Option<u64>)
    requires
        from <= to <= s@.len(),
    ensures
        ({
            let seg = s@.subrange(from as int, to as int);
            match r {
                Some(v) => exists|k: int|
                    #[trigger] spec_decimal_shape(seg, k) && v == spec_decimal_micro(seg, k),
                None => forall|k: int| !spec_decimal_shape(seg, k),
            }
        }),
{
    let ghost seg = s@.subrange(from as int, to as int);
    let len = to - from;
    // Find the fraction point, if any.
    let mut i: usize = 0;
    while i < len && s[from + i] != 46
        invariant
            from <= to <= s@.len(),
            len == to - from,
            seg == s@.subrange(from as int, to as int),
            i <= len,
            forall|j: int| 0 <= j < i ==> seg[j] != 46,
        decreases len - i,
    {
        proof {
            assert(seg[i as int] == s@[(from + i) as int]);
        }
        i = i + 1;
    }
    let dot = i;
    proof {
        assert(dot <= len);
        assert(forall|j: int| 0 <= j < dot ==> seg[j] != 46);
        if dot < len {
            assert(seg[dot as int] == s@[(from + dot) as int]);
            assert(seg[dot as int] == 46);
        }
    }
    if dot == 0 || dot > 13 {
        proof {
            assert forall|k: int| !spec_decimal_shape(seg, k) by {
                if 1 <= k <= seg.len() && k <= 13 {
                    if dot == 0 {
                        // The first byte is a point or the field is
                        // empty, so the integer part has no digit.
                        if k <= seg.len() && seg.len() > 0 {
                            assert(seg[0] == 46);
                            assert(spec_all_digits(seg.subrange(0, k)) ==> spec_is_digit(
                                seg.subrange(0, k)[0],
                            ));
                        }
                    } else {
                        // k <= 13 < dot: a point would have to stand at
                        // k, but no point stands before `dot`.
                        if k < seg.len() {
                            assert(seg[k] != 46);
                        }
                    }
                }
            }
        }
        return None;
    }
    let intval = match digits_value(s, from, from + dot) {
        Some(v) => v,
        None => {
            proof {
                let intpart = seg.subrange(0, dot as int);
                assert(intpart =~= s@.subrange(from as int, (from + dot) as int));
                assert(!spec_all_digits(intpart));
                let bad = choose|j: int|
                    0 <= j < intpart.len() && !spec_is_digit(#[trigger] intpart[j]);
                assert forall|k: int| !spec_decimal_shape(seg, k) by {
                    if 1 <= k <= seg.len() && k <= 13 {
                        if k > bad {
                            assert(seg.subrange(0, k)[bad] == intpart[bad]);
                        } else {
                            assert(k < seg.len() ==> seg[k] != 46);
                        }
                    }
                }
            }
            return None;
        },
    };
    proof {
        let intpart = seg.subrange(0, dot as int);
        assert(intpart =~= s@.subrange(from as int, (from + dot) as int));
        lemma_digits_val_bound(intpart);
        lemma_pow10_monotone(intpart.len() as nat, 13);
        lemma_pow10_values();
        assert(intval < 10_000_000_000_000);
    }
    if dot == len {
        proof {
            assert(spec_decimal_shape(seg, dot as int));
            assert(spec_decimal_micro(seg, dot as int) == intval * 1_000_000);
        }
        return Some(intval * 1_000_000);
    }
    // A fraction point with nothing after it is refused.
    if dot + 1 == len {
        proof {
            assert forall|k: int| !spec_decimal_shape(seg, k) by {
                if 1 <= k <= seg.len() && k <= 13 {
                    if k < dot {
                        assert(seg[k] != 46);
                    } else if k == dot {
                        assert(!(k + 1 < seg.len()));
                    } else if k <= seg.len() {
                        assert(seg.subrange(0, k)[dot as int] == seg[dot as int]);
                        assert(!spec_is_digit(seg[dot as int]));
                    }
                }
            }
        }
        return None;
    }
    if !check_digits(s, from + dot + 1, to) {
        proof {
            let frac = seg.subrange(dot + 1, seg.len() as int);
            assert(frac =~= s@.subrange((from + dot + 1) as int, to as int));
            let bad = choose|j: int| 0 <= j < frac.len() && !spec_is_digit(#[trigger] frac[j]);
            assert forall|k: int| !spec_decimal_shape(seg, k) by {
                if 1 <= k <= seg.len() && k <= 13 {
                    if k < dot {
                        assert(seg[k] != 46);
                    } else if k == dot {
                        assert(seg.subrange(k + 1, seg.len() as int) =~= frac);
                    } else {
                        assert(seg.subrange(0, k)[dot as int] == seg[dot as int]);
                        assert(!spec_is_digit(seg[dot as int]));
                    }
                }
            }
        }
        return None;
    }
    let fstart = from + dot + 1;
    let flen = to - fstart;
    let m = if flen < 6 {
        flen
    } else {
        6
    };
    let fv = match digits_value(s, fstart, fstart + m) {
        Some(v) => v,
        None => {
            proof {
                let frac = seg.subrange(dot + 1, seg.len() as int);
                assert(frac =~= s@.subrange(fstart as int, to as int));
                let head = s@.subrange(fstart as int, (fstart + m) as int);
                assert forall|j: int| 0 <= j < head.len() implies spec_is_digit(
                    #[trigger] head[j],
                ) by {
                    assert(head[j] == frac[j]);
                }
                assert(false);
            }
            0
        },
    };
    let mult: u64 = if m == 0 {
        1_000_000
    } else if m == 1 {
        100_000
    } else if m == 2 {
        10_000
    } else if m == 3 {
        1_000
    } else if m == 4 {
        100
    } else if m == 5 {
        10
    } else {
        1
    };
    proof {
        let frac = seg.subrange(dot + 1, seg.len() as int);
        assert(frac =~= s@.subrange(fstart as int, to as int));
        let head = s@.subrange(fstart as int, (fstart + m) as int);
        lemma_digits_val_bound(head);
        lemma_pow10_values();
        lemma_pow10_monotone(m as nat, 6);
        if flen >= 6 {
            assert(head =~= frac.subrange(0, 6));
            assert(spec_frac_micro(frac) == fv);
            assert(fv < spec_pow10(6));
        } else {
            assert(head =~= frac);
            assert(spec_frac_micro(frac) == fv * spec_pow10((6 - m) as nat));
            assert(mult == spec_pow10((6 - m) as nat));
            assert(fv < spec_pow10(m as nat));
            assert(spec_pow10(m as nat) * spec_pow10((6 - m) as nat) == spec_pow10(6));
            assert(fv * spec_pow10((6 - m) as nat) < spec_pow10(6)) by (nonlinear_arith)
                requires
                    0 <= fv < spec_pow10(m as nat),
                    spec_pow10(m as nat) * spec_pow10((6 - m) as nat) == spec_pow10(6),
                    spec_pow10((6 - m) as nat) >= 1,
            ;
        }
        assert(spec_decimal_shape(seg, dot as int));
    }
    Some(intval * 1_000_000 + fv * mult)
}

/// The fraction point's place is determined by the text, so the shape
/// holds for at most one k.
pub proof fn lemma_decimal_shape_unique(s: Seq<u8>, k1: int, k2: int)
    requires
        spec_decimal_shape(s, k1),
        spec_decimal_shape(s, k2),
    ensures
        k1 == k2,
{
    if k1 < k2 {
        assert(!spec_is_digit(46));
        assert(k1 < s.len());
        assert(s[k1] == 46);
        assert(s.subrange(0, k2)[k1] == s[k1]);
    }
    if k2 < k1 {
        assert(!spec_is_digit(46));
        assert(k2 < s.len());
        assert(s[k2] == 46);
        assert(s.subrange(0, k1)[k2] == s[k2]);
    }
}

/// The sign prefix of a field: whether it is negative, and where the
/// digits start. A lone "-" before a zero magnitude still counts.
pub open spec fn spec_sign_split(s: Seq<u8>) -> (bool, int) {
    if s.len() > 0 && s[0] == 45 {
        (true, 1int)
    } else if s.len() > 0 && s[0] == 43 {
        (false, 1int)
    } else {
        (false, 0int)
    }
}

/// Parse a station coordinate field, meters with an optional sign and
/// fraction, into millimeters; fields beyond the engine's coordinate
/// bound are refused along with the malformed ones.
pub fn parse_coord_mm(s: &[u8]) -> (r: Option<i64>)
    ensures
        ({
            let neg = spec_sign_split(s@).0;
            let rest = s@.subrange(spec_sign_split(s@).1, s@.len() as int);
            match r {
                Some(mm) => exists|k: int|
                    {
                        &&& #[trigger] spec_decimal_shape(rest, k)
                        &&& spec_decimal_micro(rest, k) / 1000 <= 100_000_000_000
                        &&& mm == if neg {
                            -(spec_decimal_micro(rest, k) / 1000)
                        } else {
                            spec_decimal_micro(rest, k) / 1000
                        }
                    },
                None => forall|k: int|
                    !(#[trigger] spec_decimal_shape(rest, k) && spec_decimal_micro(rest, k) / 1000
                        <= 100_000_000_000),
            }
        }),
{
    let n = s.len();
    let (neg, start): (bool, usize) = if n > 0 && s[0] == 45 {
        (true, 1)
    } else if n > 0 && s[0] == 43 {
        (false, 1)
    } else {
        (false, 0)
    };
    let micro = match parse_decimal_micro(s, start, n) {
        Some(v) => v,
        None => {
            return None;
        },
    };
    let ghost rest = s@.subrange(start as int, s@.len() as int);
    let ghost k0 = choose|k: int|
        #[trigger] spec_decimal_shape(rest, k) && micro == spec_decimal_micro(rest, k);
    let mm = micro / 1000;
    if mm > 100_000_000_000 {
        proof {
            assert forall|k: int| !(#[trigger] spec_decimal_shape(rest, k) && spec_decimal_micro(
                rest,
                k,
            ) / 1000 <= 100_000_000_000) by {
                if spec_decimal_shape(rest, k) {
                    lemma_decimal_shape_unique(rest, k, k0);
                }
            }
        }
        return None;
    }
    proof {
        assert(spec_sign_split(s@).0 == neg);
        assert(spec_sign_split(s@).1 == start as int);
        assert(spec_decimal_shape(rest, k0));
        assert(micro == spec_decimal_micro(rest, k0));
        assert(mm == spec_decimal_micro(rest, k0) / 1000);
        assert(spec_decimal_micro(rest, k0) / 1000 <= 100_000_000_000);
    }
    if neg {
        Some(-(mm as i64))
    } else {
        Some(mm as i64)
    }
}

/// Parse a sexagesimal seconds field ("06.7") into micro-units; values
/// of a minute or more are refused.
pub fn parse_seconds_micro(s: &[u8]) -> (r: Option<u32>)
    ensures
        ({
            match r {
                Some(v) => v < 60_000_000 && exists|k: int|
                    #[trigger] spec_decimal_shape(s@, k) && v == spec_decimal_micro(s@, k),
                None => forall|k: int|
                    !(#[trigger] spec_decimal_shape(s@, k) && spec_decimal_micro(s@, k)
                        < 60_000_000),
            }
        }),
{
    let n = s.len();
    let micro = match parse_decimal_micro(s, 0, n) {
        Some(v) => v,
        None => {
            proof {
                assert(s@.subrange(0, s@.len() as int) =~= s@);
            }
            return None;
        },
    };
    proof {
        assert(s@.subrange(0, s@.len() as int) =~= s@);
    }
    let ghost k0 = choose|k: int|
        #[trigger] spec_decimal_shape(s@, k) && micro == spec_decimal_micro(s@, k);
    if micro >= 60_000_000 {
        proof {
            assert forall|k: int| !(#[trigger] spec_decimal_shape(s@, k) && spec_decimal_micro(
                s@,
                k,
            ) < 60_000_000) by {
                if spec_decimal_shape(s@, k) {
                    lemma_decimal_shape_unique(s@, k, k0);
                }
            }
        }
        return None;
    }
    Some(micro as u32)
}

/// Parse a plain small integer field, one to three digits.
pub fn parse_field_u8(s: &[u8]) -> (r: Option<u8>)
    ensures
        match r {
            Some(v) => spec_all_digits(s@) && 1 <= s@.len() <= 3 && v == spec_digits_val(s@)
                && spec_digits_val(s@) <= 255,
            None => !(spec_all_digits(s@) && 1 <= s@.len() <= 3 && spec_digits_val(s@) <= 255),
        },
{
    let n = s.len();
    if n == 0 || n > 3 {
        return None;
    }
    let v = match digits_value(s, 0, n) {
        Some(v) => v,
        None => {
            proof {
                assert(s@.subrange(0, s@.len() as int) =~= s@);
            }
            return None;
        },
    };
    proof {
        assert(s@.subrange(0, s@.len() as int) =~= s@);
    }
    if v > 255 {
        return None;
    }
    Some(v as u8)
}

/// Parse a declination degree field: the sign character comes off the
/// front, so "-00" keeps its southern sign with a zero magnitude.
pub fn parse_dec_degree(s: &[u8]) -> (r: Option<(bool, u8)>)
    ensures
        ({
            let neg = spec_sign_split(s@).0;
            let rest = s@.subrange(spec_sign_split(s@).1, s@.len() as int);
            match r {
                Some(p) => p.0 == neg && spec_all_digits(rest) && 1 <= rest.len() <= 3 && p.1
                    == spec_digits_val(rest) && spec_digits_val(rest) <= 255,
                None => !(spec_all_digits(rest) && 1 <= rest.len() <= 3 && spec_digits_val(rest)
                    <= 255),
            }
        }),
{
    let n = s.len();
    let (neg, start): (bool, usize) = if n > 0 && s[0] == 45 {
        (true, 1)
    } else if n > 0 && s[0] == 43 {
        (false, 1)
    } else {
        (false, 0)
    };
    let ghost rest = s@.subrange(start as int, s@.len() as int);
    if n - start == 0 || n - start > 3 {
        return None;
    }
    let v = match digits_value(s, start, n) {
        Some(v) => v,
        None => {
            return None;
        },
    };
    if v > 255 {
        return None;
    }
    Some((neg, v as u8))
}

/// Whether `s[from..to]` is all digits; no length cap, no value.
pub fn check_digits(s: &[u8], from: usize, to: usize) -> (r: bool)
    requires
        from <= to <= s@.len(),
    ensures
        r == spec_all_digits(s@.subrange(from as int, to as int)),
{
    let ghost seg = s@.subrange(from as int, to as int);
    let mut i: usize = from;
    while i < to
        invariant
            from <= i <= to <= s@.len(),
            seg == s@.subrange(from as int, to as int),
            spec_all_digits(s@.subrange(from as int, i as int)),
        decreases to - i,
    {
        let c = s[i];
        if c < 48 || c > 57 {
            proof {
                assert(seg[i - from] == s@[i as int]);
                assert(!spec_is_digit(seg[i - from]));
            }
            return false;
        }
        proof {
            let prev = s@.subrange(from as int, i as int);
            let cur = s@.subrange(from as int, (i + 1) as int);
            assert(cur.drop_last() =~= prev);
            assert(spec_all_digits(cur)) by {
                assert forall|j: int| 0 <= j < cur.len() implies spec_is_digit(
                    #[trigger] cur[j],
                ) by {
                    if j < cur.len() - 1 {
                        assert(cur[j] == prev[j]);
                    }
                }
            }
        }
        i = i + 1;
    }
    proof {
        assert(s@.subrange(from as int, i as int) == seg);
    }
    true
}

} // verus!
