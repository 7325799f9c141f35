//! The progress watcher: an engine writes text to its progress channel,
//! and any run of digits with at most one decimal point immediately
//! followed by `%` denotes a percentage-complete sample.
//!
//! Progress fractions are carried as integers in millionths, so that one
//! whole (100 percent) is `FRACTION_ONE`. A chunk in which no numeral
//! stands before the `%` reports nothing and is ignored, rather than
//! reporting a sentinel value.

use vstd::prelude::*;

verus! {

use crate::text::dec_val;
use crate::text::first_ix;
use crate::text::is_digit;
use crate::text::is_digit_byte;
use crate::text::lemma_dec_val_push_zero;
use crate::text::lemma_first_ix;
use crate::text::min_nat;
use crate::text::parse_u64_sat;
use crate::text::slice_range;
use crate::text::split_incl;

/// A progress fraction of one whole, in millionths.
pub const FRACTION_ONE: u64 = 1000000;

/// The start of the maximal trailing run of digit bytes.
pub open spec fn digit_run_start(s: Seq<u8>) -> int
    decreases s.len(),
{
    if s.len() > 0 && is_digit(s[s.len() - 1]) {
        digit_run_start(s.drop_last())
    } else {
        s.len() as int
    }
}

/// `digit_run_start` is in range, everything from it on is a digit, and
/// the byte before it (if any) is not.
pub proof fn lemma_digit_run_start(s: Seq<u8>)
    ensures
        0 <= digit_run_start(s) <= s.len(),
        forall|k: int| digit_run_start(s) <= k < s.len() ==> is_digit(s[k]),
        digit_run_start(s) > 0 ==> !is_digit(s[digit_run_start(s) - 1]),
    decreases s.len(),
{
    if s.len() > 0 && is_digit(s[s.len() - 1]) {
        lemma_digit_run_start(s.drop_last());
        assert(forall|k: int| 0 <= k < s.len() - 1 ==> s.drop_last()[k] == #[trigger] s[k]);
    }
}

/// `digit_run_start` equals the index found by a right-to-left digit scan.
proof fn lemma_digit_run_start_found(s: Seq<u8>, j: int)
    requires
        0 <= j <= s.len(),
        forall|k: int| j <= k < s.len() ==> is_digit(s[k]),
        j > 0 ==> !is_digit(s[j - 1]),
    ensures
        digit_run_start(s) == j,
    decreases s.len(),
{
    if s.len() > 0 && is_digit(s[s.len() - 1]) {
        assert(j < s.len());
        assert(forall|k: int| 0 <= k < s.len() - 1 ==> s.drop_last()[k] == #[trigger] s[k]);
        lemma_digit_run_start_found(s.drop_last(), j);
    } else {
        if j < s.len() {
            assert(is_digit(s[s.len() - 1]));
        }
    }
}

/// The longest suffix of `s` that is a decimal numeral, or the empty
/// sequence when there is none: the trailing digit run, extended over one
/// decimal point and a further digit run when those stand before it.
pub open spec fn numeral_suffix(s: Seq<u8>) -> Seq<u8>
    decreases s.len(),
    via numeral_suffix_decreases
{
    let j = digit_run_start(s);
    if j > 0 && s[j - 1] == 46 {
        let k = digit_run_start(s.subrange(0, j - 1));
        if k < j - 1 {
            s.subrange(k, s.len() as int)
        } else {
            s.subrange(j, s.len() as int)
        }
    } else {
        s.subrange(j, s.len() as int)
    }
}

#[via_fn]
proof fn numeral_suffix_decreases(s: Seq<u8>) {
    lemma_digit_run_start(s);
    let j = digit_run_start(s);
    if j > 0 && s[j - 1] == 46 {
        lemma_digit_run_start(s.subrange(0, j - 1));
    }
}

/// The first four fractional digits scaled to ten-thousandths of a
/// percent; digits beyond the fourth are dropped.
pub open spec fn frac_micro(f: Seq<u8>) -> nat {
    if f.len() == 0 {
        0
    } else if f.len() == 1 {
        dec_val(f) * 1000
    } else if f.len() == 2 {
        dec_val(f) * 100
    } else if f.len() == 3 {
        dec_val(f) * 10
    } else {
        dec_val(f.subrange(0, 4))
    }
}

/// The value of a numeral read as a percentage, in millionths of one
/// whole: the digits before the decimal point in units of ten thousand,
/// plus the first four digits after it.
pub open spec fn numeral_micro(t: Seq<u8>) -> nat {
    let p = first_ix(t, 46);
    let whole = t.subrange(0, p);
    let frac = if p < t.len() {
        t.subrange(p + 1, t.len() as int)
    } else {
        Seq::<u8>::empty()
    };
    dec_val(whole) * 10000 + frac_micro(frac)
}

/// What one chunk of the progress channel reports: when the chunk ends
/// with `%` and a numeral stands immediately before that `%`, the numeral
/// read as a percentage in millionths, saturating at the largest 64-bit
/// value; otherwise nothing.
pub open spec fn chunk_sample(c: Seq<u8>) -> Option<nat> {
    if c.len() > 0 && c[c.len() - 1] == 37 {
        let tok = numeral_suffix(c.drop_last());
        if tok.len() > 0 {
            Some(min_nat(numeral_micro(tok), u64::MAX as nat))
        } else {
            None
        }
    } else {
        None
    }
}

/// The samples that a sequence of chunks reports, in order.
pub open spec fn samples_of(chunks: Seq<Seq<u8>>) -> Seq<nat>
    decreases chunks.len(),
{
    if chunks.len() == 0 {
        Seq::empty()
    } else {
        match chunk_sample(chunks[0]) {
            Some(v) => seq![v] + samples_of(chunks.drop_first()),
            None => samples_of(chunks.drop_first()),
        }
    }
}

/// The progress samples of a whole byte stream: the stream is cut after
/// each `%`, and each piece reports at most one sample.
pub open spec fn progress_samples(s: Seq<u8>) -> Seq<nat> {
    samples_of(split_incl(s, 37))
}

/// Ten to the `e`, for the four fractional digit places.
spec fn pow10_small(e: int) -> nat {
    if e <= 0 {
        1
    } else if e == 1 {
        10
    } else if e == 2 {
        100
    } else if e == 3 {
        1000
    } else {
        10000
    }
}

/// Up to four digits read in base ten stay under ten to the length.
proof fn lemma_frac_bound(s: Seq<u8>)
    requires
        s.len() <= 4,
        forall|k: int| 0 <= k < s.len() ==> is_digit(s[k]),
    ensures
        dec_val(s) < pow10_small(s.len() as int),
    decreases s.len(),
{
    if s.len() > 0 {
        assert(forall|k: int| 0 <= k < s.len() - 1 ==> s.drop_last()[k] == #[trigger] s[k]);
        lemma_frac_bound(s.drop_last());
        assert(dec_val(s) == dec_val(s.drop_last()) * 10 + (s[s.len() - 1] - 48) as nat);
        assert(dec_val(s.drop_last()) <= pow10_small(s.len() - 1) - 1);
        vstd::arithmetic::mul::lemma_mul_inequality(
            dec_val(s.drop_last()) as int,
            pow10_small(s.len() - 1) - 1,
            10,
        );
    }
}

/// The value of a decimal numeral read as a percentage, in millionths of
/// one whole, saturating at the largest 64-bit value.
#[verifier::spinoff_prover]
#[verifier::rlimit(30)]
fn numeral_value_micro(t: &[u8]) -> (r: u64)
    requires
        forall|k: int| 0 <= k < t@.len() ==> is_digit(t@[k]) || t@[k] == 46,
        forall|k: int| first_ix(t@, 46) < k < t@.len() ==> t@[k] != 46,
    ensures
        r as nat == min_nat(numeral_micro(t@), u64::MAX as nat),
{
    proof {
        lemma_first_ix(t@, 46);
    }
    // find the decimal point
    let mut p: usize = 0;
    while p < t.len() && t[p] != 46
        invariant
            0 <= p <= t@.len(),
            forall|k: int| 0 <= k < p ==> t@[k] != 46,
        decreases t@.len() - p,
    {
        p = p + 1;
    }
    proof {
        crate::text::lemma_first_ix_found(t@, 46, p as int);
    }
    let whole = slice_range(t, 0, p);
    proof {
        assert(forall|k: int| 0 <= k < whole@.len() ==> is_digit(whole@[k]));
    }
    let i_sat = parse_u64_sat(whole.as_slice());
    let ghost gfrac = if p < t@.len() {
        t@.subrange(p + 1, t@.len() as int)
    } else {
        Seq::<u8>::empty()
    };
    // up to four fractional digits, right-padded with zeros
    let fend = if p >= t.len() {
        p
    } else if t.len() - (p + 1) > 4 {
        p + 1 + 4
    } else {
        t.len()
    };
    let mut fd = if p < t.len() {
        slice_range(t, p + 1, fend)
    } else {
        Vec::<u8>::new()
    };
    proof {
        if p < t@.len() {
            if t@.len() - (p + 1) > 4 {
                assert(fd@ =~= gfrac.subrange(0, 4));
            } else {
                assert(fd@ =~= gfrac);
            }
        }
        assert(forall|k: int| 0 <= k < fd@.len() ==> is_digit(fd@[k]));
    }
    let ghost fd0 = fd@;
    proof {
        assert(pow10_small(0) == 1);
        assert(dec_val(fd0) * 1 == dec_val(fd0));
        assert(fd@.len() <= 4);
    }
    while fd.len() < 4
        invariant
            fd0.len() <= fd@.len() <= 4,
            forall|k: int| 0 <= k < fd@.len() ==> is_digit(fd@[k]),
            dec_val(fd@) == dec_val(fd0) * pow10_small(fd@.len() - fd0.len()),
        decreases 4 - fd.len(),
    {
        proof {
            lemma_dec_val_push_zero(fd@);
            vstd::arithmetic::mul::lemma_mul_is_associative(
                dec_val(fd0) as int,
                pow10_small(fd@.len() - fd0.len()) as int,
                10,
            );
        }
        fd.push(48);
    }
    let f4 = parse_u64_sat(fd.as_slice());
    proof {
        lemma_frac_bound(fd@);
        assert(f4 as nat == dec_val(fd@));
        // dec_val(fd@) equals frac_micro of the fractional digits
        if p < t@.len() {
            if gfrac.len() > 4 {
                assert(fd0 == gfrac.subrange(0, 4));
                assert(dec_val(fd@) == dec_val(fd0) * pow10_small(0));
            } else {
                assert(fd0 == gfrac);
                if gfrac.len() == 4 {
                    assert(gfrac.subrange(0, 4) =~= gfrac);
                    assert(dec_val(fd@) == dec_val(fd0) * pow10_small(0));
                } else if gfrac.len() == 3 {
                    assert(dec_val(fd@) == dec_val(fd0) * 10);
                } else if gfrac.len() == 2 {
                    assert(dec_val(fd@) == dec_val(fd0) * 100);
                } else if gfrac.len() == 1 {
                    assert(dec_val(fd@) == dec_val(fd0) * 1000);
                } else {
                    assert(dec_val(fd0) == 0);
                }
            }
        } else {
            assert(fd0.len() == 0);
            assert(dec_val(fd0) == 0);
        }
        assert(dec_val(fd@) == frac_micro(gfrac));
    }
    // combine, saturating at the largest 64-bit value
    let ghost exact = dec_val(t@.subrange(0, p as int));
    let ghost total = numeral_micro(t@);
    proof {
        assert(total == exact * 10000 + frac_micro(gfrac));
    }
    if i_sat > (u64::MAX - f4) / 10000 {
        proof {
            let mx = u64::MAX as int;
            if exact > i_sat as nat {
                vstd::arithmetic::mul::lemma_mul_inequality(i_sat as int, exact as int, 10000);
            }
            assert((i_sat as int) * 10000 >= ((mx - f4) / 10000 + 1) * 10000) by (nonlinear_arith)
                requires
                    i_sat as int >= (mx - f4) / 10000 + 1,
            ;
            assert(((mx - f4) / 10000) * 10000 + (mx - f4) % 10000 == mx - f4);
            assert(total > u64::MAX as nat);
        }
        u64::MAX
    } else {
        proof {
            let mx = u64::MAX as int;
            assert((i_sat as int) * 10000 <= ((mx - f4) / 10000) * 10000) by (nonlinear_arith)
                requires
                    i_sat as int <= (mx - f4) / 10000,
            ;
            assert(((mx - f4) / 10000) * 10000 <= mx - f4);
            assert(i_sat as nat == exact);
        }
        i_sat * 10000 + f4
    }
}

/// The fraction sample of one chunk of the progress channel, in
/// millionths of one whole, or nothing when no numeral stands
/// immediately before a closing `%`.
pub fn chunk_fraction(chunk: &[u8]) -> (r: Option<u64>)
    ensures
        match r {
            Some(v) => chunk_sample(chunk@) == Some(v as nat),
            None => chunk_sample(chunk@) is None,
        },
{
    let n = chunk.len();
    if n == 0 || chunk[n - 1] != 37 {
        return None;
    }
    let m = n - 1;
    let ghost body = chunk@.drop_last();
    proof {
        assert(body =~= chunk@.subrange(0, m as int));
        assert(forall|k: int| 0 <= k < m ==> body[k] == #[trigger] chunk@[k]);
    }
    // the trailing digit run of the body
    let mut j: usize = m;
    while j > 0 && is_digit_byte(chunk[j - 1])
        invariant
            0 <= j <= m < chunk@.len(),
            body == chunk@.drop_last(),
            forall|k: int| j <= k < m ==> is_digit(body[k]),
        decreases j,
    {
        j = j - 1;
    }
    proof {
        lemma_digit_run_start_found(body, j as int);
    }
    // an optional decimal point, with a further digit run before it
    let mut start: usize = j;
    let mut has_dot: bool = false;
    if j > 0 && chunk[j - 1] == 46 {
        let mut k: usize = j - 1;
        while k > 0 && is_digit_byte(chunk[k - 1])
            invariant
                0 <= k <= j - 1,
                0 < j <= m < chunk@.len(),
                body == chunk@.drop_last(),
                forall|t: int| k <= t < j - 1 ==> is_digit(body[t]),
            decreases k,
        {
            k = k - 1;
        }
        proof {
            let front = body.subrange(0, j - 1);
            assert(forall|t: int| 0 <= t < j - 1 ==> front[t] == body[t]);
            lemma_digit_run_start_found(front, k as int);
        }
        if k < j - 1 {
            start = k;
            has_dot = true;
        }
    }
    let ghost tok = numeral_suffix(body);
    proof {
        assert(tok == body.subrange(start as int, m as int));
    }
    if start == m {
        return None;
    }
    let token = slice_range(chunk, start, m);
    proof {
        assert(token@ =~= tok);
        if has_dot {
            assert(token@[j - 1 - start] == 46);
            assert(forall|k: int| 0 <= k < j - 1 - start ==> is_digit(token@[k]));
            assert(forall|k: int| j - start <= k < token@.len() ==> is_digit(token@[k]));
            crate::text::lemma_first_ix_found(token@, 46, j - 1 - start);
        } else {
            assert(forall|k: int| 0 <= k < token@.len() ==> is_digit(token@[k]));
            crate::text::lemma_first_ix_found(token@, 46, token@.len() as int);
        }
    }
    let v = numeral_value_micro(token.as_slice());
    Some(v)
}

/// The trimmed text of each chunk of a byte stream, the stream cut after
/// each occurrence of `eof`, each chunk decoded lossily.
pub open spec fn watch_chunks(s: Seq<u8>, eof: u8) -> Seq<Seq<char>> {
    split_incl(s, eof).map_values(|c: Seq<u8>| crate::decode::lossy_of(crate::text::trim(c)))
}

/// Cut a fully buffered stream after each occurrence of `eof` and decode
/// each chunk as trimmed text, as a reader of the progress channel hands
/// chunks to its callback.
pub fn watch(data: &[u8], eof: u8) -> (r: Vec<String>)
    ensures
        r.deep_view() == watch_chunks(data@, eof),
{
    let chunks = crate::text::split_after(data, eof);
    let ghost cdv = chunks.deep_view();
    let mut r: Vec<String> = Vec::new();
    let mut i: usize = 0;
    while i < chunks.len()
        invariant
            0 <= i <= chunks@.len(),
            cdv == chunks.deep_view(),
            cdv == split_incl(data@, eof),
            r@.len() == i,
            forall|k: int|
                0 <= k < i ==> r@[k]@ == crate::decode::lossy_of(
                    crate::text::trim(#[trigger] cdv[k]),
                ),
        decreases chunks@.len() - i,
    {
        proof {
            assert(cdv[i as int] =~= chunks@[i as int]@);
        }
        let trimmed = crate::text::trim_copy(chunks[i].as_slice());
        let s = crate::decode::lossy_string(trimmed.as_slice());
        r.push(s);
        i = i + 1;
    }
    proof {
        assert(r.deep_view() =~~= watch_chunks(data@, eof));
    }
    r
}

/// All progress samples of a fully buffered stream, in order: the stream
/// is cut after each `%`, and each piece reports at most one sample.
pub fn watch_progress(data: &[u8]) -> (r: Vec<u64>)
    ensures
        r@.map_values(|x: u64| x as nat) == progress_samples(data@),
{
    let chunks = crate::text::split_after(data, 37);
    let ghost cdv = chunks.deep_view();
    let mut r: Vec<u64> = Vec::new();
    let mut i: usize = 0;
    proof {
        assert(cdv.skip(0) =~= cdv);
        assert(r@.map_values(|x: u64| x as nat) + samples_of(cdv) =~= samples_of(cdv));
    }
    while i < chunks.len()
        invariant
            0 <= i <= chunks@.len(),
            cdv == chunks.deep_view(),
            cdv == split_incl(data@, 37),
            r@.map_values(|x: u64| x as nat) + samples_of(cdv.skip(i as int)) =~= samples_of(cdv),
        decreases chunks@.len() - i,
    {
        proof {
            assert(cdv[i as int] =~= chunks@[i as int]@);
            assert(cdv.skip(i as int).drop_first() =~= cdv.skip(i + 1));
            assert(cdv.skip(i as int)[0] == cdv[i as int]);
        }
        let ghost before = r@.map_values(|x: u64| x as nat);
        match chunk_fraction(chunks[i].as_slice()) {
            Some(v) => {
                r.push(v);
                proof {
                    assert(r@.map_values(|x: u64| x as nat) =~= before.push(v as nat));
                    assert(seq![v as nat] + samples_of(cdv.skip(i + 1)) =~= samples_of(
                        cdv.skip(i as int),
                    ));
                }
            },
            None => {},
        }
        i = i + 1;
    }
    proof {
        assert(cdv.skip(cdv.len() as int) =~= Seq::<Seq<u8>>::empty());
        assert(r@.map_values(|x: u64| x as nat) =~= samples_of(cdv));
    }
    r
}

/// A well-formed decimal numeral: it starts with a digit, and every
/// byte is a digit but for at most one decimal point, which does not
/// come first.
pub open spec fn is_numeral(t: Seq<u8>) -> bool {
    &&& t.len() > 0
    &&& is_digit(t[0])
    &&& {
        ||| (forall|k: int| 0 <= k < t.len() ==> is_digit(#[trigger] t[k]))
        ||| (exists|p: int|
            1 <= p < t.len() && #[trigger] t[p] == 46 && (forall|k: int|
                0 <= k < p ==> is_digit(#[trigger] t[k])) && (forall|k: int|
                p < k < t.len() ==> is_digit(#[trigger] t[k])))
    }
}

/// `numeral_suffix` is the longest suffix that is a numeral: when it is
/// non-empty it is a numeral, and no longer suffix is one.
pub proof fn lemma_numeral_suffix_longest(s: Seq<u8>)
    ensures
        numeral_suffix(s).len() > 0 ==> is_numeral(numeral_suffix(s)),
        forall|p: int|
            0 <= p < s.len() - numeral_suffix(s).len() ==> !is_numeral(#[trigger] s.skip(p)),
{
    lemma_digit_run_start(s);
    let j = digit_run_start(s);
    let tok = numeral_suffix(s);
    let start = s.len() - tok.len();
    if j > 0 && s[j - 1] == 46 {
        let front = s.subrange(0, j - 1);
        lemma_digit_run_start(front);
        let k = digit_run_start(front);
        assert(forall|t2: int| 0 <= t2 < j - 1 ==> front[t2] == #[trigger] s[t2]);
        if k < j - 1 {
            // the token spans both digit runs and the decimal point
            assert(tok == s.subrange(k, s.len() as int));
            assert(start == k);
            if tok.len() > 0 {
                assert(is_digit(tok[0]));
                let p = j - 1 - k;
                assert(tok[p] == 46);
                assert(is_numeral(tok));
            }
        } else {
            assert(tok == s.subrange(j, s.len() as int));
            assert(start == j);
            if tok.len() > 0 {
                assert(is_numeral(tok));
            }
        }
    } else {
        assert(tok == s.subrange(j, s.len() as int));
        assert(start == j);
        if tok.len() > 0 {
            assert(is_numeral(tok));
        }
    }
    assert forall|p: int| 0 <= p < start implies !is_numeral(#[trigger] s.skip(p)) by {
        lemma_no_longer_numeral(s, p);
    }
}

/// No suffix beginning before the start of `numeral_suffix` is a
/// numeral.
proof fn lemma_no_longer_numeral(s: Seq<u8>, p: int)
    requires
        0 <= p < s.len() - numeral_suffix(s).len(),
    ensures
        !is_numeral(s.skip(p)),
{
    if is_numeral(s.skip(p)) {
        lemma_digit_run_start(s);
        let j = digit_run_start(s);
        let t = s.skip(p);
        assert(forall|k: int| 0 <= k < t.len() ==> t[k] == #[trigger] s[p + k]);
        let start = s.len() - numeral_suffix(s).len();
        // the byte before the trailing digit run is reachable from p
        if j > 0 && s[j - 1] == 46 {
            let front = s.subrange(0, j - 1);
            lemma_digit_run_start(front);
            let k = digit_run_start(front);
            assert(forall|t2: int| 0 <= t2 < j - 1 ==> front[t2] == #[trigger] s[t2]);
            if k < j - 1 {
                assert(start == k);
                // the suffix at p contains the decimal point at j - 1 and
                // the non-digit byte at k - 1
                assert(t[j - 1 - p] == 46);
                if (forall|k2: int| 0 <= k2 < t.len() ==> is_digit(#[trigger] t[k2])) {
                    assert(is_digit(t[j - 1 - p]));
                    assert(false);
                }
                let q = choose|q: int|
                    1 <= q < t.len() && #[trigger] t[q] == 46 && (forall|k2: int|
                        0 <= k2 < q ==> is_digit(#[trigger] t[k2])) && (forall|k2: int|
                        q < k2 < t.len() ==> is_digit(#[trigger] t[k2]));
                assert(q == j - 1 - p) by {
                    if q < j - 1 - p {
                        assert(is_digit(t[j - 1 - p]));
                    } else if q > j - 1 - p {
                        assert(is_digit(t[j - 1 - p]));
                    }
                }
                assert(k > 0);
                assert(!is_digit(s[k - 1]));
                assert(is_digit(t[k - 1 - p]));
                assert(false);
            } else {
                assert(start == j);
                // at p the decimal point at j - 1 has no digit run before it
                assert(t[j - 1 - p] == 46);
                if (forall|k2: int| 0 <= k2 < t.len() ==> is_digit(#[trigger] t[k2])) {
                    assert(is_digit(t[j - 1 - p]));
                    assert(false);
                }
                let q = choose|q: int|
                    1 <= q < t.len() && #[trigger] t[q] == 46 && (forall|k2: int|
                        0 <= k2 < q ==> is_digit(#[trigger] t[k2])) && (forall|k2: int|
                        q < k2 < t.len() ==> is_digit(#[trigger] t[k2]));
                assert(q == j - 1 - p) by {
                    if q != j - 1 - p {
                        assert(is_digit(t[j - 1 - p]));
                    }
                }
                if q >= 1 {
                    if p <= j - 2 {
                        assert(k == j - 1);
                        assert(!is_digit(s[j - 2]));
                        assert(is_digit(t[j - 2 - p]));
                        assert(false);
                    } else {
                        assert(q == 0);
                        assert(false);
                    }
                }
                assert(false);
            }
        } else {
            assert(start == j);
            assert(p < j);
            assert(j > 0);
            assert(s[j - 1] != 46);
            assert(!is_digit(s[j - 1]));
            if (forall|k2: int| 0 <= k2 < t.len() ==> is_digit(#[trigger] t[k2])) {
                assert(is_digit(t[j - 1 - p]));
                assert(false);
            }
            let q = choose|q: int|
                1 <= q < t.len() && #[trigger] t[q] == 46 && (forall|k2: int|
                    0 <= k2 < q ==> is_digit(#[trigger] t[k2])) && (forall|k2: int|
                    q < k2 < t.len() ==> is_digit(#[trigger] t[k2]));
            assert(t[j - 1 - p] != 46);
            assert(q != j - 1 - p);
            assert(is_digit(t[j - 1 - p]));
            assert(false);
        }
        assert(false);
    }
}

} // verus!
