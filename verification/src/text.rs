//! Byte-level text utilities: ASCII lowercasing, whitespace trimming,
//! prefix tests and decimal parsing. Engine output arrives as raw bytes,
//! so the parsing logic of the library is stated over byte sequences.

use vstd::prelude::*;

verus! {

use vstd::string::is_ascii;
use vstd::string::is_ascii_spec_bytes;
use vstd::string::StringSliceAdditionalSpecFns;

/// The bytes of an ASCII character sequence, one byte per character.
pub open spec fn ascii_of(cs: Seq<char>) -> Seq<u8> {
    Seq::new(cs.len(), |i: int| cs[i] as u8)
}

/// The byte view of an ASCII string slice equals its characters read as bytes.
pub proof fn lemma_ascii_bytes(s: &str)
    requires
        is_ascii(s),
    ensures
        s.spec_bytes() == ascii_of(s@),
{
    broadcast use is_ascii_spec_bytes;

    assert(s.spec_bytes() =~= ascii_of(s@));
}

/// The bytes of an ASCII string slice, for matching against engine output.
pub fn lit_bytes(s: &str) -> (r: &[u8])
    requires
        is_ascii(s),
    ensures
        r@ == ascii_of(s@),
{
    proof {
        lemma_ascii_bytes(s);
    }
    s.as_bytes()
}

/// Whether two byte slices hold the same bytes.
pub fn bytes_eq(a: &[u8], b: &[u8]) -> (r: bool)
    ensures
        r == (a@ == b@),
{
    if a.len() != b.len() {
        proof {
            assert(a@ != b@);
        }
        return false;
    }
    let mut i: usize = 0;
    while i < a.len()
        invariant
            0 <= i <= a.len(),
            a@.len() == b@.len(),
            forall|k: int| 0 <= k < i ==> a@[k] == b@[k],
        decreases a.len() - i,
    {
        if a[i] != b[i] {
            return false;
        }
        i = i + 1;
    }
    proof {
        assert(a@ =~= b@);
    }
    true
}

/// An ASCII whitespace byte: space, tab, line feed, vertical tab,
/// form feed or carriage return.
pub open spec fn is_space(b: u8) -> bool {
    b == 32 || (9 <= b && b <= 13)
}

/// Executable test for `is_space`.
pub fn is_space_byte(b: u8) -> (r: bool)
    ensures
        r == is_space(b),
{
    b == 32 || (9 <= b && b <= 13)
}

/// An ASCII upper-case letter mapped to lower case; other bytes unchanged.
pub open spec fn lower_byte(b: u8) -> u8 {
    if 65 <= b && b <= 90 {
        (b + 32) as u8
    } else {
        b
    }
}

/// A byte sequence with its ASCII letters lowered.
pub open spec fn lower(s: Seq<u8>) -> Seq<u8> {
    s.map_values(|b: u8| lower_byte(b))
}

/// The sequence without its leading whitespace bytes.
pub open spec fn trim_front(s: Seq<u8>) -> Seq<u8>
    decreases s.len(),
{
    if s.len() > 0 && is_space(s[0]) {
        trim_front(s.drop_first())
    } else {
        s
    }
}

/// The sequence without its trailing whitespace bytes.
pub open spec fn trim_back(s: Seq<u8>) -> Seq<u8>
    decreases s.len(),
{
    if s.len() > 0 && is_space(s[s.len() - 1]) {
        trim_back(s.drop_last())
    } else {
        s
    }
}

/// The sequence without leading and trailing whitespace.
pub open spec fn trim(s: Seq<u8>) -> Seq<u8> {
    trim_back(trim_front(s))
}

proof fn lemma_trim_front_range(s: Seq<u8>, i: int)
    requires
        0 <= i <= s.len(),
        forall|k: int| 0 <= k < i ==> is_space(s[k]),
        i < s.len() ==> !is_space(s[i]),
    ensures
        trim_front(s) == s.subrange(i, s.len() as int),
    decreases s.len(),
{
    if s.len() > 0 && is_space(s[0]) {
        assert(i > 0);
        lemma_trim_front_range(s.drop_first(), i - 1);
        assert(s.drop_first().subrange(i - 1, s.drop_first().len() as int) =~= s.subrange(
            i,
            s.len() as int,
        ));
    } else {
        assert(i == 0);
        assert(s.subrange(0, s.len() as int) =~= s);
    }
}

proof fn lemma_trim_back_range(s: Seq<u8>, j: int)
    requires
        0 <= j <= s.len(),
        forall|k: int| j <= k < s.len() ==> is_space(s[k]),
        j > 0 ==> !is_space(s[j - 1]),
    ensures
        trim_back(s) == s.subrange(0, j),
    decreases s.len(),
{
    if s.len() > 0 && is_space(s[s.len() - 1]) {
        assert(j < s.len());
        lemma_trim_back_range(s.drop_last(), j);
        assert(s.drop_last().subrange(0, j) =~= s.subrange(0, j));
    } else {
        assert(j == s.len());
        assert(s.subrange(0, s.len() as int) =~= s);
    }
}

/// A copy of the byte slice with ASCII letters lowered and surrounding
/// whitespace removed, as an engine output line is normalized before
/// it is matched.
pub fn lower_trim(v: &[u8]) -> (r: Vec<u8>)
    ensures
        r@ == trim(lower(v@)),
{
    let ghost low = lower(v@);
    let mut start: usize = 0;
    while start < v.len() && is_space_byte(v[start])
        invariant
            0 <= start <= v.len(),
            low == lower(v@),
            forall|k: int| 0 <= k < start ==> is_space(low[k]),
        decreases v.len() - start,
    {
        proof {
            assert(low[start as int] == lower_byte(v@[start as int]));
            assert(is_space(lower_byte(v@[start as int])) == is_space(v@[start as int]));
        }
        start = start + 1;
    }
    let mut end: usize = v.len();
    while end > start && is_space_byte(v[end - 1])
        invariant
            start <= end <= v.len(),
            low == lower(v@),
            forall|k: int| 0 <= k < start ==> is_space(low[k]),
            start < v.len() ==> !is_space(low[start as int]),
            forall|k: int| end <= k < v.len() ==> is_space(low[k]),
        decreases end,
    {
        end = end - 1;
    }
    let mut r: Vec<u8> = Vec::new();
    let mut i: usize = start;
    while i < end
        invariant
            start <= i <= end <= v.len(),
            low == lower(v@),
            r@.len() == i - start,
            forall|k: int| 0 <= k < r@.len() ==> r@[k] == low[start + k],
        decreases end - i,
    {
        let b = v[i];
        let c = if 65 <= b && b <= 90 {
            b + 32
        } else {
            b
        };
        proof {
            assert(c == lower_byte(v@[i as int]));
        }
        r.push(c);
        i = i + 1;
    }
    proof {
        lemma_trim_front_range(low, start as int);
        if start < v.len() {
            if end == start {
                assert(is_space(low[start as int]));
                assert(false);
            }
        }
        let tf = low.subrange(start as int, low.len() as int);
        lemma_trim_back_range(tf, end - start);
        assert(r@ =~= tf.subrange(0, end - start));
    }
    r
}

/// A trim whose bounds were found by scanning from both ends is the
/// subrange between them.
pub proof fn lemma_trim_is_subrange(s: Seq<u8>, start: int, end: int)
    requires
        0 <= start <= end <= s.len(),
        forall|k: int| 0 <= k < start ==> is_space(s[k]),
        start < s.len() ==> !is_space(s[start]),
        forall|k: int| end <= k < s.len() ==> is_space(s[k]),
        end > start ==> !is_space(s[end - 1]),
    ensures
        trim(s) == s.subrange(start, end),
{
    lemma_trim_front_range(s, start);
    let tf = s.subrange(start, s.len() as int);
    lemma_trim_back_range(tf, end - start);
    assert(tf.subrange(0, end - start) =~= s.subrange(start, end));
}

/// Whether `p` is a prefix of `s`.
pub open spec fn has_prefix(s: Seq<u8>, p: Seq<u8>) -> bool {
    p.len() <= s.len() && s.subrange(0, p.len() as int) == p
}

/// Executable prefix test.
pub fn starts_with(s: &[u8], p: &[u8]) -> (r: bool)
    ensures
        r == has_prefix(s@, p@),
{
    if p.len() > s.len() {
        return false;
    }
    let mut i: usize = 0;
    while i < p.len()
        invariant
            0 <= i <= p.len() <= s.len(),
            forall|k: int| 0 <= k < i ==> s@[k] == p@[k],
        decreases p.len() - i,
    {
        if s[i] != p[i] {
            proof {
                assert(s@.subrange(0, p@.len() as int)[i as int] != p@[i as int]);
            }
            return false;
        }
        i = i + 1;
    }
    proof {
        assert(s@.subrange(0, p@.len() as int) =~= p@);
    }
    true
}

/// A copy of the bytes of `s` in positions `from` up to `to`.
pub fn slice_range(s: &[u8], from: usize, to: usize) -> (r: Vec<u8>)
    requires
        from <= to <= s@.len(),
    ensures
        r@ == s@.subrange(from as int, to as int),
{
    let mut r: Vec<u8> = Vec::new();
    let mut i: usize = from;
    while i < to
        invariant
            from <= i <= to <= s@.len(),
            r@.len() == i - from,
            forall|k: int| 0 <= k < r@.len() ==> r@[k] == s@[from + k],
        decreases to - i,
    {
        r.push(s[i]);
        i = i + 1;
    }
    proof {
        assert(r@ =~= s@.subrange(from as int, to as int));
    }
    r
}

/// Appending a zero digit multiplies the value of a digit run by ten.
pub proof fn lemma_dec_val_push_zero(s: Seq<u8>)
    ensures
        dec_val(s.push(48)) == dec_val(s) * 10,
{
    assert(s.push(48).drop_last() =~= s);
}

/// An ASCII digit byte.
pub open spec fn is_digit(b: u8) -> bool {
    48 <= b && b <= 57
}

/// Executable test for `is_digit`.
pub fn is_digit_byte(b: u8) -> (r: bool)
    ensures
        r == is_digit(b),
{
    48 <= b && b <= 57
}

/// The first index of `d` in `s`, or `s.len()` if `d` does not occur.
pub open spec fn first_ix(s: Seq<u8>, d: u8) -> int
    decreases s.len(),
{
    if s.len() == 0 {
        0
    } else if s[0] == d {
        0
    } else {
        1 + first_ix(s.drop_first(), d)
    }
}

/// `first_ix` is in range, points at `d` when `d` occurs, and nothing
/// before it is `d`.
pub proof fn lemma_first_ix(s: Seq<u8>, d: u8)
    ensures
        0 <= first_ix(s, d) <= s.len(),
        first_ix(s, d) < s.len() ==> s[first_ix(s, d)] == d,
        forall|k: int| 0 <= k < first_ix(s, d) ==> s[k] != d,
    decreases s.len(),
{
    if s.len() > 0 && s[0] != d {
        let rest = s.drop_first();
        lemma_first_ix(rest, d);
        let f = first_ix(s, d);
        assert(f == 1 + first_ix(rest, d));
        if f < s.len() {
            assert(s[f] == rest[f - 1]);
        }
        assert forall|k: int| 0 <= k < f implies s[k] != d by {
            if k > 0 {
                assert(s[k] == rest[k - 1]);
            }
        }
    }
}

/// The pieces of `s` between occurrences of `d`, the delimiter removed.
/// A trailing delimiter yields a final empty piece.
pub open spec fn split_excl(s: Seq<u8>, d: u8) -> Seq<Seq<u8>>
    decreases s.len(),
    via split_excl_decreases
{
    let i = first_ix(s, d);
    if i == s.len() {
        seq![s]
    } else {
        seq![s.subrange(0, i)] + split_excl(s.subrange(i + 1, s.len() as int), d)
    }
}

#[via_fn]
proof fn split_excl_decreases(s: Seq<u8>, d: u8) {
    lemma_first_ix(s, d);
}

/// The pieces of `s` up to and including each occurrence of `d`; bytes
/// after the last occurrence form a final piece without the delimiter.
pub open spec fn split_incl(s: Seq<u8>, d: u8) -> Seq<Seq<u8>>
    decreases s.len(),
    via split_incl_decreases
{
    if s.len() == 0 {
        seq![]
    } else {
        let i = first_ix(s, d);
        if i == s.len() {
            seq![s]
        } else {
            seq![s.subrange(0, i + 1)] + split_incl(s.subrange(i + 1, s.len() as int), d)
        }
    }
}

#[via_fn]
proof fn split_incl_decreases(s: Seq<u8>, d: u8) {
    lemma_first_ix(s, d);
}

/// `first_ix` equals any index with nothing equal to `d` before it and
/// `d` at it (or the length, when `d` does not occur).
pub proof fn lemma_first_ix_found(s: Seq<u8>, d: u8, i: int)
    requires
        0 <= i <= s.len(),
        forall|k: int| 0 <= k < i ==> s[k] != d,
        i < s.len() ==> s[i] == d,
    ensures
        first_ix(s, d) == i,
{
    lemma_first_ix(s, d);
    let f = first_ix(s, d);
    if f < i {
        assert(s[f] != d);
    }
    if i < f {
        assert(s[i] != d);
    }
}

/// Cut `s` at each occurrence of `d`, the delimiter removed.
pub fn split_on(s: &[u8], d: u8) -> (r: Vec<Vec<u8>>)
    ensures
        r.deep_view() == split_excl(s@, d),
{
    let mut r: Vec<Vec<u8>> = Vec::new();
    let mut start: usize = 0;
    let mut i: usize = 0;
    let mut piece: Vec<u8> = Vec::new();
    proof {
        assert(s@.subrange(0, s@.len() as int) =~= s@);
        assert(piece@ =~= s@.subrange(0, 0));
        assert(r.deep_view() + split_excl(s@, d) =~~= split_excl(s@, d));
    }
    while i < s.len()
        invariant
            0 <= start <= i <= s@.len(),
            piece@ == s@.subrange(start as int, i as int),
            forall|k: int| start <= k < i ==> s@[k] != d,
            r.deep_view() + split_excl(s@.subrange(start as int, s@.len() as int), d) =~~= split_excl(
                s@,
                d,
            ),
        decreases s.len() - i,
    {
        if s[i] == d {
            let ghost prev = r.deep_view();
            let ghost pv = piece@;
            proof {
                let rest = s@.subrange(start as int, s@.len() as int);
                lemma_first_ix_found(rest, d, i - start);
                assert(rest.subrange(0, i - start) =~= pv);
                assert(rest.subrange(i - start + 1, rest.len() as int) =~= s@.subrange(
                    i + 1,
                    s@.len() as int,
                ));
            }
            r.push(piece);
            piece = Vec::new();
            start = i + 1;
            proof {
                assert(r.deep_view() =~~= prev.push(pv));
                assert(piece@ =~= s@.subrange(start as int, start as int));
            }
        } else {
            piece.push(s[i]);
        }
        i = i + 1;
        proof {
            assert(piece@ =~= s@.subrange(start as int, i as int));
        }
    }
    let ghost prev = r.deep_view();
    let ghost pv = piece@;
    proof {
        let rest = s@.subrange(start as int, s@.len() as int);
        lemma_first_ix_found(rest, d, rest.len() as int);
        assert(pv =~= rest);
    }
    r.push(piece);
    proof {
        assert(r.deep_view() =~~= prev.push(pv));
    }
    r
}

/// Cut `s` after each occurrence of `d`, keeping the delimiter; trailing
/// bytes after the last occurrence form a final piece.
pub fn split_after(s: &[u8], d: u8) -> (r: Vec<Vec<u8>>)
    ensures
        r.deep_view() == split_incl(s@, d),
{
    let mut r: Vec<Vec<u8>> = Vec::new();
    let mut start: usize = 0;
    let mut i: usize = 0;
    let mut piece: Vec<u8> = Vec::new();
    proof {
        assert(s@.subrange(0, s@.len() as int) =~= s@);
        assert(piece@ =~= s@.subrange(0, 0));
        assert(r.deep_view() + split_incl(s@, d) =~~= split_incl(s@, d));
    }
    while i < s.len()
        invariant
            0 <= start <= i <= s@.len(),
            piece@ == s@.subrange(start as int, i as int),
            forall|k: int| start <= k < i ==> s@[k] != d,
            r.deep_view() + split_incl(s@.subrange(start as int, s@.len() as int), d) =~~= split_incl(
                s@,
                d,
            ),
        decreases s.len() - i,
    {
        let cur = s[i];
        piece.push(cur);
        proof {
            assert(piece@ =~= s@.subrange(start as int, i + 1));
        }
        if cur == d {
            let ghost prev = r.deep_view();
            let ghost pv = piece@;
            proof {
                let rest = s@.subrange(start as int, s@.len() as int);
                lemma_first_ix_found(rest, d, i - start);
                assert(rest.subrange(0, i - start + 1) =~= pv);
                assert(rest.subrange(i - start + 1, rest.len() as int) =~= s@.subrange(
                    i + 1,
                    s@.len() as int,
                ));
            }
            r.push(piece);
            piece = Vec::new();
            start = i + 1;
            proof {
                assert(r.deep_view() =~~= prev.push(pv));
                assert(piece@ =~= s@.subrange(start as int, start as int));
            }
        }
        i = i + 1;
        proof {
            assert(piece@ =~= s@.subrange(start as int, i as int));
        }
    }
    if piece.len() > 0 {
        let ghost prev = r.deep_view();
        let ghost pv = piece@;
        proof {
            let rest = s@.subrange(start as int, s@.len() as int);
            lemma_first_ix_found(rest, d, rest.len() as int);
            assert(pv =~= rest);
        }
        r.push(piece);
        proof {
            assert(r.deep_view() =~~= prev.push(pv));
        }
    } else {
        proof {
            let rest = s@.subrange(start as int, s@.len() as int);
            assert(rest =~= piece@);
            assert(rest.len() == 0);
            assert(r.deep_view() + split_incl(rest, d) =~~= r.deep_view());
        }
    }
    r
}

/// The value of a sequence of ASCII digit bytes read in base ten;
/// an empty sequence reads as zero.
pub open spec fn dec_val(s: Seq<u8>) -> nat
    decreases s.len(),
{
    if s.len() == 0 {
        0
    } else {
        dec_val(s.drop_last()) * 10 + (s[s.len() - 1] - 48) as nat
    }
}

/// What a run of size digits counts for: its base-ten value, or zero when
/// the run is empty or its value does not fit the machine. Engine output
/// that overstates a size falls back to the unknown-size sentinel.
pub open spec fn size_val(s: Seq<u8>) -> nat {
    if s.len() > 0 && dec_val(s) <= usize::MAX {
        dec_val(s)
    } else {
        0
    }
}

/// Base-ten value of a digit run, with the empty and oversized runs
/// reading as zero.
pub fn parse_size(s: &[u8]) -> (r: usize)
    requires
        forall|k: int| 0 <= k < s@.len() ==> is_digit(s@[k]),
    ensures
        r == size_val(s@),
{
    if s.len() == 0 {
        return 0;
    }
    let mut acc: usize = 0;
    let mut over: bool = false;
    let mut i: usize = 0;
    while i < s.len()
        invariant
            0 <= i <= s@.len(),
            forall|k: int| 0 <= k < s@.len() ==> is_digit(s@[k]),
            !over ==> acc == dec_val(s@.subrange(0, i as int)),
            over ==> dec_val(s@.subrange(0, i as int)) > usize::MAX,
        decreases s.len() - i,
    {
        let d = s[i] - 48;
        proof {
            assert(s@.subrange(0, i + 1).drop_last() =~= s@.subrange(0, i as int));
            assert(dec_val(s@.subrange(0, i + 1)) == dec_val(s@.subrange(0, i as int)) * 10 + d);
        }
        if over {
            proof {
                vstd::arithmetic::mul::lemma_mul_inequality(
                    usize::MAX + 1,
                    dec_val(s@.subrange(0, i as int)) as int,
                    10,
                );
            }
        } else {
            if acc > (usize::MAX - d as usize) / 10 {
                proof {
                    let m = usize::MAX as int;
                    let a = acc as int;
                    let dd = d as int;
                    assert(a >= (m - dd) / 10 + 1);
                    assert(a * 10 >= ((m - dd) / 10 + 1) * 10) by (nonlinear_arith)
                        requires
                            a >= (m - dd) / 10 + 1,
                    ;
                    assert(((m - dd) / 10) * 10 + (m - dd) % 10 == m - dd);
                    assert(a * 10 + dd > m);
                }
                over = true;
            } else {
                proof {
                    let m = usize::MAX as int;
                    let a = acc as int;
                    let dd = d as int;
                    assert(a <= (m - dd) / 10);
                    assert(a * 10 <= ((m - dd) / 10) * 10) by (nonlinear_arith)
                        requires
                            a <= (m - dd) / 10,
                    ;
                    assert(((m - dd) / 10) * 10 <= m - dd);
                }
                acc = acc * 10 + d as usize;
            }
        }
        i = i + 1;
    }
    proof {
        assert(s@.subrange(0, s@.len() as int) =~= s@);
    }
    if over {
        0
    } else {
        acc
    }
}

/// The smaller of two naturals.
pub open spec fn min_nat(a: nat, b: nat) -> nat {
    if a <= b {
        a
    } else {
        b
    }
}

/// Base-ten value of a digit run, saturating at the largest 64-bit value.
pub fn parse_u64_sat(s: &[u8]) -> (r: u64)
    requires
        forall|k: int| 0 <= k < s@.len() ==> is_digit(s@[k]),
    ensures
        r as nat == min_nat(dec_val(s@), u64::MAX as nat),
{
    let mut acc: u64 = 0;
    let mut i: usize = 0;
    while i < s.len()
        invariant
            0 <= i <= s@.len(),
            forall|k: int| 0 <= k < s@.len() ==> is_digit(s@[k]),
            acc as nat == min_nat(dec_val(s@.subrange(0, i as int)), u64::MAX as nat),
        decreases s.len() - i,
    {
        let d = s[i] - 48;
        proof {
            assert(s@.subrange(0, i + 1).drop_last() =~= s@.subrange(0, i as int));
            assert(dec_val(s@.subrange(0, i + 1)) == dec_val(s@.subrange(0, i as int)) * 10 + d);
        }
        let ghost prev = dec_val(s@.subrange(0, i as int));
        if acc > (u64::MAX - d as u64) / 10 {
            proof {
                let m = u64::MAX as int;
                let a = acc as int;
                let dd = d as int;
                assert(a * 10 >= ((m - dd) / 10 + 1) * 10) by (nonlinear_arith)
                    requires
                        a >= (m - dd) / 10 + 1,
                ;
                assert(((m - dd) / 10) * 10 + (m - dd) % 10 == m - dd);
                assert(a * 10 + dd > m);
                if prev > acc as nat {
                    vstd::arithmetic::mul::lemma_mul_inequality(a, prev as int, 10);
                }
            }
            acc = u64::MAX;
        } else {
            proof {
                let m = u64::MAX as int;
                let a = acc as int;
                let dd = d as int;
                assert(a * 10 <= ((m - dd) / 10) * 10) by (nonlinear_arith)
                    requires
                        a <= (m - dd) / 10,
                ;
                assert(((m - dd) / 10) * 10 <= m - dd);
                assert(prev == acc as nat);
            }
            acc = acc * 10 + d as u64;
        }
        i = i + 1;
    }
    proof {
        assert(s@.subrange(0, s@.len() as int) =~= s@);
    }
    acc
}

/// A trimmed copy of a byte slice.
pub fn trim_copy(v: &[u8]) -> (r: Vec<u8>)
    ensures
        r@ == trim(v@),
{
    let mut start: usize = 0;
    while start < v.len() && is_space_byte(v[start])
        invariant
            0 <= start <= v@.len(),
            forall|k: int| 0 <= k < start ==> is_space(v@[k]),
        decreases v.len() - start,
    {
        start = start + 1;
    }
    let mut end: usize = v.len();
    while end > start && is_space_byte(v[end - 1])
        invariant
            start <= end <= v@.len(),
            forall|k: int| 0 <= k < start ==> is_space(v@[k]),
            start < v@.len() ==> !is_space(v@[start as int]),
            forall|k: int| end <= k < v@.len() ==> is_space(v@[k]),
        decreases end,
    {
        end = end - 1;
    }
    let r = slice_range(v, start, end);
    proof {
        lemma_trim_is_subrange(v@, start as int, end as int);
    }
    r
}


/// A trimmed copy of the byte slice from position `from` on.
pub fn tail_trim(v: &[u8], from: usize) -> (r: Vec<u8>)
    requires
        from <= v@.len(),
    ensures
        r@ == trim(v@.skip(from as int)),
{
    let part = slice_range(v, from, v.len());
    let r = trim_copy(part.as_slice());
    proof {
        assert(v@.skip(from as int) =~= v@.subrange(from as int, v@.len() as int));
    }
    r
}

/// The first position where `pat` occurs in `s`, or `s.len()` when it
/// does not occur.
pub open spec fn find_sub(s: Seq<u8>, pat: Seq<u8>) -> int
    decreases s.len(),
{
    if has_prefix(s, pat) {
        0
    } else if s.len() == 0 {
        0
    } else {
        1 + find_sub(s.drop_first(), pat)
    }
}

/// For a non-empty pattern, `find_sub` is in range, marks an occurrence
/// when it is short of the length, and nothing before it starts one.
pub proof fn lemma_find_sub(s: Seq<u8>, pat: Seq<u8>)
    requires
        pat.len() >= 1,
    ensures
        0 <= find_sub(s, pat) <= s.len(),
        find_sub(s, pat) < s.len() ==> has_prefix(s.skip(find_sub(s, pat)), pat),
        forall|k: int| 0 <= k < find_sub(s, pat) ==> !has_prefix(s.skip(k), pat),
    decreases s.len(),
{
    if has_prefix(s, pat) {
        assert(s.skip(0) =~= s);
    } else if s.len() > 0 {
        let rest = s.drop_first();
        lemma_find_sub(rest, pat);
        let f = find_sub(s, pat);
        assert(rest =~= s.skip(1));
        if f < s.len() {
            assert(rest.skip(f - 1) =~= s.skip(f));
        }
        assert forall|k: int| 0 <= k < f implies !has_prefix(s.skip(k), pat) by {
            if k == 0 {
                assert(s.skip(0) =~= s);
            } else {
                assert(rest.skip(k - 1) =~= s.skip(k));
            }
        }
    }
}

/// `find_sub` equals any position that starts an occurrence with none
/// starting earlier.
pub proof fn lemma_find_sub_found(s: Seq<u8>, pat: Seq<u8>, i: int)
    requires
        pat.len() >= 1,
        0 <= i <= s.len(),
        has_prefix(s.skip(i), pat),
        forall|k: int| 0 <= k < i ==> !has_prefix(s.skip(k), pat),
    ensures
        find_sub(s, pat) == i,
{
    lemma_find_sub(s, pat);
    let f = find_sub(s, pat);
    if f > i {
        assert(!has_prefix(s.skip(i), pat));
    }
    if f < i {
        assert(f < s.len());
        assert(has_prefix(s.skip(f), pat));
    }
}

/// Every occurrence of `pat` replaced by `rep`, left to right and
/// without overlap.
pub open spec fn replace_all(s: Seq<u8>, pat: Seq<u8>, rep: Seq<u8>) -> Seq<u8>
    decreases s.len(),
    via replace_all_decreases
{
    if pat.len() == 0 {
        s
    } else {
        let i = find_sub(s, pat);
        if i < s.len() {
            s.subrange(0, i) + rep + replace_all(s.skip(i + pat.len()), pat, rep)
        } else {
            s
        }
    }
}

#[via_fn]
proof fn replace_all_decreases(s: Seq<u8>, pat: Seq<u8>, rep: Seq<u8>) {
    if pat.len() >= 1 {
        lemma_find_sub(s, pat);
    }
}

/// Copy `src` onto the end of `dst`.
pub fn append_bytes(dst: &mut Vec<u8>, src: &[u8])
    ensures
        final(dst)@ == old(dst)@ + src@,
{
    let ghost orig = dst@;
    let mut i: usize = 0;
    while i < src.len()
        invariant
            0 <= i <= src@.len(),
            dst@ == orig + src@.subrange(0, i as int),
        decreases src@.len() - i,
    {
        dst.push(src[i]);
        i = i + 1;
        proof {
            assert(dst@ =~= orig + src@.subrange(0, i as int));
        }
    }
    proof {
        assert(src@.subrange(0, src@.len() as int) =~= src@);
    }
}

/// Replace every occurrence of `pat` in `s` by `rep`, left to right.
pub fn replace_bytes(s: &[u8], pat: &[u8], rep: &[u8]) -> (r: Vec<u8>)
    ensures
        r@ == replace_all(s@, pat@, rep@),
    decreases s@.len(),
{
    if pat.len() == 0 {
        return slice_range(s, 0, s.len());
    }
    let mut pos: usize = 0;
    while pos < s.len()
        invariant
            0 <= pos <= s@.len(),
            pat@.len() >= 1,
            forall|k: int| 0 <= k < pos ==> !has_prefix(s@.skip(k), pat@),
        decreases s@.len() - pos,
    {
        let tail = slice_range(s, pos, s.len());
        if starts_with(tail.as_slice(), pat) {
            proof {
                assert(tail@ =~= s@.skip(pos as int));
                lemma_find_sub_found(s@, pat@, pos as int);
            }
            let mut r = slice_range(s, 0, pos);
            append_bytes(&mut r, rep);
            let rest = slice_range(s, pos + pat.len(), s.len());
            let tail_replaced = replace_bytes(rest.as_slice(), pat, rep);
            append_bytes(&mut r, tail_replaced.as_slice());
            proof {
                assert(rest@ =~= s@.skip(pos + pat@.len()));
                assert(r@ =~= s@.subrange(0, pos as int) + rep@ + replace_all(
                    s@.skip(pos + pat@.len()),
                    pat@,
                    rep@,
                ));
            }
            return r;
        }
        proof {
            assert(tail@ =~= s@.skip(pos as int));
        }
        pos = pos + 1;
    }
    proof {
        lemma_find_sub(s@, pat@);
        let f = find_sub(s@, pat@);
        if f < s@.len() {
            assert(!has_prefix(s@.skip(f), pat@));
        }
    }
    slice_range(s, 0, s.len())
}

} // verus!