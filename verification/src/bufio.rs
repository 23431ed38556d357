//! Buffered-reader utilities: scanning a window of bytes for a delimiter
//! pattern, and the resumable `read_until` matcher that finds a pattern
//! across several fill windows.

use vstd::prelude::*;

verus! {

/// The pattern `pat` occurs in `data` starting at index `i`.
pub open spec fn match_at(data: Seq<u8>, pat: Seq<u8>, i: int) -> bool {
    0 <= i && i + pat.len() <= data.len() && data.subrange(i, i + pat.len() as int) == pat
}

/// Some occurrence of `pat` begins strictly inside `data`.
pub open spec fn match_within(data: Seq<u8>, pat: Seq<u8>) -> bool {
    exists|i: int| 0 <= i < data.len() && match_at(data, pat, i)
}

/// The last `k` bytes of `data` equal the first `k` bytes of `pat`.
pub open spec fn tail_is_prefix(data: Seq<u8>, pat: Seq<u8>, k: int) -> bool {
    0 <= k <= data.len() && k <= pat.len() && data.subrange(data.len() - k, data.len() as int)
        == pat.subrange(0, k)
}

/// What a probe of one window position finds.
enum Probe {
    /// The whole pattern matches at this position.
    Full,
    /// The first `j` pattern bytes match and the window ends there.
    OffEnd(usize),
    /// Some pattern byte disagrees with the window.
    Mismatch,
}

/// Compare the pattern against the window starting at `i`.
fn probe(data: &[u8], pat: &[u8], i: usize) -> (r: Probe)
    requires
        i < data@.len(),
    ensures
        match r {
            Probe::Full => match_at(data@, pat@, i as int),
            Probe::OffEnd(j) => {
                &&& i + j == data@.len()
                &&& j < pat@.len()
                &&& tail_is_prefix(data@, pat@, j as int)
            },
            Probe::Mismatch => exists|jj: int|
                0 <= jj < pat@.len() && i + jj < data@.len() && data@[i + jj] != pat@[jj],
        },
{
    let mut j: usize = 0;
    while j < pat.len()
        invariant
            i < data@.len(),
            j <= pat@.len(),
            i + j <= data@.len(),
            forall|jj: int| 0 <= jj < j ==> data@[i + jj] == pat@[jj],
        decreases pat@.len() - j,
    {
        if j >= data.len() - i {
            proof {
                assert(i + j == data@.len());
                assert(data@.subrange(data@.len() - j, data@.len() as int) =~= pat@.subrange(
                    0,
                    j as int,
                ));
            }
            return Probe::OffEnd(j);
        }
        if data[i + j] != pat[j] {
            return Probe::Mismatch;
        }
        j += 1;
    }
    proof {
        assert(data@.subrange(i as int, i + pat@.len()) =~= pat@);
    }
    Probe::Full
}

/// Scan `data` for the first occurrence of `pat`.
///
/// Returns `Ok(e)` where `e` is the end (exclusive) of the first occurrence,
/// i.e. the smallest `i + |pat|` with a match at `i`. Returns `Err(k)` when no
/// occurrence starts inside `data`; if `|pat| <= |data|`, `k` is then the
/// length of the longest suffix of `data` that is a proper prefix of `pat`,
/// and otherwise `k` is `0`.
pub fn end_of(data: &[u8], pat: &[u8]) -> (r: Result<usize, usize>)
    ensures
        match r {
            Ok(e) => data@.len() > 0 && exists|i: int|
                #[trigger] match_at(data@, pat@, i) && e == i + pat@.len() && forall|j: int|
                    0 <= j < i ==> !match_at(data@, pat@, j),
            Err(k) => {
                &&& !match_within(data@, pat@)
                &&& (pat@.len() > data@.len() ==> k == 0)
                &&& (pat@.len() <= data@.len() ==> {
                    &&& tail_is_prefix(data@, pat@, k as int)
                    &&& (k < pat@.len() || k == 0)
                    &&& forall|k2: int|
                        k < k2 < pat@.len() ==> !tail_is_prefix(data@, pat@, k2)
                })
            },
        },
{
    if pat.len() <= data.len() {
        let mut i: usize = 0;
        while i < data.len()
            invariant
                pat@.len() <= data@.len(),
                i <= data@.len(),
                forall|j: int| 0 <= j < i ==> !match_at(data@, pat@, j),
                forall|k2: int|
                    data@.len() - i < k2 < pat@.len() ==> !tail_is_prefix(data@, pat@, k2),
            decreases data@.len() - i,
        {
            match probe(data, pat, i) {
                Probe::Full => {
                    return Ok(i + pat.len());
                },
                Probe::OffEnd(j) => {
                    proof {
                        assert forall|jj: int| 0 <= jj < data@.len() implies !match_at(
                            data@,
                            pat@,
                            jj,
                        ) by {
                            if jj >= i {
                                assert(jj + pat@.len() > data@.len());
                            }
                        }
                    }
                    return Err(j);
                },
                Probe::Mismatch => {
                    proof {
                        let jj = choose|jj: int|
                            0 <= jj < pat@.len() && i + jj < data@.len() && data@[i + jj]
                                != pat@[jj];
                        if match_at(data@, pat@, i as int) {
                            assert(data@.subrange(i as int, i + pat@.len())[jj] == pat@.subrange(
                                0,
                                pat@.len() as int,
                            )[jj]);
                        }
                        // a tail-prefix starting exactly at this position would have
                        // agreed with the pattern on every byte up to the window's end
                        let k2 = data@.len() - i;
                        if k2 < pat@.len() && tail_is_prefix(data@, pat@, k2) {
                            assert(data@.subrange(data@.len() - k2, data@.len() as int)[jj]
                                == pat@.subrange(0, k2)[jj]);
                        }
                    }
                },
            }
            i += 1;
        }
        proof {
            assert(tail_is_prefix(data@, pat@, 0)) by {
                assert(data@.subrange(data@.len() - 0, data@.len() as int) =~= pat@.subrange(
                    0,
                    0,
                ));
            }
        }
        Err(0)
    } else {
        Err(0)
    }
}

/// First index at or after `i` where `p` occurs in `d`, if any.
pub open spec fn first_match_from(d: Seq<u8>, p: Seq<u8>, i: int) -> Option<int>
    decreases d.len() + 1 - i,
    when 0 <= i
{
    if i + p.len() > d.len() {
        None
    } else if d.subrange(i, i + p.len() as int) == p {
        Some(i)
    } else {
        first_match_from(d, p, i + 1)
    }
}

/// Largest `k2 <= k` such that the last `k2` bytes of `d` begin `p`; `0` if none.
pub open spec fn longest_tail_prefix_upto(d: Seq<u8>, p: Seq<u8>, k: int) -> int
    decreases k,
{
    if k <= 0 {
        0
    } else if tail_is_prefix(d, p, k) {
        k
    } else {
        longest_tail_prefix_upto(d, p, k - 1)
    }
}

/// The value `end_of` returns, as a function of its arguments.
pub open spec fn end_of_spec(d: Seq<u8>, p: Seq<u8>) -> Result<int, int> {
    if d.len() == 0 || p.len() > d.len() {
        Err(0int)
    } else {
        match first_match_from(d, p, 0) {
            Some(i) => Ok(i + p.len() as int),
            None => Err(longest_tail_prefix_upto(d, p, p.len() - 1)),
        }
    }
}

proof fn lemma_first_match_from_some(d: Seq<u8>, p: Seq<u8>, i0: int, i: int)
    requires
        0 <= i0 <= i,
        match_at(d, p, i),
        forall|j: int| i0 <= j < i ==> !match_at(d, p, j),
    ensures
        first_match_from(d, p, i0) == Some(i),
    decreases i - i0,
{
    if i0 < i {
        lemma_first_match_from_some(d, p, i0 + 1, i);
        assert(!match_at(d, p, i0));
        assert(i0 + p.len() <= d.len());
        assert(d.subrange(i0, i0 + p.len() as int) != p);
        assert(first_match_from(d, p, i0) == first_match_from(d, p, i0 + 1));
    } else {
        assert(i0 + p.len() <= d.len());
        assert(d.subrange(i0, i0 + p.len() as int) == p);
        assert(first_match_from(d, p, i0) == Some(i));
    }
}

proof fn lemma_first_match_from_none(d: Seq<u8>, p: Seq<u8>, i0: int)
    requires
        0 <= i0 <= d.len(),
        forall|j: int| i0 <= j < d.len() ==> !match_at(d, p, j),
        p.len() > 0,
    ensures
        first_match_from(d, p, i0) is None,
    decreases d.len() - i0,
{
    if i0 + p.len() <= d.len() {
        lemma_first_match_from_none(d, p, i0 + 1);
        assert(i0 < d.len());
        assert(!match_at(d, p, i0));
        assert(d.subrange(i0, i0 + p.len() as int) != p);
        assert(first_match_from(d, p, i0) == first_match_from(d, p, i0 + 1));
    } else {
        assert(first_match_from(d, p, i0) is None);
    }
}

proof fn lemma_longest_tail_prefix(d: Seq<u8>, p: Seq<u8>, k: int, kmax: int)
    requires
        0 <= k <= kmax,
        tail_is_prefix(d, p, k),
        forall|k2: int| k < k2 <= kmax ==> !tail_is_prefix(d, p, k2),
    ensures
        longest_tail_prefix_upto(d, p, kmax) == k,
    decreases kmax - k,
{
    if k < kmax {
        lemma_longest_tail_prefix(d, p, k, kmax - 1);
    }
}

/// `end_of`'s quantified contract pins its result to `end_of_spec`.
proof fn lemma_end_of_agrees(d: Seq<u8>, p: Seq<u8>, r: Result<usize, usize>)
    requires
        match r {
            Ok(e) => d.len() > 0 && exists|i: int|
                #[trigger] match_at(d, p, i) && e == i + p.len() && forall|j: int|
                    0 <= j < i ==> !match_at(d, p, j),
            Err(k) => {
                &&& !match_within(d, p)
                &&& (p.len() > d.len() ==> k == 0)
                &&& (p.len() <= d.len() ==> {
                    &&& tail_is_prefix(d, p, k as int)
                    &&& (k < p.len() || k == 0)
                    &&& forall|k2: int| k < k2 < p.len() ==> !tail_is_prefix(d, p, k2)
                })
            },
        },
    ensures
        match r {
            Ok(e) => end_of_spec(d, p) == Ok::<int, int>(e as int),
            Err(k) => end_of_spec(d, p) == Err::<int, int>(k as int),
        },
{
    match r {
        Ok(e) => {
            let i = choose|i: int|
                #[trigger] match_at(d, p, i) && e == i + p.len() && forall|j: int|
                    0 <= j < i ==> !match_at(d, p, j);
            lemma_first_match_from_some(d, p, 0, i);
            assert(d.len() > 0);
        },
        Err(k) => {
            if d.len() == 0 || p.len() > d.len() {
                if p.len() <= d.len() {
                    // d is empty, so the only tail prefix has length zero
                    assert(k == 0);
                }
            } else {
                if p.len() == 0 {
                    assert(match_at(d, p, 0)) by {
                        assert(d.subrange(0, 0) =~= p);
                    }
                    assert(false);
                }
                lemma_first_match_from_none(d, p, 0);
                lemma_longest_tail_prefix(d, p, k as int, p.len() - 1);
            }
        },
    }
}

/// The resumable state of `read_until`: bytes accepted so far and how many
/// leading pattern bytes are tentatively matched at their tail.
pub struct ReadUntilState {
    pub pattern: Vec<u8>,
    pub buffer: Vec<u8>,
    pub pattern_matched: usize,
}

/// Mathematical image of a `ReadUntilState`.
#[verifier::ext_equal]
pub struct RuModel {
    pub pattern: Seq<u8>,
    pub buffer: Seq<u8>,
    pub matched: int,
}

impl View for ReadUntilState {
    type V = RuModel;

    open spec fn view(&self) -> RuModel {
        RuModel { pattern: self.pattern@, buffer: self.buffer@, matched: self.pattern_matched as int }
    }
}

/// What one fill window makes of the matcher.
pub enum ReadUntilStep {
    /// The pattern completed: all bytes up to and including it, and how many
    /// bytes of the window the caller must consume.
    Done { data: Vec<u8>, consumed: usize },
    /// No occurrence yet: the whole window was taken; consume it and refill.
    More { consumed: usize },
    /// The window was empty: the source ended before the pattern was seen.
    EndOfInput,
}

/// Mathematical image of a `ReadUntilStep`.
#[verifier::ext_equal]
pub enum RuOutcome {
    Done { data: Seq<u8>, consumed: int },
    More { consumed: int },
    EndOfInput,
}

impl View for ReadUntilStep {
    type V = RuOutcome;

    open spec fn view(&self) -> RuOutcome {
        match self {
            ReadUntilStep::Done { data, consumed } => RuOutcome::Done {
                data: data@,
                consumed: *consumed as int,
            },
            ReadUntilStep::More { consumed } => RuOutcome::More { consumed: *consumed as int },
            ReadUntilStep::EndOfInput => RuOutcome::EndOfInput,
        }
    }
}

/// One step of the matcher on a fill window, as a function of the state.
pub open spec fn ru_step(st: RuModel, w: Seq<u8>) -> (RuModel, RuOutcome) {
    let p = st.pattern;
    if w.len() == 0 {
        (st, RuOutcome::EndOfInput)
    } else if st.matched > 0 && w.len() >= p.len() - st.matched && w.subrange(
        0,
        p.len() - st.matched,
    ) == p.subrange(st.matched, p.len() as int) {
        (
            RuModel { pattern: p, buffer: Seq::empty(), matched: 0 },
            RuOutcome::Done {
                data: st.buffer + p.subrange(st.matched, p.len() as int),
                consumed: p.len() - st.matched,
            },
        )
    } else {
        match end_of_spec(w, p) {
            Ok(e) => (
                RuModel { pattern: p, buffer: Seq::empty(), matched: 0 },
                RuOutcome::Done { data: st.buffer + w.subrange(0, e), consumed: e },
            ),
            Err(k) => (
                RuModel { pattern: p, buffer: st.buffer + w, matched: k },
                RuOutcome::More { consumed: w.len() as int },
            ),
        }
    }
}

/// A pattern with no internal self-overlap: no non-empty proper suffix of any
/// of its prefixes is itself a prefix of the pattern. The delimiters this
/// library scans for (`\r\n`) have this shape.
pub open spec fn no_self_overlap(p: Seq<u8>) -> bool {
    forall|j: int, k: int|
        0 < j < k <= p.len() ==> #[trigger] p.subrange(k - j, k) != p.subrange(0, j)
}

proof fn lemma_first_match_props(d: Seq<u8>, p: Seq<u8>, i0: int)
    requires
        0 <= i0,
        p.len() > 0,
    ensures
        match first_match_from(d, p, i0) {
            Some(i) => i0 <= i && match_at(d, p, i) && forall|j: int|
                i0 <= j < i ==> !match_at(d, p, j),
            None => forall|j: int| i0 <= j ==> !match_at(d, p, j),
        },
    decreases d.len() + 1 - i0,
{
    if i0 + p.len() > d.len() {
    } else if d.subrange(i0, i0 + p.len() as int) == p {
        assert(match_at(d, p, i0));
    } else {
        lemma_first_match_props(d, p, i0 + 1);
        assert(!match_at(d, p, i0));
    }
}

proof fn lemma_ltp_props(d: Seq<u8>, p: Seq<u8>, k: int)
    requires
        k <= d.len(),
        k <= p.len(),
    ensures
        ({
            let r = longest_tail_prefix_upto(d, p, k);
            &&& 0 <= r
            &&& (k >= 0 ==> r <= k)
            &&& tail_is_prefix(d, p, r)
            &&& forall|k2: int| r < k2 <= k ==> !tail_is_prefix(d, p, k2)
        }),
    decreases k,
{
    assert(tail_is_prefix(d, p, 0)) by {
        assert(d.subrange(d.len() - 0, d.len() as int) =~= p.subrange(0, 0));
    }
    if k > 0 && !tail_is_prefix(d, p, k) {
        lemma_ltp_props(d, p, k - 1);
    }
}

/// A full occurrence inside the left window is one of the concatenation,
/// and conversely.
proof fn lemma_match_inside_left(w1: Seq<u8>, w2: Seq<u8>, p: Seq<u8>, j: int)
    requires
        0 <= j,
        j + p.len() <= w1.len(),
    ensures
        match_at(w1, p, j) <==> match_at(w1 + w2, p, j),
{
    assert((w1 + w2).subrange(j, j + p.len() as int) =~= w1.subrange(j, j + p.len() as int));
}

/// An occurrence lying wholly in the right window.
proof fn lemma_match_inside_right(w1: Seq<u8>, w2: Seq<u8>, p: Seq<u8>, j: int)
    requires
        w1.len() <= j,
        j + p.len() <= w1.len() + w2.len(),
    ensures
        match_at(w2, p, j - w1.len()) <==> match_at(w1 + w2, p, j),
{
    assert((w1 + w2).subrange(j, j + p.len() as int) =~= w2.subrange(
        j - w1.len(),
        j - w1.len() + p.len() as int,
    ));
}

/// An occurrence straddling the boundary: the left window ends with a prefix
/// of the pattern and the right window begins with the rest of it.
proof fn lemma_match_straddle(w1: Seq<u8>, w2: Seq<u8>, p: Seq<u8>, m: int)
    requires
        0 < m < p.len(),
        m <= w1.len(),
        p.len() - m <= w2.len(),
    ensures
        match_at(w1 + w2, p, w1.len() - m) <==> (tail_is_prefix(w1, p, m) && w2.subrange(
            0,
            p.len() - m,
        ) == p.subrange(m, p.len() as int)),
{
    let j = w1.len() - m;
    if match_at(w1 + w2, p, j) {
        assert(w1.subrange(w1.len() - m, w1.len() as int) =~= p.subrange(0, m)) by {
            assert forall|t: int| 0 <= t < m implies w1[w1.len() - m + t] == p[t] by {
                assert((w1 + w2).subrange(j, j + p.len() as int)[t] == p[t]);
            }
        }
        assert(w2.subrange(0, p.len() - m) =~= p.subrange(m, p.len() as int)) by {
            assert forall|t: int| 0 <= t < p.len() - m implies w2[t] == p[m + t] by {
                assert((w1 + w2).subrange(j, j + p.len() as int)[m + t] == p[m + t]);
            }
        }
    }
    if tail_is_prefix(w1, p, m) && w2.subrange(0, p.len() - m) == p.subrange(m, p.len() as int) {
        assert((w1 + w2).subrange(j, j + p.len() as int) =~= p) by {
            assert forall|t: int| 0 <= t < p.len() implies (w1 + w2)[j + t] == p[t] by {
                if t < m {
                    assert(w1.subrange(w1.len() - m, w1.len() as int)[t] == p.subrange(0, m)[t]);
                } else {
                    assert(w2.subrange(0, p.len() - m)[t - m] == p.subrange(
                        m,
                        p.len() as int,
                    )[t - m]);
                }
            }
        }
    }
}

/// Two tail prefixes of different lengths overlap the pattern with itself.
proof fn lemma_overlap_violation(p: Seq<u8>, w1: Seq<u8>, k: int, m: int)
    requires
        0 < m < k <= p.len(),
        tail_is_prefix(w1, p, k),
        tail_is_prefix(w1, p, m),
    ensures
        p.subrange(k - m, k) == p.subrange(0, m),
{
    assert(p.subrange(k - m, k) =~= p.subrange(0, m)) by {
        assert forall|t: int| 0 <= t < m implies p[k - m + t] == #[trigger] p.subrange(0, m)[t] by {
            assert(w1.subrange(w1.len() - k, w1.len() as int)[k - m + t] == p.subrange(
                0,
                k,
            )[k - m + t]);
            assert(w1.subrange(w1.len() - m, w1.len() as int)[t] == p.subrange(0, m)[t]);
        }
    }
}

/// A short tail of the concatenation lies inside the right window.
proof fn lemma_tail_in_right(w1: Seq<u8>, w2: Seq<u8>, p: Seq<u8>, k: int)
    requires
        0 <= k <= w2.len(),
        k <= p.len(),
    ensures
        tail_is_prefix(w1 + w2, p, k) <==> tail_is_prefix(w2, p, k),
{
    let w = w1 + w2;
    assert(w.subrange(w.len() - k, w.len() as int) =~= w2.subrange(w2.len() - k, w2.len() as int));
}

/// Split-match correctness: a pattern without self-overlap is found across a
/// window boundary exactly as it would be in the two windows presented as one,
/// and the bytes returned are the same; when it is found in neither way, the
/// matcher's state after the two windows equals its state after the one.
pub proof fn lemma_split_match(p: Seq<u8>, w1: Seq<u8>, w2: Seq<u8>)
    requires
        p.len() > 0,
        no_self_overlap(p),
        w1.len() >= p.len(),
        w2.len() >= p.len(),
    ensures
        ({
            let st0 = RuModel { pattern: p, buffer: Seq::empty(), matched: 0 };
            let (st1, out1) = ru_step(st0, w1);
            let (stw, outw) = ru_step(st0, w1 + w2);
            match out1 {
                RuOutcome::Done { data, .. } => outw matches RuOutcome::Done { data: dw, .. }
                    && dw == data,
                RuOutcome::More { .. } => {
                    let (st2, out2) = ru_step(st1, w2);
                    match out2 {
                        RuOutcome::Done { data, .. } => outw matches RuOutcome::Done {
                            data: dw,
                            ..
                        } && dw == data,
                        RuOutcome::More { .. } => outw is More && stw == st2,
                        RuOutcome::EndOfInput => false,
                    }
                },
                RuOutcome::EndOfInput => false,
            }
        }),
{
    let st0 = RuModel { pattern: p, buffer: Seq::<u8>::empty(), matched: 0 };
    let w = w1 + w2;
    lemma_first_match_props(w1, p, 0);
    lemma_first_match_props(w2, p, 0);
    lemma_first_match_props(w, p, 0);
    lemma_ltp_props(w1, p, p.len() - 1);
    lemma_ltp_props(w2, p, p.len() - 1);
    lemma_ltp_props(w, p, p.len() - 1);
    match end_of_spec(w1, p) {
        Ok(e1) => {
            // the first occurrence within the left window is first overall
            let i1 = first_match_from(w1, p, 0)->Some_0;
            lemma_match_inside_left(w1, w2, p, i1);
            assert forall|j: int| 0 <= j < i1 implies !match_at(w, p, j) by {
                lemma_match_inside_left(w1, w2, p, j);
            }
            lemma_first_match_from_some(w, p, 0, i1);
            assert(w.subrange(0, e1) =~= w1.subrange(0, e1));
        },
        Err(k1) => {
            let st1 = RuModel { pattern: p, buffer: w1, matched: k1 };
            assert(forall|j: int| 0 <= j ==> !match_at(w1, p, j));
            assert(tail_is_prefix(w1, p, k1));
            assert(forall|k2: int| k1 < k2 <= p.len() - 1 ==> !tail_is_prefix(w1, p, k2));
            // no occurrence of the pattern lies wholly inside the left window
            assert forall|j: int| 0 <= j && j + p.len() <= w1.len() implies !match_at(
                w,
                p,
                j,
            ) by {
                lemma_match_inside_left(w1, w2, p, j);
            }
            if k1 > 0 && w2.len() >= p.len() - k1 && w2.subrange(0, p.len() - k1) == p.subrange(
                k1,
                p.len() as int,
            ) {
                // the tentative match completes at the head of the right window
                let iw = w1.len() - k1;
                lemma_match_straddle(w1, w2, p, k1);
                assert(match_at(w, p, iw));
                assert forall|j: int| 0 <= j < iw implies !match_at(w, p, j) by {
                    if j + p.len() <= w1.len() {
                        lemma_match_inside_left(w1, w2, p, j);
                    } else {
                        // a straddling occurrence earlier than iw would put a
                        // tail prefix longer than k1 at the end of the left window
                        let m = w1.len() - j;
                        lemma_match_straddle(w1, w2, p, m);
                        if match_at(w, p, j) {
                            assert(tail_is_prefix(w1, p, m));
                            assert(!tail_is_prefix(w1, p, m));
                        }
                    }
                }
                lemma_first_match_from_some(w, p, 0, iw);
                assert(end_of_spec(w, p) == Ok::<int, int>(iw + p.len()));
                let ew = iw + p.len();
                assert(w.subrange(0, ew) =~= w1 + p.subrange(k1 as int, p.len() as int)) by {
                    assert forall|t: int| 0 <= t < ew implies w.subrange(0, ew)[t] == (w1
                        + p.subrange(k1 as int, p.len() as int))[t] by {
                        if t >= w1.len() {
                            assert(w2.subrange(0, p.len() - k1)[t - w1.len()] == p.subrange(
                                k1 as int,
                                p.len() as int,
                            )[t - w1.len()]);
                        }
                    }
                }
            } else {
                // the tentative match fails; the right window is scanned alone,
                // and no occurrence can straddle the boundary: a longer tail
                // prefix than k1 is ruled out, a shorter one would overlap the
                // pattern with itself, and one of exactly k1 just failed
                assert forall|j: int| 0 <= j && j + p.len() > w1.len() && j < w1.len()
                    implies !match_at(w, p, j) by {
                    let m = w1.len() - j;
                    lemma_match_straddle(w1, w2, p, m);
                    if match_at(w, p, j) {
                        assert(tail_is_prefix(w1, p, m));
                        assert(w2.subrange(0, p.len() - m) == p.subrange(m, p.len() as int));
                        if m > k1 {
                            assert(!tail_is_prefix(w1, p, m));
                        } else if m < k1 {
                            lemma_overlap_violation(p, w1, k1, m);
                            assert(p.subrange(k1 - m, k1) != p.subrange(0, m));
                        }
                    }
                }
                match end_of_spec(w2, p) {
                    Ok(e2) => {
                        let i2 = first_match_from(w2, p, 0)->Some_0;
                        let iw = w1.len() + i2;
                        lemma_match_inside_right(w1, w2, p, iw);
                        assert forall|j: int| 0 <= j < iw implies !match_at(w, p, j) by {
                            if j >= w1.len() {
                                lemma_match_inside_right(w1, w2, p, j);
                            }
                        }
                        lemma_first_match_from_some(w, p, 0, iw);
                        assert(end_of_spec(w, p) == Ok::<int, int>(iw + p.len()));
                        assert(w.subrange(0, iw + p.len()) =~= w1 + w2.subrange(0, e2));
                    },
                    Err(k2) => {
                        // no occurrence anywhere: the one-window scan also defers,
                        // recording the same tentative tail
                        assert forall|j: int| 0 <= j implies !match_at(w, p, j) by {
                            if j + p.len() <= w.len() {
                                if j >= w1.len() {
                                    lemma_match_inside_right(w1, w2, p, j);
                                }
                            }
                        }
                        lemma_first_match_from_none(w, p, 0);
                        lemma_tail_in_right(w1, w2, p, k2);
                        assert forall|k3: int| k2 < k3 <= p.len() - 1 implies !tail_is_prefix(
                            w,
                            p,
                            k3,
                        ) by {
                            lemma_tail_in_right(w1, w2, p, k3);
                        }
                        lemma_longest_tail_prefix(w, p, k2, p.len() - 1);
                        assert(end_of_spec(w, p) == Err::<int, int>(k2));
                        let st2 = ru_step(st1, w2).0;
                        let stw = ru_step(st0, w).0;
                        assert(stw.buffer =~= st2.buffer);
                        assert(stw =~= st2);
                    },
                }
            }
        },
    }
}

/// Append the first `n` bytes of `src` to `dst`.
fn extend_prefix(dst: &mut Vec<u8>, src: &[u8], n: usize)
    requires
        n <= src@.len(),
        old(dst)@.len() + n <= usize::MAX,
    ensures
        final(dst)@ == old(dst)@ + src@.subrange(0, n as int),
{
    let mut i: usize = 0;
    while i < n
        invariant
            n <= src@.len(),
            i <= n,
            old(dst)@.len() + n <= usize::MAX,
            dst@ == old(dst)@ + src@.subrange(0, i as int),
        decreases n - i,
    {
        dst.push(src[i]);
        proof {
            assert(dst@ =~= old(dst)@ + src@.subrange(0, i + 1));
        }
        i += 1;
    }
}

/// Does `window` begin with the pattern's bytes from `offset` on?
fn starts_with_rest(window: &[u8], pat: &[u8], offset: usize) -> (r: bool)
    requires
        offset <= pat@.len(),
    ensures
        r == (window@.len() >= pat@.len() - offset && window@.subrange(0, pat@.len() - offset)
            == pat@.subrange(offset as int, pat@.len() as int)),
{
    let plen = pat.len();
    let rest = plen - offset;
    if window.len() < rest {
        return false;
    }
    let mut i: usize = 0;
    while i < rest
        invariant
            offset + rest == plen,
            plen == pat@.len(),
            rest <= window@.len(),
            i <= rest,
            forall|j: int| 0 <= j < i ==> window@[j] == pat@[offset + j],
        decreases rest - i,
    {
        if window[i] != pat[offset + i] {
            proof {
                if window@.subrange(0, pat@.len() - offset) == pat@.subrange(
                    offset as int,
                    pat@.len() as int,
                ) {
                    assert(window@.subrange(0, pat@.len() - offset)[i as int] == pat@.subrange(
                        offset as int,
                        pat@.len() as int,
                    )[i as int]);
                }
            }
            return false;
        }
        i += 1;
    }
    proof {
        assert(window@.subrange(0, pat@.len() - offset) =~= pat@.subrange(
            offset as int,
            pat@.len() as int,
        ));
    }
    true
}

impl ReadUntilState {
    /// The tentative match never exceeds the pattern.
    pub open spec fn wf(self) -> bool {
        self.pattern_matched <= self.pattern@.len()
    }

    /// A fresh matcher for `pattern`.
    pub fn new(pattern: Vec<u8>) -> (r: Self)
        ensures
            r@ == (RuModel { pattern: pattern@, buffer: Seq::<u8>::empty(), matched: 0int }),
            r.wf(),
    {
        let r = ReadUntilState { pattern, buffer: Vec::new(), pattern_matched: 0 };
        proof {
            assert(r@ =~= RuModel { pattern: r.pattern@, buffer: Seq::<u8>::empty(), matched: 0int });
        }
        r
    }

    /// Feed the next fill window. An empty window means the source ended.
    pub fn step(&mut self, window: &[u8]) -> (r: ReadUntilStep)
        requires
            old(self).wf(),
            old(self).buffer@.len() + window@.len() <= usize::MAX,
        ensures
            final(self).wf(),
            final(self)@ == ru_step(old(self)@, window@).0,
            r@ == ru_step(old(self)@, window@).1,
    {
        if window.len() == 0 {
            return ReadUntilStep::EndOfInput;
        }
        if self.pattern_matched > 0 {
            if starts_with_rest(window, &self.pattern, self.pattern_matched) {
                let part_len = self.pattern.len() - self.pattern_matched;
                extend_prefix(&mut self.buffer, window, part_len);
                let mut data: Vec<u8> = Vec::new();
                core::mem::swap(&mut data, &mut self.buffer);
                self.pattern_matched = 0;
                proof {
                    assert(self@ =~= ru_step(old(self)@, window@).0);
                    assert(data@ =~= ru_step(old(self)@, window@).1->Done_data);
                }
                return ReadUntilStep::Done { data, consumed: part_len };
            }
            self.pattern_matched = 0;
        }
        match end_of(window, &self.pattern) {
            Ok(size) => {
                proof {
                    lemma_end_of_agrees(window@, self.pattern@, Ok(size));
                }
                extend_prefix(&mut self.buffer, window, size);
                let mut data: Vec<u8> = Vec::new();
                core::mem::swap(&mut data, &mut self.buffer);
                proof {
                    assert(self@ =~= ru_step(old(self)@, window@).0);
                    assert(data@ =~= ru_step(old(self)@, window@).1->Done_data);
                }
                ReadUntilStep::Done { data, consumed: size }
            },
            Err(got) => {
                proof {
                    lemma_end_of_agrees(window@, self.pattern@, Err(got));
                }
                self.pattern_matched = got;
                extend_prefix(&mut self.buffer, window, window.len());
                proof {
                    assert(window@.subrange(0, window@.len() as int) =~= window@);
                    assert(self@ =~= ru_step(old(self)@, window@).0);
                }
                ReadUntilStep::More { consumed: window.len() }
            },
        }
    }
}

} // verus!
