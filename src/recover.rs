//! Key recovery: for each key byte, the hypothesis whose predicted leakage
//! correlates most strongly, in absolute value, with some sample column.
//!
//! The search first localizes the leakage with key byte 0 over every column,
//! then restricts every byte's search to a window around that column.
use vstd::prelude::*;
use crate::align::{align_traces, transpose, alignment_error, window_of, AlignError};
use crate::correlation::{
    lemma_exceeds_transitive,
    abs_exceeds,
    co_moment,
    column_stats,
    correlate_with,
    score_exceeds,
    ColumnStats,
    Correlation,
    Strategy,
    MAX_TRACES,
};
use crate::power::{leakage_seq, leakage_vector};

verus! {

/// Width of the window of columns searched around the localized center.
pub const SURROUND: usize = 1500;

/// The strongest candidate seen so far in a search: the coefficient's
/// numerator and squared denominator, the hypothesis and the column.
pub struct Leader {
    pub numerator: int,
    pub variance: int,
    pub guess: u8,
    pub index: int,
}

/// Before any candidate: a coefficient of zero, which only a non-zero
/// finite coefficient beats.
pub open spec fn start() -> Leader {
    Leader { numerator: 0, variance: 1, guess: 0, index: 0 }
}

/// The leader after candidate (`guess`, column `index`) with leakage `x`
/// and samples `y` is considered: it takes the lead only if its coefficient is
/// strictly larger in absolute value, so the earliest of equals stays.
pub open spec fn challenge(l: Leader, x: Seq<i16>, y: Seq<i16>, guess: u8, index: int) -> Leader {
    let num = co_moment(x, y);
    let var = co_moment(x, x) * co_moment(y, y);
    if score_exceeds(num, var, l.numerator, l.variance) {
        Leader { numerator: num, variance: var, guess, index }
    } else {
        l
    }
}

/// The leader after columns `lo..hi`, in order, are tried against leakage `x`.
pub open spec fn scan_columns(
    l: Leader,
    x: Seq<i16>,
    cols: Seq<Vec<i16>>,
    guess: u8,
    lo: int,
    hi: int,
) -> Leader
    decreases hi - lo,
{
    if hi <= lo {
        l
    } else {
        challenge(scan_columns(l, x, cols, guess, lo, hi - 1), x, cols[hi - 1]@, guess, hi - 1)
    }
}

/// The leader after hypotheses `0..g`, each over columns `lo..hi`.
pub open spec fn scan_guesses(inputs: Seq<u8>, cols: Seq<Vec<i16>>, lo: int, hi: int, g: int) -> Leader
    decreases g,
{
    if g <= 0 {
        start()
    } else {
        scan_columns(
            scan_guesses(inputs, cols, lo, hi, g - 1),
            leakage_seq(inputs, (g - 1) as u8),
            cols,
            (g - 1) as u8,
            lo,
            hi,
        )
    }
}

/// The strongest (hypothesis, column) over all 256 hypotheses and the columns
/// `lo..hi`, for the plaintext byte column `inputs`.
pub open spec fn search(inputs: Seq<u8>, cols: Seq<Vec<i16>>, lo: int, hi: int) -> Leader {
    scan_guesses(inputs, cols, lo, hi, 256)
}

/// First column of the window around `center`.
pub open spec fn window_first(center: int) -> int {
    if center >= SURROUND / 2 {
        center - SURROUND / 2
    } else {
        0
    }
}

/// End (exclusive) of the window around `center`, among `samples` columns.
pub open spec fn window_last(center: int, samples: int) -> int {
    if center + SURROUND / 2 > samples - 1 {
        samples - 1
    } else {
        center + SURROUND / 2
    }
}

/// The inputs of a search are consistent: every column holds one sample per
/// trace, its statistics are given, and the counts fit.
pub open spec fn searchable(inputs: Seq<u8>, cols: Seq<Vec<i16>>, stats: Seq<ColumnStats>) -> bool {
    &&& inputs.len() <= MAX_TRACES
    &&& stats.len() == cols.len()
    &&& forall|c: int| 0 <= c < cols.len() ==> (#[trigger] cols[c])@.len() == inputs.len()
    &&& forall|c: int| 0 <= c < cols.len() ==> (#[trigger] stats[c]).describes(cols[c]@)
}

/// The strongest candidate of a search, as found.
pub struct Best {
    pub score: Correlation,
    pub guess: u8,
    pub index: usize,
}

impl Best {
    /// This is the leader `l`.
    pub open spec fn is(self, l: Leader) -> bool {
        &&& self.score.numerator == l.numerator
        &&& self.score.variance() == l.variance
        &&& self.guess == l.guess
        &&& self.index == l.index
    }
}

/// Candidate (`guess`, column `t`) has a strictly larger coefficient, in
/// absolute value, than the leader `l`.
pub open spec fn candidate_beats(inputs: Seq<u8>, cols: Seq<Vec<i16>>, guess: u8, t: int, l: Leader) -> bool {
    let x = leakage_seq(inputs, guess);
    let y = cols[t]@;
    score_exceeds(co_moment(x, y), co_moment(x, x) * co_moment(y, y), l.numerator, l.variance)
}

/// `a` is `b`, or strictly stronger than it.
pub open spec fn dominates(a: Leader, b: Leader) -> bool {
    a == b || score_exceeds(a.numerator, a.variance, b.numerator, b.variance)
}

proof fn lemma_scan_columns_maximal(
    l: Leader,
    inputs: Seq<u8>,
    cols: Seq<Vec<i16>>,
    guess: u8,
    lo: int,
    hi: int,
)
    requires
        l.variance > 0,
    ensures
        scan_columns(l, leakage_seq(inputs, guess), cols, guess, lo, hi).variance > 0,
        dominates(scan_columns(l, leakage_seq(inputs, guess), cols, guess, lo, hi), l),
        forall|t: int|
            lo <= t < hi ==> !#[trigger] candidate_beats(
                inputs,
                cols,
                guess,
                t,
                scan_columns(l, leakage_seq(inputs, guess), cols, guess, lo, hi),
            ),
    decreases hi - lo,
{
    let x = leakage_seq(inputs, guess);
    if hi > lo {
        lemma_scan_columns_maximal(l, inputs, cols, guess, lo, hi - 1);
        let prev = scan_columns(l, x, cols, guess, lo, hi - 1);
        let next = scan_columns(l, x, cols, guess, lo, hi);
        let y = cols[hi - 1]@;
        let num = co_moment(x, y);
        let var = co_moment(x, x) * co_moment(y, y);
        if score_exceeds(num, var, prev.numerator, prev.variance) {
            assert(next == Leader { numerator: num, variance: var, guess, index: hi - 1 });
            if prev != l {
                lemma_exceeds_transitive(num, var, prev.numerator, prev.variance, l.numerator, l.variance);
            }
            assert forall|t: int| lo <= t < hi implies !#[trigger] candidate_beats(
                inputs,
                cols,
                guess,
                t,
                next,
            ) by {
                if t < hi - 1 && candidate_beats(inputs, cols, guess, t, next) {
                    let yt = cols[t]@;
                    lemma_exceeds_transitive(
                        co_moment(x, yt),
                        co_moment(x, x) * co_moment(yt, yt),
                        num,
                        var,
                        prev.numerator,
                        prev.variance,
                    );
                    assert(candidate_beats(inputs, cols, guess, t, prev));
                }
            }
        } else {
            assert(next == prev);
            assert(!candidate_beats(inputs, cols, guess, hi - 1, next));
        }
    }
}

proof fn lemma_scan_guesses_maximal(inputs: Seq<u8>, cols: Seq<Vec<i16>>, lo: int, hi: int, g: int)
    requires
        0 <= g <= 256,
    ensures
        scan_guesses(inputs, cols, lo, hi, g).variance > 0,
        forall|h: u8, t: int|
            h < g && lo <= t < hi ==> !#[trigger] candidate_beats(
                inputs,
                cols,
                h,
                t,
                scan_guesses(inputs, cols, lo, hi, g),
            ),
    decreases g,
{
    if g > 0 {
        lemma_scan_guesses_maximal(inputs, cols, lo, hi, g - 1);
        let prev = scan_guesses(inputs, cols, lo, hi, g - 1);
        let guess = (g - 1) as u8;
        let next = scan_guesses(inputs, cols, lo, hi, g);
        lemma_scan_columns_maximal(prev, inputs, cols, guess, lo, hi);
        assert forall|h: u8, t: int| h < g && lo <= t < hi implies !#[trigger] candidate_beats(
            inputs,
            cols,
            h,
            t,
            next,
        ) by {
            if h < g - 1 && candidate_beats(inputs, cols, h, t, next) && next != prev {
                let x = leakage_seq(inputs, h);
                let yt = cols[t]@;
                lemma_exceeds_transitive(
                    co_moment(x, yt),
                    co_moment(x, x) * co_moment(yt, yt),
                    next.numerator,
                    next.variance,
                    prev.numerator,
                    prev.variance,
                );
                assert(candidate_beats(inputs, cols, h, t, prev));
            }
        }
    }
}

/// The leader of a search is a maximum: no hypothesis and no column in
/// `lo..hi` has a strictly larger coefficient in absolute value.
pub proof fn lemma_search_is_maximal(inputs: Seq<u8>, cols: Seq<Vec<i16>>, lo: int, hi: int)
    ensures
        forall|h: u8, t: int|
            lo <= t < hi ==> !#[trigger] candidate_beats(inputs, cols, h, t, search(inputs, cols, lo, hi)),
{
    lemma_scan_guesses_maximal(inputs, cols, lo, hi, 256);
}

/// Searches every hypothesis against the columns `lo..hi` and returns the
/// strongest candidate.
pub fn search_window(
    inputs: &Vec<u8>,
    cols: &Vec<Vec<i16>>,
    stats: &Vec<ColumnStats>,
    lo: usize,
    hi: usize,
    strategy: Strategy,
) -> (r: Best)
    requires
        searchable(inputs@, cols@, stats@),
        lo <= hi <= cols@.len(),
    ensures
        r.is(search(inputs@, cols@, lo as int, hi as int)),
{
    let mut best = Best {
        score: Correlation { numerator: 0, var_x: 1, var_y: 1 },
        guess: 0,
        index: 0,
    };
    let mut g: usize = 0;
    while g < 256
        invariant
            searchable(inputs@, cols@, stats@),
            lo <= hi <= cols@.len(),
            g <= 256,
            best.is(scan_guesses(inputs@, cols@, lo as int, hi as int, g as int)),
            best.score.variance() > 0,
        decreases 256 - g,
    {
        let guess = g as u8;
        let powers = leakage_vector(inputs, guess);
        let ghost before = scan_guesses(inputs@, cols@, lo as int, hi as int, g as int);
        let mut t: usize = lo;
        while t < hi
            invariant
                searchable(inputs@, cols@, stats@),
                lo <= t <= hi,
                hi <= cols@.len(),
                powers@ == leakage_seq(inputs@, guess),
                best.is(scan_columns(before, powers@, cols@, guess, lo as int, t as int)),
                best.score.variance() > 0,
            decreases hi - t,
        {
            let c = correlate_with(strategy, &powers, &cols[t], &stats[t]);
            if abs_exceeds(&c, &best.score) {
                best = Best { score: c, guess, index: t };
            }
            t = t + 1;
        }
        g = g + 1;
    }
    best
}

/// Computes the statistics of every column once.
pub fn all_column_stats(cols: &Vec<Vec<i16>>, traces: usize) -> (r: Vec<ColumnStats>)
    requires
        traces <= MAX_TRACES,
        forall|c: int| 0 <= c < cols@.len() ==> (#[trigger] cols@[c])@.len() == traces,
    ensures
        r@.len() == cols@.len(),
        forall|c: int| 0 <= c < cols@.len() ==> (#[trigger] r@[c]).describes(cols@[c]@),
{
    let mut r: Vec<ColumnStats> = Vec::with_capacity(cols.len());
    let mut c: usize = 0;
    while c < cols.len()
        invariant
            traces <= MAX_TRACES,
            forall|d: int| 0 <= d < cols@.len() ==> (#[trigger] cols@[d])@.len() == traces,
            c <= cols@.len(),
            r@.len() == c,
            forall|d: int| 0 <= d < c ==> (#[trigger] r@[d]).describes(cols@[d]@),
        decreases cols@.len() - c,
    {
        r.push(column_stats(&cols[c]));
        c = c + 1;
    }
    r
}

/// The column where key byte 0 leaks most strongly: the column of the
/// strongest candidate over all hypotheses and all columns.
pub fn locate_center(
    inputs: &Vec<u8>,
    cols: &Vec<Vec<i16>>,
    stats: &Vec<ColumnStats>,
    strategy: Strategy,
) -> (r: usize)
    requires
        searchable(inputs@, cols@, stats@),
    ensures
        r == search(inputs@, cols@, 0, cols@.len() as int).index,
        r < cols@.len() || (r == 0 && cols@.len() == 0),
{
    let b = search_window(inputs, cols, stats, 0, cols.len(), strategy);
    proof {
        lemma_index_in_range(inputs@, cols@, 0, cols@.len() as int, 256);
    }
    b.index
}

proof fn lemma_columns_index(l: Leader, x: Seq<i16>, cols: Seq<Vec<i16>>, guess: u8, lo: int, hi: int)
    ensures
        scan_columns(l, x, cols, guess, lo, hi).index == l.index || lo <= scan_columns(
            l,
            x,
            cols,
            guess,
            lo,
            hi,
        ).index < hi,
    decreases hi - lo,
{
    if hi > lo {
        lemma_columns_index(l, x, cols, guess, lo, hi - 1);
    }
}

proof fn lemma_index_in_range(inputs: Seq<u8>, cols: Seq<Vec<i16>>, lo: int, hi: int, g: int)
    ensures
        (lo <= scan_guesses(inputs, cols, lo, hi, g).index < hi) || scan_guesses(
            inputs,
            cols,
            lo,
            hi,
            g,
        ).index == 0,
    decreases g,
{
    if g > 0 {
        let prev = scan_guesses(inputs, cols, lo, hi, g - 1);
        lemma_index_in_range(inputs, cols, lo, hi, g - 1);
        lemma_columns_index(prev, leakage_seq(inputs, (g - 1) as u8), cols, (g - 1) as u8, lo, hi);
    }
}

/// The window of columns `[first, last)` kept around `center` among `samples`
/// columns.
pub fn useful_window(center: usize, samples: usize) -> (r: (usize, usize))
    requires
        center < samples,
    ensures
        r.0 == window_first(center as int),
        r.1 == window_last(center as int, samples as int),
        r.0 <= r.1 < samples,
{
    let first = center.saturating_sub(SURROUND / 2);
    let last = if samples - 1 - center < SURROUND / 2 {
        samples - 1
    } else {
        center + SURROUND / 2
    };
    (first, last)
}

/// The hypothesis for one key byte: the guess of the strongest candidate over
/// the columns `first..last`.
pub fn recover_byte(
    inputs: &Vec<u8>,
    cols: &Vec<Vec<i16>>,
    stats: &Vec<ColumnStats>,
    first: usize,
    last: usize,
    strategy: Strategy,
) -> (r: u8)
    requires
        searchable(inputs@, cols@, stats@),
        first <= last <= cols@.len(),
    ensures
        r == search(inputs@, cols@, first as int, last as int).guess,
{
    search_window(inputs, cols, stats, first, last, strategy).guess
}

/// The result of a recovery: one byte per plaintext column, and the column
/// where the leakage was localized.
pub struct Recovery {
    pub key: Vec<u8>,
    pub center: usize,
}

/// `key` and `center` are what recovery from the plaintext columns `inputs`
/// and the sample columns `cols` gives.
pub open spec fn recovered(inputs: Seq<Vec<u8>>, cols: Seq<Vec<i16>>, center: int, key: Seq<u8>) -> bool {
    &&& center == search(inputs[0]@, cols, 0, cols.len() as int).index
    &&& key.len() == inputs.len()
    &&& forall|b: int|
        0 <= b < inputs.len() ==> #[trigger] key[b] == search(
            inputs[b]@,
            cols,
            window_first(center),
            window_last(center, cols.len() as int),
        ).guess
}

/// Recovers every key byte from the plaintext columns and the sample
/// columns: localizes the leakage with byte 0 over all columns, then searches
/// each byte over the window around it.
pub fn recover_key(inputs: &Vec<Vec<u8>>, cols: &Vec<Vec<i16>>, strategy: Strategy) -> (r: Recovery)
    requires
        inputs@.len() >= 1,
        cols@.len() >= 1,
        inputs@[0]@.len() <= MAX_TRACES,
        forall|b: int| 0 <= b < inputs@.len() ==> (#[trigger] inputs@[b])@.len() == inputs@[0]@.len(),
        forall|c: int| 0 <= c < cols@.len() ==> (#[trigger] cols@[c])@.len() == inputs@[0]@.len(),
    ensures
        recovered(inputs@, cols@, r.center as int, r.key@),
{
    let stats = all_column_stats(cols, inputs[0].len());
    let center = locate_center(&inputs[0], cols, &stats, strategy);
    let (first, last) = useful_window(center, cols.len());
    let mut key: Vec<u8> = Vec::with_capacity(inputs.len());
    let mut b: usize = 0;
    while b < inputs.len()
        invariant
            b <= inputs@.len(),
            inputs@.len() >= 1,
            inputs@[0]@.len() <= MAX_TRACES,
            forall|d: int| 0 <= d < inputs@.len() ==> (#[trigger] inputs@[d])@.len() == inputs@[0]@.len(),
            forall|c: int| 0 <= c < cols@.len() ==> (#[trigger] cols@[c])@.len() == inputs@[0]@.len(),
            stats@.len() == cols@.len(),
            forall|c: int| 0 <= c < cols@.len() ==> (#[trigger] stats@[c]).describes(cols@[c]@),
            first == window_first(center as int),
            last == window_last(center as int, cols@.len() as int),
            first <= last < cols@.len(),
            key@.len() == b,
            forall|d: int|
                0 <= d < b ==> #[trigger] key@[d] == search(
                    inputs@[d]@,
                    cols@,
                    first as int,
                    last as int,
                ).guess,
        decreases inputs@.len() - b,
    {
        let k = recover_byte(&inputs[b], cols, &stats, first, last, strategy);
        key.push(k);
        b = b + 1;
    }
    Recovery { key, center }
}

/// Recovery is a function of its inputs: two recoveries from the same
/// columns give the same key and the same center.
pub proof fn lemma_recovery_deterministic(
    inputs: Seq<Vec<u8>>,
    cols: Seq<Vec<i16>>,
    center1: int,
    key1: Seq<u8>,
    center2: int,
    key2: Seq<u8>,
)
    requires
        recovered(inputs, cols, center1, key1),
        recovered(inputs, cols, center2, key2),
    ensures
        center1 == center2,
        key1 == key2,
{
    assert(key1 =~= key2);
}

/// Aligns the raw traces to `samples` samples each, splits traces and
/// plaintexts into columns, and recovers one key byte per plaintext byte.
pub fn recover(
    traces: &Vec<Vec<i16>>,
    plaintexts: &Vec<Vec<u8>>,
    samples: usize,
    message_size: usize,
    strategy: Strategy,
) -> (r: Result<Recovery, AlignError>)
    requires
        traces@.len() == plaintexts@.len(),
        traces@.len() <= MAX_TRACES,
        samples >= 1,
        message_size >= 1,
        forall|t: int| 0 <= t < plaintexts@.len() ==> (#[trigger] plaintexts@[t])@.len() == message_size,
    ensures
        match r {
            Ok(rec) => exists|rows: Seq<Vec<i16>>| #[trigger]
                aligned_rows(traces@, samples as int, rows) && recovered_from_rows(
                    rows,
                    plaintexts@,
                    samples as int,
                    message_size as int,
                    rec,
                ),
            Err(e) => exists|t: int|
                0 <= t < traces@.len() && alignment_error(#[trigger] traces@[t]@, samples as int)
                    == Some(e) && forall|u: int|
                    0 <= u < t ==> alignment_error(#[trigger] traces@[u]@, samples as int) is None,
        },
{
    let rows = match align_traces(traces, samples) {
        Ok(rows) => rows,
        Err(e) => {
            return Err(e);
        },
    };
    proof {
        assert forall|t: int| 0 <= t < rows@.len() implies (#[trigger] rows@[t])@.len() == samples by {
            let s = traces@[t]@;
            assert(window_of(s, samples as int, rows@[t]@));
            let k = choose|k: int| #[trigger]
                crate::align::begins_at(s, k) && k + samples <= s.len() && rows@[t]@ == s.subrange(
                    k,
                    k + samples,
                );
        }
    }
    let cols = transpose(&rows, samples);
    let inputs = transpose(plaintexts, message_size);
    let rec = recover_key(&inputs, &cols, strategy);
    proof {
        assert(is_columns_of(plaintexts@, message_size as int, inputs@));
        assert(is_columns_of(rows@, samples as int, cols@));
        assert(recovered_from_rows(rows@, plaintexts@, samples as int, message_size as int, rec));
        assert(aligned_rows(traces@, samples as int, rows@));
    }
    Ok(rec)
}

/// Every trace aligns to `samples` samples, and `rows` are the aligned traces.
pub open spec fn aligned_rows(traces: Seq<Vec<i16>>, samples: int, rows: Seq<Vec<i16>>) -> bool {
    &&& rows.len() == traces.len()
    &&& forall|t: int|
        0 <= t < traces.len() ==> alignment_error(#[trigger] traces[t]@, samples) is None
            && window_of(traces[t]@, samples, rows[t]@)
}

/// `rec` is what recovery gives on the aligned rows `rows` and the plaintext
/// rows `plaintexts`: the key and center that `recovered` describes for their
/// columns.
pub open spec fn recovered_from_rows(
    rows: Seq<Vec<i16>>,
    plaintexts: Seq<Vec<u8>>,
    samples: int,
    message_size: int,
    rec: Recovery,
) -> bool {
    exists|inputs: Seq<Vec<u8>>, cols: Seq<Vec<i16>>|
        {
            &&& is_columns_of(plaintexts, message_size, inputs)
            &&& is_columns_of(rows, samples, cols)
            &&& recovered(inputs, cols, rec.center as int, rec.key@)
        }
}

/// `cols` are the `width` columns of `rows`.
pub open spec fn is_columns_of<T>(rows: Seq<Vec<T>>, width: int, cols: Seq<Vec<T>>) -> bool {
    &&& cols.len() == width
    &&& forall|c: int| 0 <= c < width ==> (#[trigger] cols[c])@.len() == rows.len()
    &&& forall|c: int, t: int|
        0 <= c < width && 0 <= t < rows.len() ==> #[trigger] cols[c]@[t] == rows[t]@[c]
}

} // verus!
