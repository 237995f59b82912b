//! Trace realignment: finding the end of the calibration run at the start of
//! each trace, cutting a fixed-length window after it, and turning the aligned
//! rows into per-sample columns.
use vstd::prelude::*;

verus! {

/// Length of the run of identical samples that marks the calibration artifact.
pub const THRESHOLD: usize = 50;

/// Number of leading samples searched for that run.
pub const SCAN_LIMIT: usize = 250;

/// Why a trace could not be aligned.
#[derive(Clone, Copy, Debug, PartialEq, Eq)]
pub enum AlignError {
    /// No run of `THRESHOLD` identical samples within the first `SCAN_LIMIT`.
    AlignmentNotFound,
    /// Fewer samples remain after the run than the window needs.
    InsufficientSamples,
}

/// Number of samples searched in `s`.
pub open spec fn scanned(s: Seq<i16>) -> int {
    if s.len() < SCAN_LIMIT {
        s.len() as int
    } else {
        SCAN_LIMIT as int
    }
}

/// A run of `THRESHOLD` identical samples ends at index `i`.
pub open spec fn run_ends_at(s: Seq<i16>, i: int) -> bool {
    &&& THRESHOLD - 1 <= i < s.len()
    &&& forall|j: int| i - (THRESHOLD - 1) <= j <= i ==> #[trigger] s[j] == s[i]
}

/// The real samples of `s` begin at `k`: the first run within the searched
/// prefix ends just before it.
pub open spec fn begins_at(s: Seq<i16>, k: int) -> bool {
    &&& 1 <= k <= scanned(s)
    &&& run_ends_at(s, k - 1)
    &&& forall|i: int| 0 <= i < k - 1 ==> !#[trigger] run_ends_at(s, i)
}

/// No run ends within the searched prefix of `s`.
pub open spec fn unaligned(s: Seq<i16>) -> bool {
    forall|i: int| 0 <= i < scanned(s) ==> !#[trigger] run_ends_at(s, i)
}

/// Finds the index just after the first run of `THRESHOLD` identical samples
/// within the first `SCAN_LIMIT` samples, or `None` if there is no such run.
pub fn real_index(trace: &Vec<i16>) -> (r: Option<usize>)
    ensures
        match r {
            Some(k) => begins_at(trace@, k as int),
            None => unaligned(trace@),
        },
{
    let s = Ghost(trace@);
    let n = trace.len();
    let limit: usize = if n < SCAN_LIMIT {
        n
    } else {
        SCAN_LIMIT
    };
    if limit == 0 {
        return None;
    }
    let mut run: usize = 1;
    let mut i: usize = 1;
    while i < limit
        invariant
            s@ == trace@,
            n == s@.len(),
            limit == scanned(s@),
            1 <= i <= limit,
            1 <= run <= i,
            run < THRESHOLD,
            forall|j: int| i - run <= j < i ==> #[trigger] s@[j] == s@[i - 1],
            i - run == 0 || s@[i - run - 1] != s@[i - 1],
            forall|k: int| 0 <= k < i ==> !#[trigger] run_ends_at(s@, k),
        decreases limit - i,
    {
        if trace[i] == trace[i - 1] {
            run = run + 1;
            if run == THRESHOLD {
                assert(run_ends_at(s@, i as int));
                return Some(i + 1);
            }
        } else {
            run = 1;
        }
        assert(!run_ends_at(s@, i as int)) by {
            if i + 1 > run {
                assert(s@[i - run] != s@[i as int]);
            }
        }
        i = i + 1;
    }
    None
}

/// The `length` samples of `trace` starting at `offset`, if there are that many.
pub fn extract_window(trace: &Vec<i16>, offset: usize, length: usize) -> (r: Option<Vec<i16>>)
    ensures
        match r {
            Some(w) => offset + length <= trace@.len() && w@ == trace@.subrange(
                offset as int,
                offset + length,
            ),
            None => offset + length > trace@.len(),
        },
{
    if offset > trace.len() || length > trace.len() - offset {
        return None;
    }
    let mut w: Vec<i16> = Vec::with_capacity(length);
    let mut i: usize = 0;
    while i < length
        invariant
            offset + length <= trace.len(),
            i <= length,
            w@ == trace@.subrange(offset as int, offset + i),
        decreases length - i,
    {
        w.push(trace[offset + i]);
        i = i + 1;
        assert(w@ =~= trace@.subrange(offset as int, offset + i));
    }
    Some(w)
}

/// `w` is the aligned window of `s`: the `length` samples where its real
/// samples begin.
pub open spec fn window_of(s: Seq<i16>, length: int, w: Seq<i16>) -> bool {
    exists|k: int| #[trigger]
        begins_at(s, k) && k + length <= s.len() && w == s.subrange(k, k + length)
}

/// The error that aligning `s` to `length` samples gives, if any.
pub open spec fn alignment_error(s: Seq<i16>, length: int) -> Option<AlignError> {
    if unaligned(s) {
        Some(AlignError::AlignmentNotFound)
    } else if exists|k: int| #[trigger] begins_at(s, k) && k + length > s.len() {
        Some(AlignError::InsufficientSamples)
    } else {
        None
    }
}

proof fn lemma_begins_unique(s: Seq<i16>, k: int, m: int)
    requires
        begins_at(s, k),
        begins_at(s, m),
    ensures
        k == m,
{
    if k < m {
        assert(run_ends_at(s, k - 1));
    } else if m < k {
        assert(run_ends_at(s, m - 1));
    }
}

/// Aligns one trace: its `length` samples after the calibration run.
pub fn align_trace(trace: &Vec<i16>, length: usize) -> (r: Result<Vec<i16>, AlignError>)
    ensures
        match r {
            Ok(w) => alignment_error(trace@, length as int) is None && window_of(
                trace@,
                length as int,
                w@,
            ),
            Err(e) => alignment_error(trace@, length as int) == Some(e),
        },
{
    match real_index(trace) {
        None => {
            Err(AlignError::AlignmentNotFound)
        },
        Some(k) => {
            proof {
                assert(!unaligned(trace@)) by {
                    assert(run_ends_at(trace@, k - 1));
                }
            }
            match extract_window(trace, k, length) {
                None => {
                    assert(begins_at(trace@, k as int) && k + length > trace@.len());
                    Err(AlignError::InsufficientSamples)
                },
                Some(w) => {
                    proof {
                        assert forall|m: int| #[trigger]
                            begins_at(trace@, m) implies !(m + length > trace@.len()) by {
                            lemma_begins_unique(trace@, k as int, m);
                        }
                        assert(begins_at(trace@, k as int));
                    }
                    Ok(w)
                },
            }
        },
    }
}

/// Aligns every trace, failing with the error of the first trace that
/// cannot be aligned.
pub fn align_traces(traces: &Vec<Vec<i16>>, length: usize) -> (r: Result<
    Vec<Vec<i16>>,
    AlignError,
>)
    ensures
        match r {
            Ok(rows) => rows@.len() == traces@.len() && forall|t: int|
                0 <= t < traces@.len() ==> alignment_error(#[trigger] traces@[t]@, length as int)
                    is None && window_of(traces@[t]@, length as int, rows@[t]@),
            Err(e) => exists|t: int|
                0 <= t < traces@.len() && alignment_error(#[trigger] traces@[t]@, length as int)
                    == Some(e) && forall|u: int|
                    0 <= u < t ==> alignment_error(#[trigger] traces@[u]@, length as int) is None,
        },
{
    let mut rows: Vec<Vec<i16>> = Vec::with_capacity(traces.len());
    let mut t: usize = 0;
    while t < traces.len()
        invariant
            t <= traces@.len(),
            rows@.len() == t,
            forall|u: int|
                0 <= u < t ==> alignment_error(#[trigger] traces@[u]@, length as int) is None
                    && window_of(traces@[u]@, length as int, rows@[u]@),
        decreases traces@.len() - t,
    {
        match align_trace(&traces[t], length) {
            Ok(w) => {
                rows.push(w);
            },
            Err(e) => {
                assert(alignment_error(traces@[t as int]@, length as int) == Some(e));
                return Err(e);
            },
        }
        t = t + 1;
    }
    Ok(rows)
}

/// Turns `rows` (each of length `width`) into `width` columns: column `c`
/// holds the `c`-th element of every row, in row order.
pub fn transpose<T: Copy>(rows: &Vec<Vec<T>>, width: usize) -> (r: Vec<Vec<T>>)
    requires
        forall|t: int| 0 <= t < rows@.len() ==> (#[trigger] rows@[t])@.len() == width,
    ensures
        r@.len() == width,
        forall|c: int| 0 <= c < width ==> (#[trigger] r@[c])@.len() == rows@.len(),
        forall|c: int, t: int|
            0 <= c < width && 0 <= t < rows@.len() ==> #[trigger] r@[c]@[t] == rows@[t]@[c],
{
    let mut cols: Vec<Vec<T>> = Vec::with_capacity(width);
    let mut c: usize = 0;
    while c < width
        invariant
            c <= width,
            forall|t: int| 0 <= t < rows@.len() ==> (#[trigger] rows@[t])@.len() == width,
            cols@.len() == c,
            forall|d: int| 0 <= d < c ==> (#[trigger] cols@[d])@.len() == rows@.len(),
            forall|d: int, t: int|
                0 <= d < c && 0 <= t < rows@.len() ==> #[trigger] cols@[d]@[t] == rows@[t]@[d],
        decreases width - c,
    {
        let mut col: Vec<T> = Vec::with_capacity(rows.len());
        let mut t: usize = 0;
        while t < rows.len()
            invariant
                c < width,
                forall|u: int| 0 <= u < rows@.len() ==> (#[trigger] rows@[u])@.len() == width,
                t <= rows@.len(),
                col@.len() == t,
                forall|u: int| 0 <= u < t ==> #[trigger] col@[u] == rows@[u]@[c as int],
            decreases rows@.len() - t,
        {
            col.push(rows[t][c]);
            t = t + 1;
        }
        cols.push(col);
        c = c + 1;
    }
    cols
}

} // verus!
