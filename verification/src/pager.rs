//! The page-window generator: turns a total page count and the current page
//! into the compressed list of page links shown for navigation, where `None`
//! is a gap marker standing for an elided run of page numbers.

use vstd::prelude::*;

verus! {

/// The window entries `Some(lo), Some(lo + 1), ..., Some(hi)`; empty when
/// `hi < lo`.
pub open spec fn pages(lo: int, hi: int) -> Seq<Option<u32>> {
    Seq::new(
        if hi + 1 - lo >= 0 {
            (hi + 1 - lo) as nat
        } else {
            0
        },
        |k: int| Some((lo + k) as u32),
    )
}

/// The page window for `count` total pages with `current` the 1-based current
/// page, `on_each_side` neighbours shown around the current page and
/// `on_ends` pages always shown at each boundary.
///
/// When everything fits, the window is simply `1..=count`. Otherwise a
/// leading part runs up to the current page, eliding middle pages behind a
/// gap marker only when there is something to hide, and a symmetric trailing
/// part runs from the current page to the end.
pub open spec fn spec_pager(count: int, current: int, on_each_side: int, on_ends: int) -> Seq<
    Option<u32>,
> {
    if count <= 2 * (on_each_side + on_ends) {
        pages(1, count)
    } else {
        let head = if current > on_each_side + on_ends + 2 {
            pages(1, on_ends) + seq![None] + pages(current - on_each_side, current)
        } else {
            pages(1, current)
        };
        let tail = if current < count - on_each_side - on_ends - 1 {
            pages(current + 1, current + on_each_side) + seq![None] + pages(
                count - on_ends + 1,
                count,
            )
        } else {
            pages(current + 1, count)
        };
        head + tail
    }
}

/// Every numeric entry of `w` lies between `lo` and `hi`.
pub open spec fn entries_between(w: Seq<Option<u32>>, lo: int, hi: int) -> bool {
    forall|k: int| 0 <= k < w.len() && w[k] is Some ==> lo <= w[k]->0 <= hi
}

/// The numeric entries of `w` strictly increase.
pub open spec fn entries_increasing(w: Seq<Option<u32>>) -> bool {
    forall|a: int, b: int|
        0 <= a < b < w.len() && w[a] is Some && w[b] is Some ==> w[a]->0 < w[b]->0
}

/// Gap markers appear in `w` at no index besides `g1` and `g2`.
pub open spec fn gaps_only_at(w: Seq<Option<u32>>, g1: int, g2: int) -> bool {
    forall|k: int| 0 <= k < w.len() && #[trigger] w[k] is None ==> k == g1 || k == g2
}

/// At most two entries of `w` are gap markers.
pub open spec fn at_most_two_gaps(w: Seq<Option<u32>>) -> bool {
    exists|g1: int, g2: int| #[trigger] gaps_only_at(w, g1, g2)
}

/// Page `p` appears as a numeric entry of `w`.
pub open spec fn page_shown(w: Seq<Option<u32>>, p: int) -> bool {
    exists|k: int| 0 <= k < w.len() && w[k] == Some(p as u32)
}

proof fn lemma_pages_shape(lo: int, hi: int)
    requires
        1 <= lo,
        hi <= u32::MAX,
    ensures
        entries_increasing(pages(lo, hi)),
        entries_between(pages(lo, hi), lo, hi),
{
}

proof fn lemma_concat_increasing(x: Seq<Option<u32>>, y: Seq<Option<u32>>, m: int)
    requires
        entries_increasing(x),
        entries_increasing(y),
        forall|k: int| 0 <= k < x.len() && x[k] is Some ==> x[k]->0 <= m,
        forall|k: int| 0 <= k < y.len() && y[k] is Some ==> m < y[k]->0,
    ensures
        entries_increasing(x + y),
{
    let w = x + y;
    assert forall|a: int, b: int|
        0 <= a < b < w.len() && w[a] is Some && w[b] is Some implies w[a]->0 < w[b]->0 by {
        if b < x.len() {
            assert(w[a] == x[a] && w[b] == x[b]);
        } else if a >= x.len() {
            assert(w[a] == y[a - x.len()] && w[b] == y[b - x.len()]);
        } else {
            assert(w[a] == x[a] && w[b] == y[b - x.len()]);
        }
    }
}

/// Append the entries `Some(lo), ..., Some(hi)`.
fn push_range(v: &mut Vec<Option<u32>>, lo: u64, hi: u64)
    requires
        1 <= lo,
        hi <= u32::MAX,
    ensures
        final(v)@ == old(v)@ + pages(lo as int, hi as int),
{
    let mut k = lo;
    while k <= hi
        invariant
            1 <= lo,
            hi <= u32::MAX,
            lo <= k,
            k <= hi + 1 || k == lo,
            v@ == old(v)@ + pages(lo as int, k - 1),
        decreases hi + 1 - k,
    {
        v.push(Some(k as u32));
        proof {
            assert(old(v)@ + pages(lo as int, k - 1 as int) =~= v@.drop_last());
            assert(pages(lo as int, k - 1).push(Some(k as u32)) =~= pages(lo as int, k as int));
            assert(v@ =~= old(v)@ + pages(lo as int, k as int));
        }
        k += 1;
    }
    proof {
        assert(v@ =~= old(v)@ + pages(lo as int, hi as int));
    }
}

/// Build the page window for `count` pages with `current` the 1-based
/// current page.
pub fn pager(count: u32, current: u32, on_each_side: u32, on_ends: u32) -> (r: Vec<Option<u32>>)
    ensures
        r@ == spec_pager(count as int, current as int, on_each_side as int, on_ends as int),
{
    let count64 = count as u64;
    let cur64 = current as u64;
    let s64 = on_each_side as u64;
    let e64 = on_ends as u64;
    let mut result: Vec<Option<u32>> = Vec::new();
    if count64 <= 2 * (s64 + e64) {
        push_range(&mut result, 1, count64);
        return result;
    }
    if cur64 > s64 + e64 + 2 {
        push_range(&mut result, 1, e64);
        result.push(None);
        push_range(&mut result, cur64 - s64, cur64);
    } else {
        push_range(&mut result, 1, cur64);
    }
    if cur64 < count64 - s64 - e64 - 1 {
        push_range(&mut result, cur64 + 1, cur64 + s64);
        result.push(None);
        push_range(&mut result, count64 - e64 + 1, count64);
    } else {
        push_range(&mut result, cur64 + 1, count64);
    }
    proof {
        assert(result@ =~= spec_pager(
            count as int,
            current as int,
            on_each_side as int,
            on_ends as int,
        ));
    }
    result
}

proof fn lemma_concat_between(x: Seq<Option<u32>>, y: Seq<Option<u32>>, lo: int, hi: int)
    requires
        entries_between(x, lo, hi),
        entries_between(y, lo, hi),
    ensures
        entries_between(x + y, lo, hi),
{
    let w = x + y;
    assert forall|k: int| 0 <= k < w.len() && w[k] is Some implies lo <= w[k]->0 <= hi by {
        if k < x.len() {
            assert(w[k] == x[k]);
        } else {
            assert(w[k] == y[k - x.len()]);
        }
    }
}

proof fn lemma_between_weaken(w: Seq<Option<u32>>, lo: int, hi: int, lo2: int, hi2: int)
    requires
        entries_between(w, lo, hi),
        lo2 <= lo,
        hi <= hi2,
    ensures
        entries_between(w, lo2, hi2),
{
}

/// When every page fits beside the pinned ends and the current page's
/// neighbourhood, the window is the full contiguous run `1..=count`, with no
/// gap marker.
pub proof fn lemma_pager_contiguous(count: int, current: int, on_each_side: int, on_ends: int)
    requires
        0 <= count,
        count <= 2 * (on_each_side + on_ends),
    ensures
        spec_pager(count, current, on_each_side, on_ends).len() == count,
        forall|k: int|
            0 <= k < count ==> spec_pager(count, current, on_each_side, on_ends)[k] == Some(
                (k + 1) as u32,
            ),
        forall|k: int|
            0 <= k < count ==> spec_pager(count, current, on_each_side, on_ends)[k] is Some,
{
}

/// The shape of every window: numeric entries strictly increase, at most two
/// entries are gap markers, and the first page, the last page and the current
/// page all appear — whenever there is at least one page, the current page is
/// in range, and at least one page is pinned at each end.
#[verifier::rlimit(50)]
pub proof fn lemma_pager_window_invariant(
    count: int,
    current: int,
    on_each_side: int,
    on_ends: int,
)
    requires
        1 <= count <= u32::MAX,
        1 <= current <= count,
        1 <= on_ends,
        0 <= on_each_side,
    ensures
        ({
            let w = spec_pager(count, current, on_each_side, on_ends);
            &&& w.len() >= 1
            &&& entries_increasing(w)
            &&& at_most_two_gaps(w)
            &&& w[0] == Some(1u32)
            &&& w[w.len() - 1] == Some(count as u32)
            &&& page_shown(w, current)
        }),
{
    let n = count;
    let c = current;
    let s = on_each_side;
    let e = on_ends;
    let w = spec_pager(n, c, s, e);
    if n <= 2 * (s + e) {
        lemma_pages_shape(1, n);
        assert(w[c - 1] == Some(c as u32));
        assert(page_shown(w, c));
        assert forall|k: int| 0 <= k < w.len() && #[trigger] w[k] is None implies k == -1 || k
            == -1 by {
            assert(w[k] == Some((1 + k) as u32));
        }
        assert(gaps_only_at(w, -1, -1));
        assert(at_most_two_gaps(w));
    } else {
        let head = if c > s + e + 2 {
            pages(1, e) + seq![None] + pages(c - s, c)
        } else {
            pages(1, c)
        };
        let tail = if c < n - s - e - 1 {
            pages(c + 1, c + s) + seq![None] + pages(n - e + 1, n)
        } else {
            pages(c + 1, n)
        };
        assert(w == head + tail);
        // The head: increasing, bounded by the current page, gap only at one
        // known index, first entry page 1, last entry the current page.
        let hgap: int = if c > s + e + 2 {
            e
        } else {
            -1
        };
        if c > s + e + 2 {
            lemma_pages_shape(1, e);
            lemma_pages_shape(c - s, c);
            lemma_concat_increasing(pages(1, e), seq![None], e);
            lemma_concat_between(pages(1, e), seq![None], 1, e);
            lemma_concat_increasing(pages(1, e) + seq![None], pages(c - s, c), e);
            lemma_between_weaken(pages(1, e) + seq![None], 1, e, 1, c);
            lemma_between_weaken(pages(c - s, c), c - s, c, 1, c);
            lemma_concat_between(pages(1, e) + seq![None], pages(c - s, c), 1, c);
            assert(head.len() == e + s + 2);
            assert(head[0] == (pages(1, e) + seq![None])[0]);
            assert(head[0] == Some(1u32));
            assert(head[e + s + 1] == pages(c - s, c)[s]);
            assert(head[e + s + 1] == Some(c as u32));
            assert forall|k: int| 0 <= k < head.len() && #[trigger] head[k] is None implies k == hgap by {
                if k < e {
                    assert(head[k] == pages(1, e)[k]);
                } else if k > e {
                    assert(head[k] == pages(c - s, c)[k - e - 1]);
                }
            }
        } else {
            lemma_pages_shape(1, c);
            assert(head.len() == c);
            assert(head[c - 1] == Some(c as u32));
            assert forall|k: int| 0 <= k < head.len() && #[trigger] head[k] is None implies k == hgap by {
                assert(head[k] == Some((1 + k) as u32));
            }
        }
        assert(head.len() >= 1);
        assert(entries_increasing(head));
        assert(entries_between(head, 1, c));
        assert(head[0] == Some(1u32));
        assert(head[head.len() - 1] == Some(c as u32));
        // The tail: increasing, entries above the current page, gap only at
        // one known index, last entry the final page when the tail is
        // nonempty.
        let tgap: int = if c < n - s - e - 1 {
            head.len() + s
        } else {
            -1
        };
        if c < n - s - e - 1 {
            lemma_pages_shape(c + 1, c + s);
            lemma_pages_shape(n - e + 1, n);
            lemma_concat_increasing(pages(c + 1, c + s), seq![None], c + s);
            lemma_concat_between(pages(c + 1, c + s), seq![None], c + 1, c + s);
            lemma_concat_increasing(pages(c + 1, c + s) + seq![None], pages(n - e + 1, n), c + s);
            lemma_between_weaken(pages(c + 1, c + s) + seq![None], c + 1, c + s, c + 1, n);
            lemma_between_weaken(pages(n - e + 1, n), n - e + 1, n, c + 1, n);
            lemma_concat_between(pages(c + 1, c + s) + seq![None], pages(n - e + 1, n), c + 1, n);
            assert(tail.len() == s + 1 + e);
            assert(tail[tail.len() - 1] == pages(n - e + 1, n)[e - 1]);
            assert(tail[tail.len() - 1] == Some(n as u32));
            assert forall|k: int| 0 <= k < tail.len() && #[trigger] tail[k] is None implies head.len() + k
                == tgap by {
                if k < s {
                    assert(tail[k] == pages(c + 1, c + s)[k]);
                } else if k > s {
                    assert(tail[k] == pages(n - e + 1, n)[k - s - 1]);
                }
            }
        } else {
            lemma_pages_shape(c + 1, n);
            assert(tail.len() == n - c);
            if c < n {
                assert(tail[tail.len() - 1] == Some(n as u32));
            }
            assert forall|k: int| 0 <= k < tail.len() && #[trigger] tail[k] is None implies head.len() + k
                == tgap by {
                assert(tail[k] == Some((c + 1 + k) as u32));
            }
        }
        assert(entries_increasing(tail));
        assert(entries_between(tail, c + 1, n));
        // Assemble the window.
        lemma_concat_increasing(head, tail, c);
        assert(w[0] == head[0]);
        if tail.len() > 0 {
            assert(w[w.len() - 1] == tail[tail.len() - 1]);
            assert(c < n ==> w[w.len() - 1] == Some(n as u32));
            assert(c == n ==> tail.len() == 0);
        } else {
            assert(w[w.len() - 1] == head[head.len() - 1]);
            assert(c == n);
        }
        assert(w[w.len() - 1] == Some(n as u32));
        assert(w[head.len() - 1] == head[head.len() - 1]);
        assert(page_shown(w, c));
        assert forall|k: int| 0 <= k < w.len() && #[trigger] w[k] is None implies k == hgap || k
            == tgap by {
            if k < head.len() {
                assert(w[k] == head[k]);
            } else {
                assert(w[k] == tail[k - head.len()]);
            }
        }
        assert(gaps_only_at(w, hgap, tgap));
        assert(at_most_two_gaps(w));
    }
}

} // verus!
