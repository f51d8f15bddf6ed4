//! Batch-run summaries: the per-status counts, the slowest files and the unit
//! in which a file size is shown.
use vstd::prelude::*;
use crate::report::Status;

verus! {

/// How many rows of a batch run were clean, partial and failed.
#[derive(Clone, Copy, Debug, PartialEq, Eq, Structural)]
pub struct BatchTally {
    pub ok: u64,
    pub partial: u64,
    pub failed: u64,
}

/// The counts of clean, partial and failed rows among `rows`, where a row is
/// the status of a successful analysis or `None` for a failed one.
pub open spec fn tally_of(rows: Seq<Option<Status>>) -> (nat, nat, nat)
    decreases rows.len(),
{
    if rows.len() == 0 {
        (0, 0, 0)
    } else {
        let (o, p, f) = tally_of(rows.drop_last());
        match rows.last() {
            Some(Status::Clean) => (o + 1, p, f),
            Some(Status::Partial) => (o, p + 1, f),
            None => (o, p, f + 1),
        }
    }
}

/// A row of a successful analysis with a clean decode.
pub open spec fn clean_row() -> spec_fn(Option<Status>) -> bool {
    |r: Option<Status>| r == Some(Status::Clean)
}

/// A row of a successful analysis with a partial decode.
pub open spec fn partial_row() -> spec_fn(Option<Status>) -> bool {
    |r: Option<Status>| r == Some(Status::Partial)
}

/// A row of a file whose analysis failed.
pub open spec fn failed_row() -> spec_fn(Option<Status>) -> bool {
    |r: Option<Status>| r is None
}

/// The batch counts are the numbers of rows of each kind: clean rows, partial
/// rows and failed (`None`) rows, each row counted once.
pub proof fn lemma_tally_counts_rows(rows: Seq<Option<Status>>)
    ensures
        tally_of(rows).0 == rows.filter(clean_row()).len(),
        tally_of(rows).1 == rows.filter(partial_row()).len(),
        tally_of(rows).2 == rows.filter(failed_row()).len(),
        tally_of(rows).0 + tally_of(rows).1 + tally_of(rows).2 == rows.len(),
    decreases rows.len(),
{
    reveal_with_fuel(Seq::<Option<Status>>::filter, 1);
    if rows.len() > 0 {
        lemma_tally_counts_rows(rows.drop_last());
    }
}

/// Counts the clean, partial and failed rows of a batch run. Every row is
/// counted exactly once.
pub fn tally(rows: &Vec<Option<Status>>) -> (t: BatchTally)
    ensures
        (t.ok as nat, t.partial as nat, t.failed as nat) == tally_of(rows@),
        t.ok == rows@.filter(clean_row()).len(),
        t.partial == rows@.filter(partial_row()).len(),
        t.failed == rows@.filter(failed_row()).len(),
        t.ok + t.partial + t.failed == rows.len(),
{
    proof {
        lemma_tally_counts_rows(rows@);
    }
    let mut t = BatchTally { ok: 0, partial: 0, failed: 0 };
    let mut i: usize = 0;
    while i < rows.len()
        invariant
            i <= rows.len(),
            (t.ok as nat, t.partial as nat, t.failed as nat) == tally_of(rows@.take(i as int)),
            t.ok + t.partial + t.failed == i,
        decreases rows.len() - i,
    {
        assert(rows@.take(i + 1).drop_last() =~= rows@.take(i as int));
        match rows[i] {
            Some(Status::Clean) => t.ok = t.ok + 1,
            Some(Status::Partial) => t.partial = t.partial + 1,
            None => t.failed = t.failed + 1,
        }
        i = i + 1;
    }
    assert(rows@.take(rows.len() as int) =~= rows@);
    t
}

/// Row `a` comes before row `b` when listing the slowest first: it took longer,
/// or as long and it stands earlier.
pub open spec fn slower_first(elapsed: Seq<u128>, a: int, b: int) -> bool {
    elapsed[a] > elapsed[b] || (elapsed[a] == elapsed[b] && a < b)
}

/// The indices of the `k` slowest rows (all rows when there are fewer), slowest
/// first, ties in row order: the first `k` of a stable sort by elapsed time,
/// longest first.
pub fn slowest(elapsed: &Vec<u128>, k: usize) -> (r: Vec<usize>)
    ensures
        r.len() == if k < elapsed.len() { k } else { elapsed.len() },
        forall|i: int| 0 <= i < r.len() ==> #[trigger] r@[i] < elapsed.len(),
        forall|i: int, j: int|
            0 <= i < j < r.len() ==> slower_first(elapsed@, #[trigger] r@[i] as int, #[trigger] r@[j] as int),
        forall|x: int, i: int|
            0 <= x < elapsed.len() && !r@.contains(x as usize) && 0 <= i < r.len()
                ==> #[trigger] slower_first(elapsed@, r@[i] as int, x),
{
    let n = elapsed.len();
    let mut chosen: Vec<bool> = Vec::new();
    let mut c: usize = 0;
    while c < n
        invariant
            c <= n,
            n == elapsed.len(),
            chosen.len() == c,
            forall|x: int| 0 <= x < c ==> !#[trigger] chosen@[x],
        decreases n - c,
    {
        chosen.push(false);
        c = c + 1;
    }
    let mut r: Vec<usize> = Vec::new();
    while r.len() < k && r.len() < n
        invariant
            n == elapsed.len(),
            chosen.len() == n,
            r.len() <= n,
            r.len() <= k,
            forall|i: int| 0 <= i < r.len() ==> #[trigger] r@[i] < n,
            forall|x: int| 0 <= x < n ==> (#[trigger] chosen@[x] <==> r@.contains(x as usize)),
            forall|i: int, j: int|
                0 <= i < j < r.len() ==> slower_first(elapsed@, #[trigger] r@[i] as int, #[trigger] r@[j] as int),
            forall|x: int, i: int|
                0 <= x < n && !chosen@[x] && 0 <= i < r.len() ==> #[trigger] slower_first(
                    elapsed@,
                    r@[i] as int,
                    x,
                ),
        decreases n - r.len(),
    {
        proof {
            // Some row is still unchosen: r holds distinct indices below n.
            if forall|x: int| 0 <= x < n ==> chosen@[x] {
                assert forall|x: usize| (x as int) < n implies #[trigger] r@.contains(x) by {
                    assert(chosen@[x as int]);
                }
                lemma_distinct_indices_fill(r@, n as int);
            }
        }
        let mut best: usize = n;
        let mut j: usize = 0;
        while j < n
            invariant
                n == elapsed.len(),
                chosen.len() == n,
                j <= n,
                best == n || (best < j && !chosen@[best as int]),
                forall|y: int|
                    0 <= y < j && !chosen@[y] && y != best ==> slower_first(elapsed@, best as int, y),
                best == n ==> forall|y: int| 0 <= y < j ==> #[trigger] chosen@[y],
            decreases n - j,
        {
            if !chosen[j] {
                if best == n || elapsed[j] > elapsed[best] {
                    best = j;
                }
            }
            j = j + 1;
        }
        proof {
            if best == n {
                let x = choose|x: int| 0 <= x < n && !chosen@[x];
                assert(chosen@[x]);
            }
        }
        let ghost old_r = r@;
        r.push(best);
        chosen.set(best, true);
        proof {
            assert forall|x: int| 0 <= x < n implies (#[trigger] chosen@[x] <==> r@.contains(x as usize)) by {
                if x == best {
                    assert(r@[r@.len() - 1] == best);
                } else {
                    if r@.contains(x as usize) {
                        let i = choose|i: int| 0 <= i < r@.len() && r@[i] == x as usize;
                        assert(i < old_r.len());
                        assert(old_r.contains(x as usize));
                    }
                    if old_r.contains(x as usize) {
                        let i = choose|i: int| 0 <= i < old_r.len() && old_r[i] == x as usize;
                        assert(r@[i] == x as usize);
                    }
                }
            }
            assert forall|i: int, j2: int|
                0 <= i < j2 < r.len() implies slower_first(elapsed@, #[trigger] r@[i] as int, #[trigger] r@[j2] as int) by {
                if j2 == r.len() - 1 {
                    assert(r@[i] == old_r[i]);
                } else {
                    assert(r@[i] == old_r[i]);
                    assert(r@[j2] == old_r[j2]);
                }
            }
            assert forall|x: int, i: int|
                0 <= x < n && !chosen@[x] && 0 <= i < r.len() implies #[trigger] slower_first(
                    elapsed@,
                    r@[i] as int,
                    x,
                ) by {
                if i == r.len() - 1 {
                    assert(x != best);
                } else {
                    assert(r@[i] == old_r[i]);
                }
            }
        }
    }
    proof {
        assert forall|x: int, i: int|
            0 <= x < elapsed.len() && !r@.contains(x as usize) && 0 <= i < r.len() implies #[trigger] slower_first(
                elapsed@,
                r@[i] as int,
                x,
            ) by {
            assert(!chosen@[x]);
        }
    }
    r
}

/// A sequence of distinct indices below `n` that holds every index below `n`
/// has `n` elements at least.
proof fn lemma_distinct_indices_fill(r: Seq<usize>, n: int)
    requires
        0 <= n <= usize::MAX,
        forall|x: usize| (x as int) < n ==> #[trigger] r.contains(x),
    ensures
        r.len() >= n,
{
    let s = Set::new(|x: int| 0 <= x < n);
    let t = r.map_values(|u: usize| u as int).to_set();
    assert(s.subset_of(t)) by {
        assert forall|x: int| s.contains(x) implies t.contains(x) by {
            assert(r.contains(x as usize));
            let i = choose|i: int| 0 <= i < r.len() && r[i] == x as usize;
            assert(r.map_values(|u: usize| u as int)[i] == x);
        }
    }
    vstd::set_lib::lemma_int_range(0, n);
    assert(s =~= vstd::set_lib::set_int_range(0, n));
    r.map_values(|u: usize| u as int).lemma_cardinality_of_set();
    vstd::set_lib::lemma_len_subset(s, t);
}

/// `1024` to the power `k`.
pub open spec fn pow1024(k: nat) -> nat
    decreases k,
{
    if k == 0 {
        1
    } else {
        1024 * pow1024((k - 1) as nat)
    }
}

/// The unit in which a size of `n` bytes is shown: 0 for B, 1 for KB, 2 for MB,
/// 3 for GB, 4 for TB; the largest unit of which `n` holds at least one.
pub fn byte_unit(n: u64) -> (u: usize)
    ensures
        u <= 4,
        u > 0 ==> n >= pow1024(u as nat),
        u < 4 ==> n < pow1024((u + 1) as nat),
{
    let mut size = n;
    let mut unit: usize = 0;
    assert(pow1024(0) == 1);
    assert(n as nat / 1 == n as nat);
    while size >= 1024 && unit < 4
        invariant
            unit <= 4,
            size as nat == n as nat / pow1024(unit as nat),
            unit > 0 ==> n >= pow1024(unit as nat),
        decreases 4 - unit,
    {
        proof {
            let p = pow1024(unit as nat) as int;
            let ni = n as int;
            lemma_pow1024_positive(unit as nat);
            assert(pow1024((unit + 1) as nat) == 1024 * p);
            let q = ni / p;
            let rr = ni % p;
            assert(q >= 1024);
            vstd::arithmetic::div_mod::lemma_fundamental_div_mod(ni, p);
            assert(ni >= 1024 * p) by (nonlinear_arith)
                requires
                    q >= 1024,
                    ni == p * q + rr,
                    rr >= 0,
                    p >= 1,
            ;
            vstd::arithmetic::div_mod::lemma_div_denominator(ni, p, 1024);
        }
        size = size / 1024;
        unit = unit + 1;
    }
    proof {
        if unit < 4 {
            let p = pow1024(unit as nat) as int;
            let ni = n as int;
            lemma_pow1024_positive(unit as nat);
            assert(pow1024((unit + 1) as nat) == 1024 * p);
            let q = ni / p;
            let rr = ni % p;
            vstd::arithmetic::div_mod::lemma_fundamental_div_mod(ni, p);
            assert(ni < 1024 * p) by (nonlinear_arith)
                requires
                    q < 1024,
                    ni == p * q + rr,
                    rr < p,
                    p >= 1,
            ;
        }
    }
    unit
}

proof fn lemma_pow1024_positive(k: nat)
    ensures
        pow1024(k) >= 1,
    decreases k,
{
    if k > 0 {
        lemma_pow1024_positive((k - 1) as nat);
    }
}

/// The label of a size unit from [`byte_unit`].
pub fn byte_unit_label(u: usize) -> (s: &'static str)
    requires
        u <= 4,
    ensures
        s@ == seq!["B"@, "KB"@, "MB"@, "GB"@, "TB"@][u as int],
{
    if u == 0 {
        "B"
    } else if u == 1 {
        "KB"
    } else if u == 2 {
        "MB"
    } else if u == 3 {
        "GB"
    } else {
        "TB"
    }
}

} // verus!
