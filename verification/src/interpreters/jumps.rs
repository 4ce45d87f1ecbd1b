//! Jump tables: each `[` of a program paired with the `]` that closes it,
//! and the lookups that a loop instruction makes in such a table.
use vstd::prelude::*;
use crate::interpreters::objects::opens_before;

verus! {

/// The table and the stack of still open entries after scanning the first
/// `n` characters: a `[` at index `m` adds the entry `(m, s.len())` and
/// opens it, and a `]` closes the entry opened last, writing its index as
/// the entry's end. A `]` with nothing open is passed over.
pub open spec fn scan(s: Seq<char>, n: int) -> (Seq<(usize, usize)>, Seq<usize>)
    decreases n,
{
    if n <= 0 {
        (Seq::empty(), Seq::empty())
    } else {
        let (t, open) = scan(s, n - 1);
        if s[n - 1] == '[' {
            (t.push(((n - 1) as usize, s.len() as usize)), open.push(t.len() as usize))
        } else if s[n - 1] == ']' && open.len() > 0 {
            let k = open.last() as int;
            (t.update(k, (t[k].0, (n - 1) as usize)), open.drop_last())
        } else {
            (t, open)
        }
    }
}

/// The jump table of a program: one entry for each `[`, in order, holding
/// its index and the index of the `]` that closes it. A `[` that no `]`
/// closes gets the length of the program as its end, so that skipping its
/// loop ends the run; an end left at 0 would send the run back to the
/// start of the program instead.
pub open spec fn pair_table(s: Seq<char>) -> Seq<(usize, usize)> {
    scan(s, s.len() as int).0
}

/// The first entry at or after `k` that starts at `p` (the table's length
/// when there is none).
pub open spec fn opening_from(t: Seq<(usize, usize)>, p: usize, k: int) -> int
    decreases t.len() - k,
{
    if k >= t.len() {
        t.len() as int
    } else if t[k].0 == p {
        k
    } else {
        opening_from(t, p, k + 1)
    }
}

/// The first entry at or after `k` that ends at `p` (the table's length
/// when there is none).
pub open spec fn closing_from(t: Seq<(usize, usize)>, p: usize, k: int) -> int
    decreases t.len() - k,
{
    if k >= t.len() {
        t.len() as int
    } else if t[k].1 == p {
        k
    } else {
        closing_from(t, p, k + 1)
    }
}

/// The entry of the loop whose `[` is at `p`.
pub open spec fn opening(t: Seq<(usize, usize)>, p: usize) -> int {
    opening_from(t, p, 0)
}

/// The entry of the loop whose `]` is at `p`.
pub open spec fn closing(t: Seq<(usize, usize)>, p: usize) -> int {
    closing_from(t, p, 0)
}

/// The entry of the loop that a `]` at `p` ends, `depth` loops deep: the
/// entry whose `]` is at `p`; when no entry ends there (a loop ended away
/// from its `]`), the entry of the loop entered at that depth, `depth - 1`.
pub open spec fn ending_entry(t: Seq<(usize, usize)>, p: usize, depth: usize) -> int {
    if closing(t, p) < t.len() {
        closing(t, p)
    } else {
        depth - 1
    }
}

/// Whether [`ending_entry`] names an entry of the table whose `[` is not
/// the first character, so that going back to just before it is possible.
pub open spec fn ending_ok(t: Seq<(usize, usize)>, p: usize, depth: usize) -> bool {
    &&& 0 <= ending_entry(t, p, depth) < t.len()
    &&& t[ending_entry(t, p, depth)].0 >= 1
}

proof fn lemma_opening_from_bounds(t: Seq<(usize, usize)>, p: usize, k: int)
    requires
        0 <= k <= t.len(),
    ensures
        k <= opening_from(t, p, k) <= t.len(),
        opening_from(t, p, k) < t.len() ==> t[opening_from(t, p, k)].0 == p,
        forall|j: int| k <= j < opening_from(t, p, k) ==> t[j].0 != p,
    decreases t.len() - k,
{
    if k < t.len() && t[k].0 != p {
        lemma_opening_from_bounds(t, p, k + 1);
    }
}

proof fn lemma_closing_from_bounds(t: Seq<(usize, usize)>, p: usize, k: int)
    requires
        0 <= k <= t.len(),
    ensures
        k <= closing_from(t, p, k) <= t.len(),
        closing_from(t, p, k) < t.len() ==> t[closing_from(t, p, k)].1 == p,
        forall|j: int| k <= j < closing_from(t, p, k) ==> t[j].1 != p,
    decreases t.len() - k,
{
    if k < t.len() && t[k].1 != p {
        lemma_closing_from_bounds(t, p, k + 1);
    }
}

/// Finds the entry of the loop whose `[` is at `p` (the table's length when
/// there is none).
pub fn find_opening(t: &Vec<(usize, usize)>, p: usize) -> (k: usize)
    ensures
        k == opening(t@, p),
        k <= t@.len(),
{
    let mut k: usize = 0;
    while k < t.len()
        invariant
            k <= t@.len(),
            opening_from(t@, p, k as int) == opening(t@, p),
        decreases t@.len() - k,
    {
        if t[k].0 == p {
            return k;
        }
        k = k + 1;
    }
    k
}

/// Finds the entry of the loop that a `]` at `p` ends, `depth` loops deep
/// (see [`ending_entry`]); `None` when there is no such entry, or its `[`
/// is the first character.
pub fn find_ending(t: &Vec<(usize, usize)>, p: usize, depth: usize) -> (k: Option<usize>)
    ensures
        k matches Some(i) ==> ending_ok(t@, p, depth) && i == ending_entry(t@, p, depth),
        k is None ==> !ending_ok(t@, p, depth),
{
    proof {
        lemma_closing_from_bounds(t@, p, 0);
    }
    let c = find_closing(t, p);
    let k = if c < t.len() {
        c
    } else if depth >= 1 {
        depth - 1
    } else {
        return None;
    };
    if k < t.len() && t[k].0 >= 1 {
        Some(k)
    } else {
        None
    }
}

/// Finds the entry of the loop whose `]` is at `p` (the table's length when
/// there is none).
pub fn find_closing(t: &Vec<(usize, usize)>, p: usize) -> (k: usize)
    ensures
        k == closing(t@, p),
        k <= t@.len(),
{
    let mut k: usize = 0;
    while k < t.len()
        invariant
            k <= t@.len(),
            closing_from(t@, p, k as int) == closing(t@, p),
        decreases t@.len() - k,
    {
        if t[k].1 == p {
            return k;
        }
        k = k + 1;
    }
    k
}

/// The scan never holds more entries than characters read, and every open
/// entry is in the table.
proof fn lemma_scan_bounds(s: Seq<char>, n: int)
    requires
        0 <= n <= s.len(),
    ensures
        scan(s, n).0.len() <= n,
        forall|j: int| 0 <= j < scan(s, n).1.len() ==> #[trigger] scan(s, n).1[j] < scan(s, n).0.len(),
    decreases n,
{
    if n > 0 {
        lemma_scan_bounds(s, n - 1);
    }
}

/// Builds the jump table of a program's characters.
pub fn pair_table_of(chars: &Vec<char>) -> (t: Vec<(usize, usize)>)
    requires
        chars@.len() < usize::MAX,
    ensures
        t@ == pair_table(chars@),
{
    let ghost s = chars@;
    let len = chars.len();
    let mut table: Vec<(usize, usize)> = Vec::new();
    let mut open: Vec<usize> = Vec::new();
    let mut num: usize = 0;
    while num < len
        invariant
            s == chars@,
            len == s.len(),
            len < usize::MAX,
            num <= len,
            table@ == scan(s, num as int).0,
            open@ == scan(s, num as int).1,
        decreases len - num,
    {
        proof {
            lemma_scan_bounds(s, num as int);
        }
        let c = chars[num];
        if c == '[' {
            let k = table.len();
            table.push((num, len));
            open.push(k);
        } else if c == ']' && open.len() > 0 {
            let k = open[open.len() - 1];
            assert(open@[open@.len() - 1] < table@.len());
            let start = table[k].0;
            table.set(k, (start, num));
            open.pop();
        }
        num = num + 1;
    }
    table
}

/// The change in loop depth that a character makes.
pub open spec fn bracket_step(c: char) -> int {
    if c == '[' {
        1
    } else if c == ']' {
        -1
    } else {
        0
    }
}

/// Loops opened minus loops closed by the characters from `i` up to `j`.
pub open spec fn bal(s: Seq<char>, i: int, j: int) -> int
    decreases j - i,
{
    if j <= i {
        0
    } else {
        bal(s, i, j - 1) + bracket_step(s[j - 1])
    }
}

/// The `]` at `q` closes the `[` at `p`: counting from the `[`, the depth
/// stays above zero up to `q` and drops to zero at `q`.
pub open spec fn closes_at(s: Seq<char>, p: int, q: int) -> bool {
    &&& 0 <= p < q < s.len()
    &&& s[p] == '['
    &&& s[q] == ']'
    &&& bal(s, p, q + 1) == 0
    &&& forall|j: int| p < j <= q ==> #[trigger] bal(s, p, j) >= 1
}

/// The `[` at `p` is never closed: counting from it, the depth stays above
/// zero up to the end.
pub open spec fn never_closed(s: Seq<char>, p: int) -> bool {
    &&& 0 <= p < s.len()
    &&& s[p] == '['
    &&& forall|j: int| p < j <= s.len() ==> #[trigger] bal(s, p, j) >= 1
}

/// Balances over adjacent ranges add up.
proof fn lemma_bal_split(s: Seq<char>, i: int, j: int, k: int)
    requires
        i <= j <= k,
    ensures
        bal(s, i, k) == bal(s, i, j) + bal(s, j, k),
    decreases k - j,
{
    if k > j {
        lemma_bal_split(s, i, j, k - 1);
    }
}

/// A `[` is closed by at most one `]`.
pub proof fn lemma_close_unique(s: Seq<char>, p: int, q1: int, q2: int)
    requires
        closes_at(s, p, q1),
        closes_at(s, p, q2),
    ensures
        q1 == q2,
{
    if q1 < q2 {
        assert(bal(s, p, q1 + 1) >= 1);
    } else if q2 < q1 {
        assert(bal(s, p, q2 + 1) >= 1);
    }
}

/// A `]` closes at most one `[`.
pub proof fn lemma_open_unique(s: Seq<char>, p1: int, p2: int, q: int)
    requires
        closes_at(s, p1, q),
        closes_at(s, p2, q),
    ensures
        p1 == p2,
{
    if p1 < p2 {
        lemma_bal_split(s, p1, p2, q + 1);
        assert(bal(s, p1, p2) >= 1);
    } else if p2 < p1 {
        lemma_bal_split(s, p2, p1, q + 1);
        assert(bal(s, p2, p1) >= 1);
    }
}

/// What the scan of the first `n` characters keeps: each entry starts at a
/// `[`, in order, and either is open (its end is the length, its `[` not
/// yet closed, and its place on the stack says how deep it is) or holds the
/// `]` that closes it; every `[` read so far has an entry.
spec fn scan_inv(s: Seq<char>, n: int) -> bool {
    let (t, open) = scan(s, n);
    &&& t.len() == opens_before(s, n)
    &&& forall|k: int| 0 <= k < t.len() ==> opens_before(s, #[trigger] t[k].0 as int) == k
    &&& forall|k: int|
        0 <= k < t.len() ==> {
            &&& 0 <= #[trigger] t[k].0 < n
            &&& s[t[k].0 as int] == '['
            &&& t[k].1 == s.len() || (t[k].1 < n && closes_at(s, t[k].0 as int, t[k].1 as int))
        }
    &&& forall|k1: int, k2: int| 0 <= k1 < k2 < t.len() ==> #[trigger] t[k1].0 < #[trigger] t[k2].0
    &&& forall|p: int| 0 <= p < n && s[p] == '[' ==> exists|k: int| 0 <= k < t.len() && #[trigger] t[k].0 == p
    &&& forall|j: int| 0 <= j < open.len() ==> {
        &&& 0 <= #[trigger] open[j] < t.len()
        &&& t[open[j] as int].1 == s.len()
        &&& bal(s, t[open[j] as int].0 as int, n) == open.len() - j
        &&& forall|i: int| t[open[j] as int].0 < i <= n ==> #[trigger] bal(s, t[open[j] as int].0 as int, i) >= 1
    }
    &&& forall|j1: int, j2: int| 0 <= j1 < j2 < open.len() ==> #[trigger] open[j1] < #[trigger] open[j2]
    &&& forall|k: int| 0 <= k < t.len() && t[k].1 == s.len() ==> exists|j: int| 0 <= j < open.len() && #[trigger] open[j] == k
}

#[verifier::spinoff_prover]
#[verifier::rlimit(40)]
proof fn lemma_scan_inv(s: Seq<char>, n: int)
    requires
        0 <= n <= s.len(),
        s.len() < usize::MAX,
    ensures
        scan_inv(s, n),
    decreases n,
{
    if n > 0 {
        lemma_scan_inv(s, n - 1);
        lemma_scan_bounds(s, n - 1);
        let (t, open) = scan(s, n - 1);
        let (t2, open2) = scan(s, n);
        let c = s[n - 1];
        if c == '[' {
            assert(t2 == t.push(((n - 1) as usize, s.len() as usize)));
            assert(open2 == open.push(t.len() as usize));
            assert(t2.len() == opens_before(s, n));
            assert forall|k: int| 0 <= k < t2.len() implies opens_before(s, #[trigger] t2[k].0 as int) == k by {
                if k < t.len() {
                    assert(t2[k] == t[k]);
                }
            }
            assert forall|k: int| 0 <= k < t2.len() && t2[k].1 == s.len() implies exists|j: int|
                0 <= j < open2.len() && #[trigger] open2[j] == k by {
                if k == t.len() {
                    assert(open2[open.len() as int] == t.len());
                } else {
                    let j = choose|j: int| 0 <= j < open.len() && #[trigger] open[j] == k;
                    assert(open2[j] == k);
                }
            }
            assert forall|p: int| 0 <= p < n && s[p] == '[' implies exists|k: int|
                0 <= k < t2.len() && #[trigger] t2[k].0 == p by {
                if p == n - 1 {
                    assert(t2[t.len() as int].0 == p);
                } else {
                    let k = choose|k: int| 0 <= k < t.len() && #[trigger] t[k].0 == p;
                    assert(t2[k].0 == p);
                }
            }
            assert forall|j: int| 0 <= j < open2.len() implies {
                &&& 0 <= #[trigger] open2[j] < t2.len()
                &&& t2[open2[j] as int].1 == s.len()
                &&& bal(s, t2[open2[j] as int].0 as int, n) == open2.len() - j
                &&& forall|i: int| t2[open2[j] as int].0 < i <= n ==> #[trigger] bal(s, t2[open2[j] as int].0 as int, i) >= 1
            } by {
                if j < open.len() {
                    assert(0 <= open[j] < t.len());
                    assert(open2[j] == open[j]);
                    let p = t[open[j] as int].0 as int;
                    assert(t2[open2[j] as int] == t[open[j] as int]);
                    assert(bal(s, p, n - 1) == open.len() - j);
                    assert(bal(s, p, n) == open2.len() - j);
                    assert forall|i: int| p < i <= n implies #[trigger] bal(s, p, i) >= 1 by {
                        if i < n {
                            assert(bal(s, t[open[j] as int].0 as int, i) >= 1);
                        }
                    }
                } else {
                    assert(open2[j] == t.len());
                    assert(t2[t.len() as int] == ((n - 1) as usize, s.len() as usize));
                    assert(bal(s, n - 1, n - 1) == 0);
                    assert(bal(s, n - 1, n) == 1);
                    assert forall|i: int| n - 1 < i <= n implies #[trigger] bal(s, n - 1, i) >= 1 by {
                        assert(i == n);
                    }
                }
            }
        } else if c == ']' && open.len() > 0 {
            let top = open.last() as int;
            let p0 = t[top].0 as int;
            assert(open[open.len() - 1] == top);
            assert(bal(s, p0, n - 1) == 1);
            assert(closes_at(s, p0, n - 1));
            assert(t2 == t.update(top, (t[top].0, (n - 1) as usize)));
            assert(open2 == open.drop_last());
            assert(t2.len() == opens_before(s, n));
            assert forall|k: int| 0 <= k < t2.len() implies opens_before(s, #[trigger] t2[k].0 as int) == k by {
                assert(t2[k].0 == t[k].0);
            }
            assert forall|k: int| 0 <= k < t2.len() && t2[k].1 == s.len() implies exists|j: int|
                0 <= j < open2.len() && #[trigger] open2[j] == k by {
                let j = choose|j: int| 0 <= j < open.len() && #[trigger] open[j] == k;
                if j == open.len() - 1 {
                    assert(k == top);
                }
                assert(open2[j] == k);
            }
            assert forall|p: int| 0 <= p < n && s[p] == '[' implies exists|k: int|
                0 <= k < t2.len() && #[trigger] t2[k].0 == p by {
                let k = choose|k: int| 0 <= k < t.len() && #[trigger] t[k].0 == p;
                assert(t2[k].0 == p);
            }
            assert forall|j: int| 0 <= j < open2.len() implies {
                &&& 0 <= #[trigger] open2[j] < t2.len()
                &&& t2[open2[j] as int].1 == s.len()
                &&& bal(s, t2[open2[j] as int].0 as int, n) == open2.len() - j
                &&& forall|i: int| t2[open2[j] as int].0 < i <= n ==> #[trigger] bal(s, t2[open2[j] as int].0 as int, i) >= 1
            } by {
                assert(open[j] < open[open.len() - 1]);
                let p = t[open[j] as int].0 as int;
                assert(bal(s, p, n - 1) == open.len() - j);
            }
            assert forall|k: int| 0 <= k < t2.len() implies {
                &&& 0 <= #[trigger] t2[k].0 < n
                &&& s[t2[k].0 as int] == '['
                &&& t2[k].1 == s.len() || (t2[k].1 < n && closes_at(s, t2[k].0 as int, t2[k].1 as int))
            } by {
                if k != top {
                    assert(t2[k] == t[k]);
                }
            }
        } else {
            assert(t2 == t && open2 == open);
            assert(t2.len() == opens_before(s, n));
            assert forall|j: int| 0 <= j < open2.len() implies {
                &&& 0 <= #[trigger] open2[j] < t2.len()
                &&& t2[open2[j] as int].1 == s.len()
                &&& bal(s, t2[open2[j] as int].0 as int, n) == open2.len() - j
                &&& forall|i: int| t2[open2[j] as int].0 < i <= n ==> #[trigger] bal(s, t2[open2[j] as int].0 as int, i) >= 1
            } by {
                let p = t[open[j] as int].0 as int;
                assert(bal(s, p, n - 1) == open.len() - j);
            }
        }
    }
}

/// A program's jump table has one entry for each `[`, in the order of the
/// program: entry `k` starts at the `[` that has `k` others before it.
pub proof fn lemma_pair_table_order(s: Seq<char>)
    requires
        s.len() < usize::MAX,
    ensures
        pair_table(s).len() == opens_before(s, s.len() as int),
        forall|k: int|
            0 <= k < pair_table(s).len() ==> {
                &&& 0 <= #[trigger] pair_table(s)[k].0 < s.len()
                &&& s[pair_table(s)[k].0 as int] == '['
                &&& opens_before(s, pair_table(s)[k].0 as int) == k
            },
        forall|k1: int, k2: int|
            0 <= k1 < k2 < pair_table(s).len() ==> #[trigger] pair_table(s)[k1].0 < #[trigger] pair_table(
                s,
            )[k2].0,
{
    lemma_scan_inv(s, s.len() as int);
}

/// Each entry of a program's jump table pairs a `[` with the `]` that
/// closes it, or, when no `]` does, with the length of the program.
pub proof fn lemma_pair_table_entries(s: Seq<char>, k: int)
    requires
        s.len() < usize::MAX,
        0 <= k < pair_table(s).len(),
    ensures
        ({
            let e = pair_table(s)[k];
            ||| e.1 < s.len() && closes_at(s, e.0 as int, e.1 as int)
            ||| e.1 == s.len() && never_closed(s, e.0 as int)
        }),
{
    lemma_scan_inv(s, s.len() as int);
    let (t, open) = scan(s, s.len() as int);
    assert(0 <= t[k].0 < s.len());
    if t[k].1 == s.len() {
        let j = choose|j: int| 0 <= j < open.len() && #[trigger] open[j] == k;
        assert(0 <= open[j] < t.len());
        assert forall|i: int| t[k].0 < i <= s.len() implies #[trigger] bal(s, t[k].0 as int, i) >= 1 by {
            assert(bal(s, t[open[j] as int].0 as int, i) >= 1);
        }
    }
}

/// Every `[` of a program has its entry in the jump table: looking up its
/// position finds the entry that starts there.
pub proof fn lemma_pair_table_opening(s: Seq<char>, p: int)
    requires
        s.len() < usize::MAX,
        0 <= p < s.len(),
        s[p] == '[',
    ensures
        0 <= opening(pair_table(s), p as usize) < pair_table(s).len(),
        pair_table(s)[opening(pair_table(s), p as usize)].0 == p,
{
    lemma_scan_inv(s, s.len() as int);
    let t = pair_table(s);
    let k = choose|k: int| 0 <= k < t.len() && #[trigger] t[k].0 == p;
    lemma_opening_from_bounds(t, p as usize, 0);
    if opening(t, p as usize) == t.len() {
        assert(t[k].0 != p as usize);
    }
}

/// A `]` that closes a `[` finds, in the jump table, the entry of that `[`.
pub proof fn lemma_pair_table_closing(s: Seq<char>, p: int, q: int)
    requires
        s.len() < usize::MAX,
        closes_at(s, p, q),
    ensures
        0 <= closing(pair_table(s), q as usize) < pair_table(s).len(),
        pair_table(s)[closing(pair_table(s), q as usize)] == (p as usize, q as usize),
{
    let t = pair_table(s);
    lemma_pair_table_opening(s, p);
    let k = opening(t, p as usize);
    lemma_pair_table_entries(s, k);
    if t[k].1 == s.len() {
        assert(bal(s, p, q + 1) >= 1);
    } else {
        lemma_close_unique(s, p, t[k].1 as int, q);
    }
    lemma_closing_from_bounds(t, q as usize, 0);
    let c = closing(t, q as usize);
    if c == t.len() {
        assert(t[k].1 != q as usize);
    }
    lemma_pair_table_entries(s, c);
    lemma_open_unique(s, t[c].0 as int, p, q);
}

} // verus!
