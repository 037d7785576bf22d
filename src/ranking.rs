use vstd::prelude::*;
use vstd::relations::injective_on;
use vstd::set_lib::*;

verus! {

/// One snippet of a lookup: the command it is for, its text and its popularity.
#[derive(Debug, PartialEq, Eq)]
pub struct LookupRecord {
    pub command: String,
    pub message: String,
    pub popularity: i32,
}

impl LookupRecord {
    /// A copy of the record.
    pub fn duplicate(&self) -> (r: LookupRecord)
        ensures
            r == *self,
    {
        LookupRecord {
            command: self.command.clone(),
            message: self.message.clone(),
            popularity: self.popularity,
        }
    }
}

/// The ranking policy: whether `a` ranks strictly before `b`. Lower popularity comes
/// first; to show the most popular snippets first, compare the other way here.
pub open spec fn ranks_before(a: LookupRecord, b: LookupRecord) -> bool {
    a.popularity < b.popularity
}

/// Executable form of the ranking policy.
fn comes_before(a: &LookupRecord, b: &LookupRecord) -> (r: bool)
    ensures
        r == ranks_before(*a, *b),
{
    a.popularity < b.popularity
}

/// Whether the record at `j` goes before the record at `i`: it ranks before it, or the
/// two tie and `j` came first.
pub open spec fn precedes(s: Seq<LookupRecord>, j: int, i: int) -> bool {
    ranks_before(s[j], s[i]) || (!ranks_before(s[i], s[j]) && j < i)
}

/// How many of the first `n` records go before the record at `i`.
pub open spec fn count_preceding(s: Seq<LookupRecord>, i: int, n: int) -> nat
    decreases n,
{
    if n <= 0 {
        0
    } else {
        count_preceding(s, i, n - 1) + if precedes(s, n - 1, i) {
            1nat
        } else {
            0nat
        }
    }
}

/// Where the record at `i` stands once ranked: after every record that goes before it.
pub open spec fn position(s: Seq<LookupRecord>, i: int) -> int {
    count_preceding(s, i, s.len() as int) as int
}

proof fn lemma_count_bound(s: Seq<LookupRecord>, i: int, n: int)
    requires
        0 <= i < s.len(),
        0 <= n <= s.len(),
    ensures
        count_preceding(s, i, n) <= if i < n {
            n - 1
        } else {
            n
        },
    decreases n,
{
    if n > 0 {
        lemma_count_bound(s, i, n - 1);
    }
}

proof fn lemma_count_monotone(s: Seq<LookupRecord>, a: int, b: int, n: int)
    requires
        0 <= a < s.len(),
        0 <= b < s.len(),
        0 <= n <= s.len(),
        precedes(s, a, b),
    ensures
        count_preceding(s, a, n) <= count_preceding(s, b, n),
        a < n ==> count_preceding(s, a, n) < count_preceding(s, b, n),
    decreases n,
{
    if n > 0 {
        lemma_count_monotone(s, a, b, n - 1);
    }
}

/// Ranking puts a record before every record that it ranks before under the policy, and
/// keeps the order of the input among records that tie; no two records share a
/// position, and every position lies within the result.
pub proof fn lemma_rank_is_stable(s: Seq<LookupRecord>, i: int, j: int)
    requires
        0 <= i < s.len(),
        0 <= j < s.len(),
    ensures
        0 <= position(s, i) < s.len(),
        ranks_before(s[i], s[j]) ==> position(s, i) < position(s, j),
        !ranks_before(s[i], s[j]) && !ranks_before(s[j], s[i]) && i < j ==> position(s, i)
            < position(s, j),
        i != j ==> position(s, i) != position(s, j),
{
    lemma_count_bound(s, i, s.len() as int);
    if precedes(s, i, j) {
        lemma_count_monotone(s, i, j, s.len() as int);
    }
    if precedes(s, j, i) {
        lemma_count_monotone(s, j, i, s.len() as int);
    }
}

/// Every position of the result is taken by some record.
proof fn lemma_positions_cover(s: Seq<LookupRecord>, k: int)
    requires
        0 <= k < s.len(),
    ensures
        exists|i: int| 0 <= i < s.len() && position(s, i) == k,
{
    let n = s.len() as int;
    let range = set_int_range(0, n);
    let f = |i: int| position(s, i);
    lemma_int_range(0, n);
    assert forall|a: int, b: int| range.contains(a) && range.contains(b) && #[trigger] f(a)
        == #[trigger] f(b) implies a == b by {
        lemma_rank_is_stable(s, a, b);
    }
    assert(injective_on(f, range));
    let taken = range.map(f);
    lemma_map_size(range, taken, f);
    assert forall|p: int| taken.contains(p) implies range.contains(p) by {
        let i = choose|i: int| range.contains(i) && f(i) == p;
        lemma_rank_is_stable(s, i, i);
    }
    lemma_subset_equality(taken, range);
    assert(range.contains(k));
    assert(taken.contains(k));
}

/// The records of `s` in ranked order: at each position, the record that goes there.
pub open spec fn ranked(s: Seq<LookupRecord>) -> Seq<LookupRecord> {
    Seq::new(s.len(), |k: int| s[choose|i: int| 0 <= i < s.len() && position(s, i) == k])
}

fn position_of(records: &Vec<LookupRecord>, i: usize) -> (p: usize)
    requires
        i < records@.len(),
    ensures
        p == position(records@, i as int),
{
    let ghost s = records@;
    let mut count: usize = 0;
    let mut j: usize = 0;
    while j < records.len()
        invariant
            s == records@,
            i < s.len(),
            j <= s.len(),
            count == count_preceding(s, i as int, j as int),
            count <= j,
        decreases records.len() - j,
    {
        if comes_before(&records[j], &records[i]) || (!comes_before(&records[i], &records[j])
            && j < i) {
            count += 1;
        }
        j += 1;
    }
    count
}

/// Orders lookup records for display: lowest popularity first, ties in the order in
/// which they came.
pub fn rank(records: &Vec<LookupRecord>) -> (r: Vec<LookupRecord>)
    ensures
        r@ == ranked(records@),
        forall|i: int| 0 <= i < records@.len() ==> r@[position(records@, i)] == records@[i],
{
    let n = records.len();
    let mut r: Vec<LookupRecord> = Vec::new();
    let mut k: usize = 0;
    while k < n
        invariant
            n == records@.len(),
            k <= n,
            r@.len() == k,
        decreases n - k,
    {
        r.push(records[k].duplicate());
        k += 1;
    }
    let mut i: usize = 0;
    while i < n
        invariant
            n == records@.len(),
            i <= n,
            r@.len() == n,
            forall|m: int| 0 <= m < i ==> r@[position(records@, m)] == records@[m],
        decreases n - i,
    {
        let p = position_of(records, i);
        let ghost before = r@;
        proof {
            lemma_rank_is_stable(records@, i as int, i as int);
        }
        r.set(p, records[i].duplicate());
        proof {
            assert forall|m: int| 0 <= m < i + 1 implies r@[position(records@, m)]
                == records@[m] by {
                lemma_rank_is_stable(records@, m, i as int);
                if m < i {
                    assert(before[position(records@, m)] == records@[m]);
                }
            }
        }
        i += 1;
    }
    proof {
        assert forall|k: int| 0 <= k < n implies r@[k] == ranked(records@)[k] by {
            lemma_positions_cover(records@, k);
        }
        assert(r@ =~= ranked(records@));
    }
    r
}

} // verus!
