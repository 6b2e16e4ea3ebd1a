//! Which inbox files to read, and which to delete.
//!
//! Hooks write one file per event into the inbox, named by a nanosecond
//! timestamp, so a name sort is a time sort. Reading and deleting the files
//! is the caller's business; this module only decides, from file names,
//! sizes and ages, which ones.

use vstd::prelude::*;

use crate::tracker::MAX_FILES_PER_POLL;

verus! {

/// `a` sorts before or equal to `b`, byte by byte (the order of file names).
pub open spec fn lex_le(a: Seq<u8>, b: Seq<u8>) -> bool
    decreases a.len(),
{
    if a.len() == 0 {
        true
    } else if b.len() == 0 {
        false
    } else if a[0] != b[0] {
        a[0] < b[0]
    } else {
        lex_le(a.drop_first(), b.drop_first())
    }
}

pub proof fn lemma_lex_total(a: Seq<u8>, b: Seq<u8>)
    ensures
        lex_le(a, b) || lex_le(b, a),
    decreases a.len(),
{
    if a.len() > 0 && b.len() > 0 && a[0] == b[0] {
        lemma_lex_total(a.drop_first(), b.drop_first());
    }
}

pub proof fn lemma_lex_trans(a: Seq<u8>, b: Seq<u8>, c: Seq<u8>)
    requires
        lex_le(a, b),
        lex_le(b, c),
    ensures
        lex_le(a, c),
    decreases a.len(),
{
    if a.len() > 0 && b.len() > 0 && c.len() > 0 && a[0] == b[0] && b[0] == c[0] {
        lemma_lex_trans(a.drop_first(), b.drop_first(), c.drop_first());
    }
}

/// A file name ends in `.<ext>` after a non-empty stem: what
/// `Path::extension` reports as `ext` for a bare file name.
pub open spec fn has_extension(name: Seq<u8>, ext: Seq<u8>) -> bool {
    &&& name.len() >= ext.len() + 2
    &&& name[name.len() - ext.len() - 1] == 0x2e
    &&& name.subrange(name.len() - ext.len(), name.len() as int) == ext
}

pub open spec fn json_ext() -> Seq<u8> {
    seq![0x6a, 0x73, 0x6f, 0x6e]
}

pub open spec fn tmp_ext() -> Seq<u8> {
    seq![0x74, 0x6d, 0x70]
}

/// The indices `idx` list their names in order.
pub open spec fn sorted_by_name(names: Seq<Vec<u8>>, idx: Seq<usize>) -> bool {
    &&& forall|k: int| 0 <= k < idx.len() ==> (#[trigger] idx[k]) < names.len()
    &&& forall|a: int, b: int|
        0 <= a < b < idx.len() ==> lex_le(names[idx[a] as int]@, names[idx[b] as int]@)
}

/// `r` holds the same indices as `s`, each once.
pub open spec fn same_indices(r: Seq<usize>, s: Seq<usize>) -> bool {
    &&& r.len() == s.len()
    &&& r.no_duplicates()
    &&& forall|x: usize| r.contains(x) <==> s.contains(x)
}

fn bytes_le(a: &Vec<u8>, b: &Vec<u8>) -> (r: bool)
    ensures
        r == lex_le(a@, b@),
{
    let mut i: usize = 0;
    assert(a@.skip(0) =~= a@);
    assert(b@.skip(0) =~= b@);
    while i < a.len() && i < b.len() && a[i] == b[i]
        invariant
            i <= a@.len(),
            i <= b@.len(),
            lex_le(a@, b@) == lex_le(a@.skip(i as int), b@.skip(i as int)),
        decreases a@.len() - i,
    {
        assert(a@.skip(i as int).drop_first() =~= a@.skip(i + 1));
        assert(b@.skip(i as int).drop_first() =~= b@.skip(i + 1));
        i += 1;
    }
    if i == a.len() {
        true
    } else if i == b.len() {
        false
    } else {
        a[i] < b[i]
    }
}

/// Does `name` end in `.` followed by `ext`?
fn ends_with_extension(name: &Vec<u8>, ext: &[u8]) -> (r: bool)
    ensures
        r == has_extension(name@, ext@),
{
    let n = name.len();
    let e = ext.len();
    if n < e || n - e < 2 {
        return false;
    }
    if name[n - e - 1] != 0x2e {
        return false;
    }
    let mut k: usize = 0;
    while k < e
        invariant
            k <= e,
            e == ext@.len(),
            n == name@.len(),
            n >= e + 2,
            forall|m: int| 0 <= m < k ==> name@[n - e + m] == ext@[m],
        decreases e - k,
    {
        if name[n - e + k] != ext[k] {
            assert(name@.subrange(n - e, n as int)[k as int] != ext@[k as int]);
            return false;
        }
        k += 1;
    }
    assert(name@.subrange(n - e, n as int) =~= ext@);
    true
}

/// Order the indices `subset` by the names they point at, keeping equal
/// names in the order they came.
pub fn sort_by_name(names: &Vec<Vec<u8>>, subset: &Vec<usize>) -> (r: Vec<usize>)
    requires
        subset@.no_duplicates(),
        forall|k: int| 0 <= k < subset@.len() ==> (#[trigger] subset@[k]) < names@.len(),
    ensures
        same_indices(r@, subset@),
        sorted_by_name(names@, r@),
{
    let mut r: Vec<usize> = Vec::new();
    let mut i: usize = 0;
    while i < subset.len()
        invariant
            i <= subset@.len(),
            subset@.no_duplicates(),
            forall|k: int| 0 <= k < subset@.len() ==> (#[trigger] subset@[k]) < names@.len(),
            same_indices(r@, subset@.take(i as int)),
            sorted_by_name(names@, r@),
        decreases subset@.len() - i,
    {
        let x = subset[i];
        let mut p: usize = 0;
        while p < r.len() && bytes_le(&names[r[p]], &names[x])
            invariant
                p <= r@.len(),
                x < names@.len(),
                sorted_by_name(names@, r@),
                forall|a: int| 0 <= a < p ==> lex_le(names@[(#[trigger] r@[a]) as int]@, names@[x as int]@),
            decreases r@.len() - p,
        {
            p += 1;
        }
        let ghost before = r@;
        r.insert(p, x);
        proof {
            let w = r@;
            assert(w == before.insert(p as int, x));
            assert(!before.contains(x)) by {
                if before.contains(x) {
                    let k = choose|k: int| 0 <= k < before.len() && before[k] == x;
                    assert(subset@.take(i as int).contains(x));
                    let j = choose|j: int| 0 <= j < i && subset@.take(i as int)[j] == x;
                    assert(subset@[j] == subset@[i as int]);
                }
            }
            assert(subset@.take(i + 1) =~= subset@.take(i as int).push(x));
            assert forall|y: usize| w.contains(y) <==> subset@.take(i + 1).contains(y) by {
                if w.contains(y) {
                    let k = choose|k: int| 0 <= k < w.len() && w[k] == y;
                    if k < p {
                        assert(before[k] == y);
                    } else if k > p {
                        assert(before[k - 1] == y);
                    }
                    if y != x {
                        assert(before.contains(y));
                        assert(subset@.take(i as int).contains(y));
                    }
                    assert(subset@.take(i + 1).last() == x);
                }
                if subset@.take(i + 1).contains(y) {
                    if y == x {
                        assert(w[p as int] == x);
                    } else {
                        let j = choose|j: int| 0 <= j < i + 1 && #[trigger] subset@.take(i + 1)[j] == y;
                        assert(subset@.take(i as int).contains(y)) by {
                            assert(subset@.take(i as int)[j] == y);
                        }
                        let k = choose|k: int| 0 <= k < before.len() && before[k] == y;
                        if k < p {
                            assert(w[k] == y);
                        } else {
                            assert(w[k + 1] == y);
                        }
                    }
                }
            }
            assert(w.no_duplicates()) by {
                assert forall|a: int, b: int| 0 <= a < w.len() && 0 <= b < w.len() && a != b implies w[a]
                    != w[b] by {
                    let a2 = if a < p { a } else { a - 1 };
                    let b2 = if b < p { b } else { b - 1 };
                    if a == p {
                        assert(before.contains(w[b]) || b == p);
                        if w[a] == w[b] {
                            assert(before[b2] == x);
                        }
                    } else if b == p {
                        if w[a] == w[b] {
                            assert(before[a2] == x);
                        }
                    } else {
                        assert(w[a] == before[a2]);
                        assert(w[b] == before[b2]);
                    }
                }
            }
            assert forall|a: int, b: int| 0 <= a < b < w.len() implies lex_le(
                names@[w[a] as int]@,
                names@[w[b] as int]@,
            ) by {
                let nx = names@[x as int]@;
                if b < p {
                    assert(w[a] == before[a] && w[b] == before[b]);
                } else if a > p {
                    assert(w[a] == before[a - 1] && w[b] == before[b - 1]);
                } else if a == p {
                    // b > p: before[p] is not <= x, so x <= before[p] <= before[b - 1].
                    let nb = names@[before[b - 1] as int]@;
                    let np = names@[before[p as int] as int]@;
                    lemma_lex_total(np, nx);
                    if b - 1 > p {
                        lemma_lex_trans(nx, np, nb);
                    }
                } else if b == p {
                    assert(w[a] == before[a]);
                } else {
                    // a < p < b
                    let na = names@[before[a] as int]@;
                    let nb = names@[before[b - 1] as int]@;
                    let np = names@[before[p as int] as int]@;
                    assert(w[a] == before[a] && w[b] == before[b - 1]);
                    assert(lex_le(na, np));
                    if b - 1 > p {
                        lemma_lex_trans(na, np, nb);
                    }
                }
            }
        }
        i += 1;
    }
    assert(subset@.take(subset@.len() as int) =~= subset@);
    r
}

/// The files a poll drains: the names ending in `.json`, in name order, at
/// most `MAX_FILES_PER_POLL` of them, and the earliest-named first.
pub open spec fn is_batch(names: Seq<Vec<u8>>, r: Seq<usize>) -> bool {
    let eligible = |i: usize| i < names.len() && has_extension(names[i as int]@, json_ext());
    let count = Set::new(|i: usize| eligible(i)).len();
    &&& sorted_by_name(names, r)
    &&& r.no_duplicates()
    &&& forall|k: int| 0 <= k < r.len() ==> eligible(#[trigger] r[k])
    &&& r.len() == if count <= MAX_FILES_PER_POLL { count } else { MAX_FILES_PER_POLL as nat }
    &&& forall|i: usize|
        eligible(i) && !r.contains(i) ==> r.len() > 0 && lex_le(names[r.last() as int]@, names[i as int]@)
}

/// The indices of the names ending in `ext`, in input order.
fn with_extension(names: &Vec<Vec<u8>>, ext: &[u8]) -> (r: Vec<usize>)
    ensures
        r@.no_duplicates(),
        forall|i: usize| r@.contains(i) <==> (i < names@.len() && has_extension(names@[i as int]@, ext@)),
{
    let mut r: Vec<usize> = Vec::new();
    let mut i: usize = 0;
    while i < names.len()
        invariant
            i <= names@.len(),
            forall|k: int| 0 <= k < r@.len() ==> (#[trigger] r@[k]) < i,
            r@.no_duplicates(),
            forall|j: usize| r@.contains(j) <==> (j < i && has_extension(names@[j as int]@, ext@)),
        decreases names@.len() - i,
    {
        if ends_with_extension(&names[i], ext) {
            let ghost before = r@;
            r.push(i);
            proof {
                assert forall|j: usize| r@.contains(j) <==> (j < i + 1 && has_extension(
                    names@[j as int]@,
                    ext@,
                )) by {
                    if j == i {
                        assert(r@[before.len() as int] == i);
                    }
                    if r@.contains(j) && j != i {
                        let k = choose|k: int| 0 <= k < r@.len() && r@[k] == j;
                        assert(before[k] == j);
                        assert(before.contains(j));
                    }
                    if j < i && has_extension(names@[j as int]@, ext@) {
                        assert(before.contains(j));
                        let k = choose|k: int| 0 <= k < before.len() && before[k] == j;
                        assert(r@[k] == j);
                    }
                }
            }
        } else {
            proof {
                assert forall|j: usize| r@.contains(j) <==> (j < i + 1 && has_extension(
                    names@[j as int]@,
                    ext@,
                )) by {
                    if r@.contains(j) {
                        let k = choose|k: int| 0 <= k < r@.len() && r@[k] == j;
                        assert(r@[k] < i);
                    }
                }
            }
        }
        i += 1;
    }
    r
}

proof fn lemma_index_set_len(r: Seq<usize>, pred: spec_fn(usize) -> bool)
    requires
        r.no_duplicates(),
        forall|i: usize| r.contains(i) <==> pred(i),
    ensures
        Set::new(|i: usize| pred(i)).finite(),
        Set::new(|i: usize| pred(i)).len() == r.len(),
{
    assert(Set::new(|i: usize| pred(i)) =~= r.to_set());
    r.unique_seq_to_set();
    vstd::seq_lib::seq_to_set_is_finite(r);
}

/// Pick the inbox files to read this poll, out of the names in the inbox:
/// those ending in `.json`, oldest name first, at most `MAX_FILES_PER_POLL`.
pub fn inbox_batch(names: &Vec<Vec<u8>>) -> (r: Vec<usize>)
    ensures
        is_batch(names@, r@),
{
    let json: [u8; 4] = [0x6a, 0x73, 0x6f, 0x6e];
    assert(json@ =~= json_ext());
    let candidates = with_extension(names, json.as_slice());
    let ghost eligible = |i: usize| i < names@.len() && has_extension(names@[i as int]@, json_ext());
    proof {
        lemma_index_set_len(candidates@, eligible);
        assert forall|k: int| 0 <= k < candidates@.len() implies (#[trigger] candidates@[k]) < names@.len() by {
            assert(candidates@.contains(candidates@[k]));
        }
    }
    let mut sorted = sort_by_name(names, &candidates);
    let ghost full = sorted@;
    if sorted.len() > MAX_FILES_PER_POLL {
        sorted.truncate(MAX_FILES_PER_POLL);
    }
    proof {
        let r = sorted@;
        assert(r =~= full.take(r.len() as int));
        assert forall|k: int| 0 <= k < r.len() implies eligible(#[trigger] r[k]) by {
            assert(full[k] == r[k]);
            assert(full.contains(r[k]));
        }
        assert(r.no_duplicates()) by {
            assert forall|a: int, b: int| 0 <= a < r.len() && 0 <= b < r.len() && a != b implies r[a] != r[b] by {
                assert(full[a] == r[a] && full[b] == r[b]);
            }
        }
        assert forall|i: usize| eligible(i) && !r.contains(i) implies r.len() > 0 && lex_le(
            names@[r.last() as int]@,
            names@[i as int]@,
        ) by {
            assert(full.contains(i));
            let k = choose|k: int| 0 <= k < full.len() && full[k] == i;
            if k < r.len() {
                assert(r[k] == i);
            }
            assert(full[r.len() - 1] == r.last());
        }
    }
    sorted
}

/// One file in the inbox, as the pruner sees it.
pub struct InboxEntry {
    pub name: Vec<u8>,
    pub size: u64,
    /// Last modification, in milliseconds since the Unix epoch.
    pub mtime_ms: i64,
}

/// The entry is an event or an abandoned partial write: its name ends in
/// `.json` or `.tmp`.
pub open spec fn prunable(e: InboxEntry) -> bool {
    has_extension(e.name@, json_ext()) || has_extension(e.name@, tmp_ext())
}

/// The entry is older than the age budget allows.
pub open spec fn too_old(e: InboxEntry, now_ms: int, max_age_ms: int) -> bool {
    now_ms - e.mtime_ms > max_age_ms
}

/// The entries of `order` that are (`aged`) or are not (`!aged`) too old,
/// in the same order.
pub open spec fn pick(
    entries: Seq<InboxEntry>,
    order: Seq<usize>,
    now_ms: int,
    max_age_ms: int,
    aged: bool,
) -> Seq<usize>
    decreases order.len(),
{
    if order.len() == 0 {
        Seq::empty()
    } else {
        let rest = pick(entries, order.drop_last(), now_ms, max_age_ms, aged);
        if too_old(entries[order.last() as int], now_ms, max_age_ms) == aged {
            rest.push(order.last())
        } else {
            rest
        }
    }
}

/// The sizes of the first `n` kept entries, leaving out those in `removed`.
pub open spec fn sum_left(sizes: Seq<u64>, removed: Set<int>, n: int) -> int
    decreases n,
{
    if n <= 0 {
        0
    } else {
        sum_left(sizes, removed, n - 1) + if removed.contains(n - 1) {
            0
        } else {
            sizes[n - 1] as int
        }
    }
}

proof fn lemma_sum_left_bounds(sizes: Seq<u64>, removed: Set<int>, n: int, k: int)
    requires
        0 <= n <= sizes.len(),
    ensures
        0 <= sum_left(sizes, removed, n) <= n * (u64::MAX as int),
        0 <= k < n && !removed.contains(k) ==> sizes[k] as int <= sum_left(sizes, removed, n),
    decreases n,
{
    if n > 0 {
        lemma_sum_left_bounds(sizes, removed, n - 1, k);
    }
}

proof fn lemma_sum_left_remove(sizes: Seq<u64>, removed: Set<int>, n: int, k: int)
    requires
        0 <= k < n <= sizes.len(),
        !removed.contains(k),
    ensures
        sum_left(sizes, removed.insert(k), n) == sum_left(sizes, removed, n) - sizes[k] as int,
    decreases n,
{
    if n - 1 > k {
        lemma_sum_left_remove(sizes, removed, n - 1, k);
    } else {
        assert(n - 1 == k);
        lemma_sum_left_same(sizes, removed, removed.insert(k), n - 1);
    }
}

proof fn lemma_sum_left_same(sizes: Seq<u64>, a: Set<int>, b: Set<int>, n: int)
    requires
        forall|k: int| 0 <= k < n ==> (a.contains(k) <==> b.contains(k)),
    ensures
        sum_left(sizes, a, n) == sum_left(sizes, b, n),
    decreases n,
{
    if n > 0 {
        lemma_sum_left_same(sizes, a, b, n - 1);
    }
}

/// The pruner's decisions for one inbox sweep.
///
/// Files too old are dropped outright. The rest are kept, oldest name
/// first, and dropped one at a time from the front while the kept total is
/// over the byte budget. The caller deletes the files; a deletion that fails
/// leaves its bytes counted, so the next file is tried instead.
pub struct PrunePlan {
    order: Ghost<Seq<usize>>,
    aged: Vec<usize>,
    kept: Vec<usize>,
    sizes: Vec<u64>,
    total: u128,
    max_bytes: i64,
    cursor: usize,
    pending: bool,
    removed: Ghost<Set<int>>,
}

impl PrunePlan {
    /// Every prunable entry, in name order.
    pub closed spec fn order(&self) -> Seq<usize> {
        self.order@
    }

    /// The entries to delete for age, in name order.
    pub closed spec fn aged_spec(&self) -> Seq<usize> {
        self.aged@
    }

    /// The entries within the age budget, in name order.
    pub closed spec fn kept_spec(&self) -> Seq<usize> {
        self.kept@
    }

    /// The bytes the kept entries still take up.
    pub closed spec fn total_spec(&self) -> int {
        self.total as int
    }

    /// How many kept entries have been offered for deletion.
    pub closed spec fn cursor_spec(&self) -> int {
        self.cursor as int
    }

    /// The last entry offered has not been confirmed deleted yet.
    pub closed spec fn pending_spec(&self) -> bool {
        self.pending
    }

    pub closed spec fn max_bytes_spec(&self) -> int {
        self.max_bytes as int
    }

    /// The size of the `k`-th kept entry.
    pub closed spec fn kept_size(&self, k: int) -> int {
        self.sizes@[k] as int
    }

    pub closed spec fn wf(&self) -> bool {
        &&& self.sizes@.len() == self.kept@.len()
        &&& self.cursor <= self.kept@.len()
        &&& self.pending ==> self.cursor > 0 && !self.removed@.contains(self.cursor - 1)
        &&& forall|k: int| #[trigger] self.removed@.contains(k) ==> 0 <= k < self.cursor
        &&& self.total as int == sum_left(self.sizes@, self.removed@, self.kept@.len() as int)
    }

    /// Decide, for the `entries` of an inbox observed at `now_ms`, which to
    /// delete for age, and in which order to delete the rest while they take
    /// up more than `max_bytes`.
    pub fn new(entries: &Vec<InboxEntry>, now_ms: i64, max_age_ms: i64, max_bytes: i64) -> (p:
        PrunePlan)
        ensures
            p.wf(),
            p.order().no_duplicates(),
            forall|i: usize| #[trigger]
                p.order().contains(i) <==> (i < entries@.len() && prunable(entries@[i as int])),
            sorted_by_name(entries@.map_values(|e: InboxEntry| e.name), p.order()),
            p.aged_spec() == pick(entries@, p.order(), now_ms as int, max_age_ms as int, true),
            p.kept_spec() == pick(entries@, p.order(), now_ms as int, max_age_ms as int, false),
            p.total_spec() == sum_sizes(entries@, p.kept_spec()),
            p.cursor_spec() == 0,
            !p.pending_spec(),
            p.max_bytes_spec() == max_bytes,
    {
        let mut names: Vec<Vec<u8>> = Vec::new();
        let mut candidates: Vec<usize> = Vec::new();
        let json: [u8; 4] = [0x6a, 0x73, 0x6f, 0x6e];
        let tmp: [u8; 3] = [0x74, 0x6d, 0x70];
        assert(json@ =~= json_ext());
        assert(tmp@ =~= tmp_ext());
        let mut i: usize = 0;
        while i < entries.len()
            invariant
                i <= entries@.len(),
                json@ == json_ext(),
                tmp@ == tmp_ext(),
                names@.len() == i,
                forall|j: int| 0 <= j < i ==> (#[trigger] names@[j])@ == entries@[j].name@,
                forall|k: int| 0 <= k < candidates@.len() ==> (#[trigger] candidates@[k]) < i,
                candidates@.no_duplicates(),
                forall|j: usize| candidates@.contains(j) <==> (j < i && prunable(entries@[j as int])),
            decreases entries@.len() - i,
        {
            let name = entries[i].name.clone();
            assert(name@ =~= entries@[i as int].name@);
            let keep = ends_with_extension(&name, json.as_slice()) || ends_with_extension(
                &name,
                tmp.as_slice(),
            );
            names.push(name);
            if keep {
                let ghost before = candidates@;
                candidates.push(i);
                proof {
                    assert forall|j: usize| candidates@.contains(j) <==> (j < i + 1 && prunable(
                        entries@[j as int],
                    )) by {
                        if j == i {
                            assert(candidates@[before.len() as int] == i);
                        }
                        if candidates@.contains(j) && j != i {
                            let k = choose|k: int| 0 <= k < candidates@.len() && candidates@[k] == j;
                            assert(before[k] == j);
                            assert(before.contains(j));
                        }
                        if j < i && prunable(entries@[j as int]) {
                            assert(before.contains(j));
                            let k = choose|k: int| 0 <= k < before.len() && before[k] == j;
                            assert(candidates@[k] == j);
                        }
                    }
                }
            } else {
                proof {
                    assert forall|j: usize| candidates@.contains(j) <==> (j < i + 1 && prunable(
                        entries@[j as int],
                    )) by {
                        if candidates@.contains(j) {
                            let k = choose|k: int| 0 <= k < candidates@.len() && candidates@[k] == j;
                            assert(candidates@[k] < i);
                        }
                    }
                }
            }
            i += 1;
        }
        proof {
            assert forall|k: int| 0 <= k < candidates@.len() implies (#[trigger] candidates@[k]) < names@.len() by {
                assert(candidates@.contains(candidates@[k]));
            }
        }
        let order = sort_by_name(&names, &candidates);
        proof {
            let en = entries@.map_values(|e: InboxEntry| e.name);
            assert forall|a: int, b: int| 0 <= a < b < order@.len() implies lex_le(
                en[order@[a] as int]@,
                en[order@[b] as int]@,
            ) by {
                assert(names@[order@[a] as int]@ == en[order@[a] as int]@);
                assert(names@[order@[b] as int]@ == en[order@[b] as int]@);
            }
        }
        let mut aged: Vec<usize> = Vec::new();
        let mut kept: Vec<usize> = Vec::new();
        let mut sizes: Vec<u64> = Vec::new();
        let mut total: u128 = 0;
        let mut k: usize = 0;
        while k < order.len()
            invariant
                k <= order@.len(),
                forall|m: int| 0 <= m < order@.len() ==> (#[trigger] order@[m]) < entries@.len(),
                aged@ == pick(entries@, order@.take(k as int), now_ms as int, max_age_ms as int, true),
                kept@ == pick(entries@, order@.take(k as int), now_ms as int, max_age_ms as int, false),
                sizes@.len() == kept@.len(),
                kept@.len() <= k,
                forall|m: int| 0 <= m < kept@.len() ==> (#[trigger] kept@[m]) < entries@.len(),
                forall|m: int| 0 <= m < kept@.len() ==> (#[trigger] sizes@[m]) == entries@[kept@[m] as int].size,
                total as int == sum_sizes(entries@, kept@),
                total as int <= kept@.len() * (u64::MAX as int),
            decreases order@.len() - k,
        {
            let x = order[k];
            assert(order@.take(k + 1).drop_last() =~= order@.take(k as int));
            assert(order@.take(k + 1).last() == x);
            let age = now_ms as i128 - entries[x].mtime_ms as i128;
            if age > max_age_ms as i128 {
                aged.push(x);
            } else {
                let size = entries[x].size;
                let ghost before = kept@;
                kept.push(x);
                sizes.push(size);
                assert(kept@.drop_last() =~= before);
                assert(total as int + size as int <= kept@.len() * (u64::MAX as int)) by (nonlinear_arith)
                    requires
                        total as int <= before.len() * (u64::MAX as int),
                        kept@.len() == before.len() + 1,
                        size <= u64::MAX,
                ;
                assert(kept@.len() <= usize::MAX);
                assert(kept@.len() * (u64::MAX as int) <= u128::MAX) by (nonlinear_arith)
                    requires
                        kept@.len() <= usize::MAX,
                        usize::MAX <= u64::MAX,
                ;
                total = total + size as u128;
            }
            k += 1;
        }
        assert(order@.take(order@.len() as int) =~= order@);
        let p = PrunePlan {
            order: Ghost(order@),
            aged,
            kept,
            sizes,
            total,
            max_bytes,
            cursor: 0,
            pending: false,
            removed: Ghost(Set::empty()),
        };
        proof {
            lemma_sum_left_matches(entries@, p.kept@, p.sizes@, p.kept@.len() as int);
            assert(p.kept@.take(p.kept@.len() as int) =~= p.kept@);
        }
        p
    }

    /// The entries too old to keep, in name order.
    pub fn aged(&self) -> (r: &Vec<usize>)
        ensures
            r@ == self.aged_spec(),
    {
        &self.aged
    }

    /// The bytes the kept entries still take up.
    pub fn total(&self) -> (r: u128)
        ensures
            r == self.total_spec(),
    {
        self.total
    }

    /// The next kept entry to delete, oldest first, while the kept entries
    /// are over the byte budget; `None` once they fit, or none is left.
    pub fn next_over_budget(&mut self) -> (r: Option<usize>)
        requires
            old(self).wf(),
        ensures
            final(self).wf(),
            final(self).aged_spec() == old(self).aged_spec(),
            final(self).kept_spec() == old(self).kept_spec(),
            final(self).order() == old(self).order(),
            final(self).total_spec() == old(self).total_spec(),
            final(self).max_bytes_spec() == old(self).max_bytes_spec(),
            forall|k: int| #[trigger] final(self).kept_size(k) == old(self).kept_size(k),
            match r {
                Some(i) => old(self).total_spec() > old(self).max_bytes_spec() && old(self).cursor_spec()
                    < old(self).kept_spec().len() && i == old(self).kept_spec()[old(self).cursor_spec()]
                    && final(self).cursor_spec() == old(self).cursor_spec() + 1 && final(self).pending_spec(),
                None => (old(self).total_spec() <= old(self).max_bytes_spec() || old(self).cursor_spec()
                    == old(self).kept_spec().len()) && final(self).cursor_spec() == old(
                    self,
                ).cursor_spec() && final(self).pending_spec() == old(self).pending_spec(),
            },
    {
        if (self.max_bytes >= 0 && self.total <= self.max_bytes as u128) || self.cursor == self.kept.len() {
            return None;
        }
        let i = self.kept[self.cursor];
        self.cursor = self.cursor + 1;
        self.pending = true;
        Some(i)
    }

    /// The entry `next_over_budget` last offered was deleted: stop counting
    /// its bytes.
    pub fn confirm_removed(&mut self)
        requires
            old(self).wf(),
            old(self).pending_spec(),
        ensures
            final(self).wf(),
            final(self).aged_spec() == old(self).aged_spec(),
            final(self).kept_spec() == old(self).kept_spec(),
            final(self).order() == old(self).order(),
            final(self).cursor_spec() == old(self).cursor_spec(),
            final(self).max_bytes_spec() == old(self).max_bytes_spec(),
            !final(self).pending_spec(),
            forall|k: int| #[trigger] final(self).kept_size(k) == old(self).kept_size(k),
            final(self).total_spec() == old(self).total_spec() - old(self).kept_size(
                old(self).cursor_spec() - 1,
            ),
    {
        let c = self.cursor - 1;
        let s = self.sizes[c];
        proof {
            lemma_sum_left_bounds(self.sizes@, self.removed@, self.kept@.len() as int, c as int);
            lemma_sum_left_remove(self.sizes@, self.removed@, self.kept@.len() as int, c as int);
        }
        self.total = self.total - s as u128;
        self.removed = Ghost(self.removed@.insert(c as int));
        self.pending = false;
    }
}

pub open spec fn sum_sizes(entries: Seq<InboxEntry>, idx: Seq<usize>) -> int
    decreases idx.len(),
{
    if idx.len() == 0 {
        0
    } else {
        sum_sizes(entries, idx.drop_last()) + entries[idx.last() as int].size
    }
}

proof fn lemma_sum_left_matches(entries: Seq<InboxEntry>, kept: Seq<usize>, sizes: Seq<u64>, n: int)
    requires
        0 <= n <= kept.len(),
        sizes.len() == kept.len(),
        forall|m: int| 0 <= m < kept.len() ==> (#[trigger] sizes[m]) == entries[kept[m] as int].size,
    ensures
        sum_left(sizes, Set::empty(), n) == sum_sizes(entries, kept.take(n)),
    decreases n,
{
    if n > 0 {
        lemma_sum_left_matches(entries, kept, sizes, n - 1);
        assert(kept.take(n).drop_last() =~= kept.take(n - 1));
    }
    if n == kept.len() {
        assert(kept.take(n) =~= kept);
    }
}

} // verus!
