//! Upload progress, tracked per job so the upload page can show what is
//! happening while the pipeline runs.
//!
//! Kept in memory: a restart loses in-flight jobs, and the browser then sees
//! the id go missing. Entries untouched for `RETAIN_MS` are swept on every
//! write rather than by a timer. Times are milliseconds on a monotonic clock
//! supplied by the caller.
use vstd::prelude::*;
use crate::models::{Progress, Step};
use crate::text::{chars_of, equals};

verus! {

/// How long an entry survives without being written, in milliseconds: long
/// enough for a backgrounded tab to find its result.
pub const RETAIN_MS: u64 = 300_000;

/// One job.
#[derive(Debug)]
pub struct Entry {
    pub id: String,
    pub progress: Progress,
    /// When this job was last written.
    pub touched: u64,
}

/// Every tracked job; at most one entry per id.
#[derive(Debug)]
pub struct JobRegistry {
    pub entries: Vec<Entry>,
}

/// Time since `touched` as seen at `now`, zero if `now` is earlier.
pub open spec fn elapsed(touched: u64, now: u64) -> int {
    if now >= touched { now - touched } else { 0 }
}

/// Whether an entry last written at `touched` is still kept at `now`.
pub open spec fn fresh(touched: u64, now: u64) -> bool {
    elapsed(touched, now) < RETAIN_MS
}

/// The first entry for `id`, with its progress and write time.
pub open spec fn lookup(s: Seq<Entry>, id: Seq<char>) -> Option<(Progress, u64)>
    decreases s.len(),
{
    if s.len() == 0 {
        None
    } else if s[0].id@ == id {
        Some((s[0].progress, s[0].touched))
    } else {
        lookup(s.drop_first(), id)
    }
}

/// No two entries share an id.
pub open spec fn unique(s: Seq<Entry>) -> bool {
    forall|i: int, j: int| 0 <= i < j < s.len() ==> s[i].id@ != s[j].id@
}

/// What a registry holds, by id.
pub open spec fn jobs_of(s: Seq<Entry>) -> Map<Seq<char>, (Progress, u64)> {
    Map::new(|k: Seq<char>| lookup(s, k) is Some, |k: Seq<char>| lookup(s, k).unwrap())
}

/// The registry after recording `p` for `id` at `now`: everything stale is
/// swept, and `id` holds `p`, written now.
pub open spec fn after_set(m: Map<Seq<char>, (Progress, u64)>, id: Seq<char>, p: Progress, now: u64)
    -> Map<Seq<char>, (Progress, u64)> {
    Map::new(|k: Seq<char>| m.dom().contains(k) && fresh(m[k].1, now), |k: Seq<char>| m[k]).insert(id, (p, now))
}

/// What `get` answers for `id` at `now`: its progress while it is fresh,
/// nothing once it has expired or if it was never there.
pub open spec fn spec_get(m: Map<Seq<char>, (Progress, u64)>, id: Seq<char>, now: u64) -> Option<Progress> {
    if m.dom().contains(id) && fresh(m[id].1, now) { Some(m[id].0) } else { None }
}

impl JobRegistry {
    pub open spec fn wf(&self) -> bool {
        unique(self.entries@)
    }

    /// What this registry holds, by id.
    pub open spec fn view_jobs(&self) -> Map<Seq<char>, (Progress, u64)> {
        jobs_of(self.entries@)
    }

    /// An empty registry.
    pub fn new() -> (r: Self)
        ensures
            r.wf(),
            r.view_jobs() == Map::<Seq<char>, (Progress, u64)>::empty(),
    {
        let r = JobRegistry { entries: Vec::new() };
        assert(r.view_jobs() =~= Map::<Seq<char>, (Progress, u64)>::empty());
        r
    }
}

proof fn lemma_lookup_push(s: Seq<Entry>, e: Entry, k: Seq<char>)
    ensures
        lookup(s.push(e), k) == (match lookup(s, k) {
            Some(v) => Some(v),
            None => if e.id@ == k { Some((e.progress, e.touched)) } else { None },
        }),
    decreases s.len(),
{
    if s.len() > 0 {
        assert(s.push(e).drop_first() =~= s.drop_first().push(e));
        assert(s.push(e)[0] == s[0]);
        lemma_lookup_push(s.drop_first(), e, k);
        assert(lookup(s.push(e), k) == (if s[0].id@ == k {
            Some((s[0].progress, s[0].touched))
        } else {
            lookup(s.drop_first().push(e), k)
        }));
    } else {
        assert(s.push(e).drop_first() =~= Seq::<Entry>::empty());
        assert(lookup(s.push(e).drop_first(), k) is None);
        assert(s.push(e)[0] == e);
        assert(lookup(s, k) is None);
    }
}

proof fn lemma_lookup_some(s: Seq<Entry>, i: int)
    requires
        unique(s),
        0 <= i < s.len(),
    ensures
        lookup(s, s[i].id@) == Some((s[i].progress, s[i].touched)),
    decreases s.len(),
{
    if i > 0 {
        assert(unique(s.drop_first()));
        assert(s.drop_first()[i - 1] == s[i]);
        lemma_lookup_some(s.drop_first(), i - 1);
    }
}

proof fn lemma_lookup_none(s: Seq<Entry>, k: Seq<char>)
    requires
        forall|i: int| 0 <= i < s.len() ==> s[i].id@ != k,
    ensures
        lookup(s, k) is None,
    decreases s.len(),
{
    if s.len() > 0 {
        lemma_lookup_none(s.drop_first(), k);
    }
}

proof fn lemma_lookup_found(s: Seq<Entry>, k: Seq<char>)
    ensures
        lookup(s, k) is Some ==> exists|i: int| 0 <= i < s.len() && s[i].id@ == k,
    decreases s.len(),
{
    if s.len() > 0 && s[0].id@ != k {
        lemma_lookup_found(s.drop_first(), k);
        if lookup(s, k) is Some {
            let i = choose|i: int| 0 <= i < s.drop_first().len() && s.drop_first()[i].id@ == k;
            assert(s[i + 1].id@ == k);
        }
    }
}

/// An entry found for `k` survives a write of `id` at `now` when it is for
/// another id and still fresh.
pub open spec fn survivor(found: Option<(Progress, u64)>, k: Seq<char>, id: Seq<char>, now: u64)
    -> Option<(Progress, u64)> {
    match found {
        Some(v) => if k != id && fresh(v.1, now) { Some(v) } else { None },
        None => None,
    }
}

proof fn lemma_lookup_cons(s: Seq<Entry>, i: int, k: Seq<char>)
    requires
        0 <= i < s.len(),
    ensures
        lookup(s.subrange(i, s.len() as int), k) == (if s[i].id@ == k {
            Some((s[i].progress, s[i].touched))
        } else {
            lookup(s.subrange(i + 1, s.len() as int), k)
        }),
{
    let t = s.subrange(i, s.len() as int);
    assert(t.drop_first() =~= s.subrange(i + 1, s.len() as int));
}

/// Record where a job has got to, sweeping anything stale while at it.
pub fn set(reg: &mut JobRegistry, id: &str, progress: Progress, now: u64)
    requires
        old(reg).wf(),
    ensures
        final(reg).wf(),
        final(reg).view_jobs() == after_set(old(reg).view_jobs(), id@, progress, now),
{
    let ghost olds = reg.entries@;
    let ghost n = olds.len() as int;
    let mut kept: Vec<Entry> = Vec::new();
    let mut rest: Vec<Entry> = Vec::new();
    std::mem::swap(&mut rest, &mut reg.entries);
    proof {
        assert(olds.take(n) =~= olds);
        assert(olds.subrange(n, n) =~= Seq::<Entry>::empty());
    }
    while rest.len() > 0
        invariant
            unique(olds),
            n == olds.len(),
            rest@.len() <= n,
            rest@ == olds.take(rest@.len() as int),
            unique(kept@),
            forall|j: int| 0 <= j < kept@.len() ==> kept@[j].id@ != id@,
            forall|j: int| 0 <= j < kept@.len() ==>
                exists|t: int| rest@.len() <= t < n && olds[t] == #[trigger] kept@[j],
            forall|k: Seq<char>| #![trigger lookup(kept@, k)] lookup(kept@, k)
                == survivor(lookup(olds.subrange(rest@.len() as int, n), k), k, id@, now),
        decreases rest.len(),
    {
        let ghost r = rest@.len() as int;
        let ghost before = rest@;
        let e = rest.pop().unwrap();
        proof {
            assert(before == olds.take(r));
            assert(e == before[r - 1]);
            assert(e == olds[r - 1]);
            assert(rest@ =~= olds.take(r - 1));
            assert forall|k: Seq<char>| #![trigger lookup(olds.subrange(r - 1, n), k)]
                lookup(olds.subrange(r - 1, n), k) == (if e.id@ == k {
                    Some((e.progress, e.touched))
                } else {
                    lookup(olds.subrange(r, n), k)
                }) by {
                lemma_lookup_cons(olds, r - 1, k);
            }
            assert(lookup(olds.subrange(r, n), e.id@) is None) by {
                assert forall|j: int| 0 <= j < olds.subrange(r, n).len() implies olds.subrange(r, n)[j].id@ != e.id@ by {
                    assert(olds.subrange(r, n)[j] == olds[r + j]);
                }
                lemma_lookup_none(olds.subrange(r, n), e.id@);
            }
        }
        let elapsed: u64 = if now >= e.touched { now - e.touched } else { 0 };
        let eid = chars_of(e.id.as_str());
        let keep = elapsed < RETAIN_MS && !equals(&eid, id);
        if keep {
            proof {
                assert forall|j: int| 0 <= j < kept@.len() implies kept@[j].id@ != e.id@ by {
                    let t = choose|t: int| r <= t < n && olds[t] == #[trigger] kept@[j];
                }
                assert forall|k: Seq<char>| #![trigger lookup(kept@.push(e), k)]
                    lookup(kept@.push(e), k) == (match lookup(kept@, k) {
                        Some(v) => Some(v),
                        None => if e.id@ == k { Some((e.progress, e.touched)) } else { None },
                    }) by {
                    lemma_lookup_push(kept@, e, k);
                }
            }
            kept.push(e);
            proof {
                assert forall|j: int| 0 <= j < kept@.len() implies
                    exists|t: int| r - 1 <= t < n && olds[t] == #[trigger] kept@[j] by {
                    if j == kept@.len() - 1 {
                        assert(olds[r - 1] == kept@[j]);
                    } else {
                        let t = choose|t: int| r <= t < n && olds[t] == #[trigger] kept@[j];
                    }
                }
            }
        } else {
            proof {
                assert forall|j: int| 0 <= j < kept@.len() implies
                    exists|t: int| r - 1 <= t < n && olds[t] == #[trigger] kept@[j] by {
                    let t = choose|t: int| r <= t < n && olds[t] == #[trigger] kept@[j];
                }
            }
        }
    }
    proof {
        assert(olds.subrange(0, n) =~= olds);
        assert forall|j: int| 0 <= j < kept@.len() implies kept@[j].id@ != id@ by {}
    }
    let new_entry = Entry { id: crate::text::owned(id), progress, touched: now };
    proof {
        assert forall|k: Seq<char>| #![trigger lookup(kept@.push(new_entry), k)]
            lookup(kept@.push(new_entry), k) == (match lookup(kept@, k) {
                Some(v) => Some(v),
                None => if new_entry.id@ == k { Some((new_entry.progress, new_entry.touched)) } else { None },
            }) by {
            lemma_lookup_push(kept@, new_entry, k);
        }
        lemma_lookup_none(kept@, id@);
    }
    kept.push(new_entry);
    reg.entries = kept;
    proof {
        let m = jobs_of(olds);
        assert forall|k: Seq<char>| #![trigger lookup(reg.entries@, k)]
            lookup(reg.entries@, k) == (if k == id@ {
                Some((progress, now))
            } else if m.dom().contains(k) && fresh(m[k].1, now) {
                Some(m[k])
            } else {
                None
            }) by {
        }
        assert(jobs_of(reg.entries@) =~= after_set(m, id@, progress, now));
    }
}

/// Register a new job as receiving, under an id the caller minted.
pub fn start(reg: &mut JobRegistry, id: String, now: u64) -> (r: String)
    requires
        old(reg).wf(),
    ensures
        r@ == id@,
        final(reg).wf(),
        final(reg).view_jobs() == after_set(old(reg).view_jobs(), id@,
            Progress::Running { step: Step::Receiving }, now),
{
    set(reg, id.as_str(), Progress::Running { step: Step::Receiving }, now);
    id
}

/// What a job is doing; `None` once it has expired or if the id was never
/// real.
pub fn get(reg: &JobRegistry, id: &str, now: u64) -> (r: Option<Progress>)
    requires
        reg.wf(),
    ensures
        r == spec_get(reg.view_jobs(), id@, now),
{
    let mut i: usize = 0;
    proof { assert(reg.entries@.subrange(0, reg.entries@.len() as int) =~= reg.entries@); }
    while i < reg.entries.len()
        invariant
            i <= reg.entries@.len(),
            lookup(reg.entries@, id@) == lookup(reg.entries@.subrange(i as int, reg.entries@.len() as int), id@),
        decreases reg.entries.len() - i,
    {
        let eid = chars_of(reg.entries[i].id.as_str());
        proof { lemma_lookup_cons(reg.entries@, i as int, id@); }
        if equals(&eid, id) {
            let touched = reg.entries[i].touched;
            let fresh_now = if now >= touched { now - touched < RETAIN_MS } else { true };
            if fresh_now {
                return Some(reg.entries[i].progress.copy());
            }
            return None;
        }
        i = i + 1;
    }
    proof {
        assert(reg.entries@.subrange(i as int, reg.entries@.len() as int).len() == 0);
    }
    None
}

/// Reading a job right after writing it gives back what was written.
pub proof fn lemma_get_after_set(m: Map<Seq<char>, (Progress, u64)>, id: Seq<char>, p: Progress, now: u64)
    ensures
        spec_get(after_set(m, id, p, now), id, now) == Some(p),
{
}

/// A job left untouched for the retention window reads as gone, whether or
/// not anything has been written since.
pub proof fn lemma_expired_jobs_read_as_gone(m: Map<Seq<char>, (Progress, u64)>, id: Seq<char>, now: u64)
    requires
        m.dom().contains(id) ==> !fresh(m[id].1, now),
    ensures
        spec_get(m, id, now) is None,
{
}

/// Writing one job leaves every other job that is still fresh as it was.
pub proof fn lemma_set_keeps_other_fresh_jobs(
    m: Map<Seq<char>, (Progress, u64)>,
    id: Seq<char>,
    p: Progress,
    now: u64,
    other: Seq<char>,
)
    requires
        other != id,
        m.dom().contains(other),
        fresh(m[other].1, now),
    ensures
        spec_get(after_set(m, id, p, now), other, now) == spec_get(m, other, now),
{
}

/// A job left untouched for the retention window is gone after the next
/// write of any other job.
pub proof fn lemma_set_sweeps_stale_jobs(
    m: Map<Seq<char>, (Progress, u64)>,
    id: Seq<char>,
    p: Progress,
    now: u64,
    other: Seq<char>,
)
    requires
        other != id,
        m.dom().contains(other) ==> !fresh(m[other].1, now),
    ensures
        spec_get(after_set(m, id, p, now), other, now) is None,
{
}

} // verus!
