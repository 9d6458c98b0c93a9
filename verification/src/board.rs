//! The job board: a map from a system-generated string identifier to the
//! job's record. Posting generates a fresh identifier and stores an open
//! job under it; fetching returns a copy of the record; listing returns a
//! snapshot of every open job, in no promised order.

use vstd::prelude::*;
use vstd::seq_lib::group_seq_properties;

use crate::error::CanisterError;
use crate::job::{Job, JobStatus, JobV};

verus! {

/// The job a post with these fields stores: open, no freelancer.
pub open spec fn posted_job(
    id: Seq<char>,
    title: Seq<char>,
    description: Seq<char>,
    budget: u32,
    client: Seq<char>,
) -> JobV {
    JobV {
        id: id,
        title: title,
        description: description,
        budget: budget,
        client: client,
        freelancer: None,
        status: JobStatus::Open,
    }
}

/// The views of the jobs of a sequence.
pub open spec fn views_of(s: Seq<Job>) -> Seq<JobV> {
    s.map_values(|j: Job| j@)
}

/// `r` is a correct listing of the open jobs of `m`: its entries carry
/// pairwise distinct identifiers, each entry is an open job of `m` stored
/// under its identifier, and every open job of `m` appears. The order of the
/// entries is not constrained.
pub open spec fn lists_open(m: Map<Seq<char>, JobV>, r: Seq<JobV>) -> bool {
    &&& forall|t: int, u: int| 0 <= t < u < r.len() ==> r[t].id != r[u].id
    &&& forall|t: int|
        0 <= t < r.len() ==> m.contains_key(#[trigger] r[t].id) && r[t] == m[r[t].id]
            && r[t].status == JobStatus::Open
    &&& forall|k: Seq<char>|
        #[trigger] m.contains_key(k) && m[k].status == JobStatus::Open
            ==> exists|t: int| 0 <= t < r.len() && r[t].id == k
}

/// Every job of `m` is open.
pub open spec fn all_open(m: Map<Seq<char>, JobV>) -> bool {
    forall|k: Seq<char>| #[trigger] m.contains_key(k) ==> m[k].status == JobStatus::Open
}

/// The map an association list denotes: later entries shadow earlier ones.
spec fn jobs_map(s: Seq<Job>) -> Map<Seq<char>, JobV>
    decreases s.len(),
{
    if s.len() == 0 {
        Map::empty()
    } else {
        jobs_map(s.drop_last()).insert(s.last().id@, s.last()@)
    }
}

/// No two entries share an identifier.
spec fn ids_unique(s: Seq<Job>) -> bool {
    forall|i: int, j: int| 0 <= i < j < s.len() ==> s[i].id@ != s[j].id@
}

/// `jobs_map(s)` has key `k` exactly when some entry of `s` carries it.
proof fn lemma_jobs_map_domain(s: Seq<Job>, k: Seq<char>)
    ensures
        jobs_map(s).contains_key(k) <==> exists|i: int| 0 <= i < s.len() && s[i].id@ == k,
    decreases s.len(),
{
    if s.len() > 0 {
        lemma_jobs_map_domain(s.drop_last(), k);
        if s.last().id@ != k {
            if exists|i: int| 0 <= i < s.len() && s[i].id@ == k {
                let i = choose|i: int| 0 <= i < s.len() && s[i].id@ == k;
                assert(s.drop_last()[i].id@ == k);
            }
            if exists|i: int| 0 <= i < s.drop_last().len() && s.drop_last()[i].id@ == k {
                let i = choose|i: int| 0 <= i < s.drop_last().len() && s.drop_last()[i].id@ == k;
                assert(s[i].id@ == k);
            }
        }
    }
}

/// With pairwise distinct identifiers, the entry at `i` is stored in the
/// denoted map under its own identifier.
proof fn lemma_jobs_map_index(s: Seq<Job>, i: int)
    requires
        ids_unique(s),
        0 <= i < s.len(),
    ensures
        jobs_map(s).contains_key(s[i].id@),
        jobs_map(s)[s[i].id@] == s[i]@,
    decreases s.len(),
{
    if i < s.len() - 1 {
        assert(ids_unique(s.drop_last()));
        lemma_jobs_map_index(s.drop_last(), i);
        assert(s.drop_last()[i] == s[i]);
        assert(s[i].id@ != s.last().id@);
    }
}

/// Appending an entry inserts its identifier into the denoted map.
proof fn lemma_jobs_map_push(s: Seq<Job>, j: Job)
    ensures
        jobs_map(s.push(j)) == jobs_map(s).insert(j.id@, j@),
{
    assert(s.push(j).drop_last() =~= s);
    assert(s.push(j).last() == j);
}

/// Overwriting the entry at `i` with one of the same identifier acts on the
/// denoted map as an insert under that identifier, and keeps the
/// identifiers pairwise distinct.
proof fn lemma_jobs_map_update(s: Seq<Job>, i: int, j: Job)
    requires
        ids_unique(s),
        0 <= i < s.len(),
        j.id@ == s[i].id@,
    ensures
        jobs_map(s.update(i, j)) == jobs_map(s).insert(j.id@, j@),
        ids_unique(s.update(i, j)),
    decreases s.len(),
{
    let s2 = s.update(i, j);
    assert(ids_unique(s2));
    if i == s.len() - 1 {
        assert(s2.drop_last() =~= s.drop_last());
        assert(s2.last() == j);
        assert(jobs_map(s2) =~= jobs_map(s).insert(j.id@, j@));
    } else {
        assert(ids_unique(s.drop_last()));
        assert(s2.drop_last() =~= s.drop_last().update(i, j));
        lemma_jobs_map_update(s.drop_last(), i, j);
        assert(s2.last() == s.last());
        assert(j.id@ != s.last().id@);
        assert(jobs_map(s2) =~= jobs_map(s).insert(j.id@, j@));
    }
}

/// The denoted map has a finite domain.
proof fn lemma_jobs_map_finite(s: Seq<Job>)
    ensures
        jobs_map(s).dom().finite(),
    decreases s.len(),
{
    if s.len() > 0 {
        lemma_jobs_map_finite(s.drop_last());
        assert(jobs_map(s).dom() =~= jobs_map(s.drop_last()).dom().insert(s.last().id@));
    }
}

/// Relies on `uuid::Uuid::new_v4` and the `Display` form of `Uuid`: a fresh
/// random version-4 identifier, rendered in the hyphenated textual form of
/// exactly 36 characters. Nothing is assumed about which identifier comes
/// back, only the length of its rendering.
#[verifier::external_body]
fn fresh_job_id() -> (r: String)
    ensures
        r@.len() == 36,
{
    uuid::Uuid::new_v4().to_string()
}

/// The board: the jobs keyed by their generated identifiers.
pub struct JobBoard {
    jobs: Vec<Job>,
}

impl View for JobBoard {
    type V = Map<Seq<char>, JobV>;

    closed spec fn view(&self) -> Map<Seq<char>, JobV> {
        jobs_map(self.jobs@)
    }
}

impl JobBoard {
    /// The board's invariant: stored identifiers are pairwise distinct.
    pub closed spec fn wf(self) -> bool {
        ids_unique(self.jobs@)
    }

    /// An empty board.
    pub fn new() -> (r: JobBoard)
        ensures
            r.wf(),
            r@ == Map::<Seq<char>, JobV>::empty(),
    {
        JobBoard { jobs: Vec::new() }
    }

    /// Stores `job` under its identifier, replacing any job already stored
    /// under it.
    fn put(&mut self, job: Job)
        requires
            old(self).wf(),
        ensures
            final(self).wf(),
            final(self)@ == old(self)@.insert(job@.id, job@),
    {
        let n = self.jobs.len();
        let mut i: usize = 0;
        while i < n
            invariant
                n == self.jobs.len(),
                i <= n,
                self.wf(),
                self.jobs@ == old(self).jobs@,
                forall|t: int| 0 <= t < i ==> self.jobs@[t].id@ != job.id@,
            decreases n - i,
        {
            if self.jobs[i].id == job.id {
                proof {
                    lemma_jobs_map_update(self.jobs@, i as int, job);
                }
                self.jobs[i] = job;
                return;
            }
            i += 1;
        }
        proof {
            lemma_jobs_map_domain(self.jobs@, job.id@);
            lemma_jobs_map_push(self.jobs@, job);
            assert forall|a: int, b: int|
                0 <= a < b < self.jobs@.push(job).len()
                    implies self.jobs@.push(job)[a].id@ != self.jobs@.push(job)[b].id@ by {
                if b < self.jobs@.len() {
                    assert(self.jobs@[a].id@ != self.jobs@[b].id@);
                } else {
                    assert(self.jobs@[a].id@ != job.id@);
                }
            }
        }
        self.jobs.push(job);
    }

    /// Posts a job: generates a fresh identifier, stores an open job with
    /// the given fields and no freelancer under it, and returns the
    /// identifier. It never fails; the identifier is 36 characters long, so
    /// in particular non-empty.
    pub fn post_job(
        &mut self,
        client: String,
        title: String,
        description: String,
        budget: u32,
    ) -> (r: Result<String, CanisterError>)
        requires
            old(self).wf(),
        ensures
            final(self).wf(),
            r is Ok,
            r->Ok_0@.len() == 36,
            r->Ok_0@.len() > 0,
            final(self)@ == old(self)@.insert(
                r->Ok_0@,
                posted_job(r->Ok_0@, title@, description@, budget, client@),
            ),
    {
        let id = fresh_job_id();
        let job = Job {
            id: id.clone(),
            title,
            description,
            budget,
            client,
            freelancer: None,
            status: JobStatus::Open,
        };
        self.put(job);
        Ok(id)
    }

    /// Fetches a copy of the job stored under `job_id`, or `JobNotFound` if
    /// no job carries that identifier.
    pub fn get_job(&self, job_id: String) -> (r: Result<Job, CanisterError>)
        requires
            self.wf(),
        ensures
            self@.contains_key(job_id@) ==> (r matches Ok(j) && j@ == self@[job_id@]),
            !self@.contains_key(job_id@) ==> (r matches Err(e) && e is JobNotFound),
    {
        let n = self.jobs.len();
        let mut i: usize = 0;
        while i < n
            invariant
                n == self.jobs.len(),
                i <= n,
                self.wf(),
                forall|t: int| 0 <= t < i ==> self.jobs@[t].id@ != job_id@,
            decreases n - i,
        {
            if self.jobs[i].id == job_id {
                proof {
                    lemma_jobs_map_index(self.jobs@, i as int);
                }
                return Ok(self.jobs[i].clone());
            }
            i += 1;
        }
        proof {
            lemma_jobs_map_domain(self.jobs@, job_id@);
        }
        Err(CanisterError::JobNotFound)
    }

    /// Returns a snapshot copy of every open job on the board: one entry
    /// per open job, each under its own identifier, in no promised order.
    #[verifier::rlimit(60)]
    pub fn list_open_jobs(&self) -> (r: Vec<Job>)
        requires
            self.wf(),
        ensures
            lists_open(self@, views_of(r@)),
    {
        let n = self.jobs.len();
        let mut out: Vec<Job> = Vec::new();
        let mut i: usize = 0;
        while i < n
            invariant
                n == self.jobs.len(),
                i <= n,
                self.wf(),
                forall|t: int|
                    0 <= t < out@.len() ==> exists|s: int|
                        0 <= s < i && #[trigger] out@[t] == self.jobs@[s],
                forall|s: int|
                    0 <= s < i && (#[trigger] self.jobs@[s]).status == JobStatus::Open
                        ==> exists|t: int| 0 <= t < out@.len() && out@[t] == self.jobs@[s],
                forall|t: int| 0 <= t < out@.len() ==> (#[trigger] out@[t]).status == JobStatus::Open,
                forall|t: int, u: int| 0 <= t < u < out@.len() ==> out@[t].id@ != out@[u].id@,
            decreases n - i,
        {
            let ghost prev = out@;
            if self.jobs[i].status == JobStatus::Open {
                out.push(self.jobs[i].clone());
            }
            proof {
                assert forall|t: int|
                    0 <= t < out@.len() implies exists|s: int|
                        0 <= s < i + 1 && #[trigger] out@[t] == self.jobs@[s] by {
                    if t < prev.len() {
                        assert(out@[t] == prev[t]);
                        let s = choose|s: int| 0 <= s < i && prev[t] == self.jobs@[s];
                        assert(out@[t] == self.jobs@[s]);
                    } else {
                        assert(out@[t] == self.jobs@[i as int]);
                    }
                }
                assert forall|s: int|
                    0 <= s < i + 1 && (#[trigger] self.jobs@[s]).status == JobStatus::Open
                        implies exists|t: int| 0 <= t < out@.len() && out@[t] == self.jobs@[s] by {
                    if s < i {
                        let t = choose|t: int| 0 <= t < prev.len() && prev[t] == self.jobs@[s];
                        assert(out@[t] == self.jobs@[s]);
                    } else {
                        assert(out@[out@.len() - 1] == self.jobs@[s]);
                    }
                }
                assert forall|t: int, u: int|
                    0 <= t < u < out@.len() implies out@[t].id@ != out@[u].id@ by {
                    if u < prev.len() {
                        assert(prev[t].id@ != prev[u].id@);
                    } else {
                        let s = choose|s: int| 0 <= s < i && prev[t] == self.jobs@[s];
                        assert(self.jobs@[s].id@ != self.jobs@[i as int].id@);
                    }
                }
            }
            i += 1;
        }
        proof {
            let m = self@;
            let rv = views_of(out@);
            assert forall|t: int|
                0 <= t < rv.len() implies m.contains_key(#[trigger] rv[t].id) && rv[t] == m[rv[t].id]
                    && rv[t].status == JobStatus::Open by {
                assert(rv[t] == out@[t]@);
                let s = choose|s: int| 0 <= s < i && out@[t] == self.jobs@[s];
                lemma_jobs_map_index(self.jobs@, s);
            }
            assert forall|t: int, u: int| 0 <= t < u < rv.len() implies rv[t].id != rv[u].id by {
                assert(rv[t] == out@[t]@ && rv[u] == out@[u]@);
                assert(out@[t].id@ != out@[u].id@);
            }
            assert forall|k: Seq<char>|
                #[trigger] m.contains_key(k) && m[k].status == JobStatus::Open
                    implies exists|t: int| 0 <= t < rv.len() && rv[t].id == k by {
                lemma_jobs_map_domain(self.jobs@, k);
                let s = choose|s: int| 0 <= s < self.jobs@.len() && self.jobs@[s].id@ == k;
                lemma_jobs_map_index(self.jobs@, s);
                assert(self.jobs@[s]@.status == JobStatus::Open);
                assert(self.jobs@[s].status == JobStatus::Open);
                let t = choose|t: int| 0 <= t < out@.len() && out@[t] == self.jobs@[s];
                assert(rv[t] == out@[t]@);
                assert(rv[t].id == k);
            }
        }
        out
    }
}

/// Law: a board holds finitely many jobs, so counting its entries is
/// meaningful.
pub proof fn lemma_board_view_finite(b: JobBoard)
    ensures
        b@.dom().finite(),
{
    lemma_jobs_map_finite(b.jobs@);
}

/// Law: a job fetched right after it was posted comes back exactly as
/// posted: the given fields under the returned identifier, open, and with
/// no freelancer.
pub proof fn lemma_post_then_get(
    m: Map<Seq<char>, JobV>,
    id: Seq<char>,
    title: Seq<char>,
    description: Seq<char>,
    budget: u32,
    client: Seq<char>,
)
    ensures
        ({
            let m1 = m.insert(id, posted_job(id, title, description, budget, client));
            m1.contains_key(id) && m1[id].id == id && m1[id].title == title
                && m1[id].description == description && m1[id].budget == budget
                && m1[id].client == client && m1[id].freelancer is None
                && m1[id].status == JobStatus::Open
        }),
{
}

/// Law: posting a job under an identifier not yet on the board adds exactly
/// one entry, and every job on the board stays open.
pub proof fn lemma_post_grows_board(
    m: Map<Seq<char>, JobV>,
    id: Seq<char>,
    title: Seq<char>,
    description: Seq<char>,
    budget: u32,
    client: Seq<char>,
)
    requires
        all_open(m),
        !m.contains_key(id),
        m.dom().finite(),
    ensures
        ({
            let m1 = m.insert(id, posted_job(id, title, description, budget, client));
            all_open(m1) && m1.dom().finite() && m1.dom().len() == m.dom().len() + 1
        }),
{
    let m1 = m.insert(id, posted_job(id, title, description, budget, client));
    assert(m1.dom() =~= m.dom().insert(id));
}

/// Law: on a board whose jobs are all open, a listing has exactly one entry
/// per job of the board.
pub proof fn lemma_list_counts_all_jobs(m: Map<Seq<char>, JobV>, r: Seq<JobV>)
    requires
        lists_open(m, r),
        all_open(m),
        m.dom().finite(),
    ensures
        r.len() == m.dom().len(),
{
    broadcast use group_seq_properties;

    let ids = r.map_values(|j: JobV| j.id);
    assert(ids.no_duplicates());
    assert forall|k: Seq<char>| #[trigger] m.dom().contains(k) implies ids.to_set().contains(k) by {
        let t = choose|t: int| 0 <= t < r.len() && r[t].id == k;
        assert(ids[t] == k);
        assert(ids.contains(k));
    }
    assert forall|k: Seq<char>| #[trigger] ids.to_set().contains(k) implies m.dom().contains(k) by {
        let t = choose|t: int| 0 <= t < ids.len() && ids[t] == k;
        assert(r[t].id == k);
    }
    assert(ids.to_set() =~= m.dom());
    ids.unique_seq_to_set();
}

/// Law: a listing of an empty board is empty.
pub proof fn lemma_list_of_empty_board(r: Seq<JobV>)
    requires
        lists_open(Map::<Seq<char>, JobV>::empty(), r),
    ensures
        r.len() == 0,
{
    if r.len() > 0 {
        assert(Map::<Seq<char>, JobV>::empty().contains_key(r[0].id));
    }
}

} // verus!
