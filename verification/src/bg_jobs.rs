//! The table of background jobs: numbering, the `+`/`-` markers of the
//! current and previous job, completion, and the `jobs` listing.
use crate::text::{decimal, push_decimal, spaces, string_append, string_push, strings_view};
use std::collections::HashMap;
use vstd::prelude::*;

verus! {

broadcast use vstd::std_specs::hash::group_hash_axioms;

/// A job running in the background.
pub struct BackgroundJob {
    name: String,
    pub cmd: String,
}

impl BackgroundJob {
    /// The name the job was registered under.
    pub closed spec fn name_view(&self) -> Seq<char> {
        self.name@
    }

    /// The command line of the job.
    pub closed spec fn cmd_view(&self) -> Seq<char> {
        self.cmd@
    }
}

/// The background jobs of the shell.
pub struct BackgroundJobRegistry {
    pub jobs: HashMap<usize, BackgroundJob>,
    next_id: usize,
    last_id: usize,
    prev_id: usize,
    completed: Vec<(usize, String)>,
}

/// Whether `m` is the largest job number of `dom` other than `skip`, or `0`
/// when there is none.
pub open spec fn is_max_other(dom: Set<usize>, skip: usize, m: usize) -> bool {
    if exists|k: usize| dom.contains(k) && k != skip {
        dom.contains(m) && m != skip && forall|k: usize| dom.contains(k) && k != skip ==> k <= m
    } else {
        m == 0
    }
}

/// The job numbers below `n` that `dom` holds, in increasing order.
pub open spec fn ids_below(dom: Set<usize>, n: nat) -> Seq<usize>
    decreases n,
{
    if n == 0 {
        Seq::empty()
    } else if dom.contains((n - 1) as usize) {
        ids_below(dom, (n - 1) as nat).push((n - 1) as usize)
    } else {
        ids_below(dom, (n - 1) as nat)
    }
}

/// The status column of a running job: `Running` padded to 24 characters.
pub open spec fn running_field() -> Seq<char> {
    seq!['R', 'u', 'n', 'n', 'i', 'n', 'g'] + spaces(17)
}

/// The line that `jobs` prints for a job: `[id]` and its marker, the status
/// column, the command and ` &`.
pub open spec fn job_line(id: usize, marker: char, cmd: Seq<char>) -> Seq<char> {
    seq!['['] + decimal(id as nat) + seq![']', marker, ' ', ' '] + running_field() + cmd + seq![
        ' ',
        '&',
    ]
}

/// The status column of a finished job: `Done` padded to 24 characters.
pub open spec fn done_field() -> Seq<char> {
    seq!['D', 'o', 'n', 'e'] + spaces(20)
}

/// The line that reports a finished job: `[id]` and a marker, the status
/// column, and the job's name.
pub open spec fn done_line_of(id: usize, marker: char, name: Seq<char>) -> Seq<char> {
    seq!['['] + decimal(id as nat) + seq![']', marker, ' ', ' '] + done_field() + name
}

/// The line that reports a finished job.
pub fn done_line(id: usize, marker: char, name: &str) -> (r: String)
    ensures
        r@ == done_line_of(id, marker, name@),
{
    let mut line = String::new();
    string_push(&mut line, '[');
    push_decimal(&mut line, id);
    string_push(&mut line, ']');
    string_push(&mut line, marker);
    string_push(&mut line, ' ');
    string_push(&mut line, ' ');
    proof {
        reveal_strlit("Done                    ");
    }
    assert("Done                    "@ =~= done_field());
    string_append(&mut line, "Done                    ");
    string_append(&mut line, name);
    assert(line@ =~= done_line_of(id, marker, name@));
    line
}

impl BackgroundJobRegistry {
    /// The running jobs by number.
    pub closed spec fn jobs_view(&self) -> Map<usize, BackgroundJob> {
        self.jobs@
    }

    /// The number the next registered job will get.
    pub closed spec fn next_id_view(&self) -> usize {
        self.next_id
    }

    /// The most recently started job still running (`+` in the listing), or `0`.
    pub closed spec fn last_id_view(&self) -> usize {
        self.last_id
    }

    /// The job marked `-` in the listing, or `0`.
    pub closed spec fn prev_id_view(&self) -> usize {
        self.prev_id
    }

    /// The finished jobs not yet reported, with their names, in order of completion.
    pub closed spec fn completed_view(&self) -> Seq<(usize, Seq<char>)> {
        self.completed@.map_values(|p: (usize, String)| (p.0, p.1@))
    }

    /// The marker that the listing shows for job `id`.
    pub open spec fn marker_of(&self, id: usize) -> char {
        if id == self.last_id_view() {
            '+'
        } else if id == self.prev_id_view() {
            '-'
        } else {
            ' '
        }
    }

    /// The running jobs' numbers in increasing order.
    pub open spec fn sorted_ids(&self) -> Seq<usize> {
        ids_below(self.jobs_view().dom(), self.next_id_view() as nat)
    }

    /// The registry is consistent: job numbers are positive and below the next
    /// number, the `+` and `-` jobs are distinct running jobs (or `0`), and a
    /// finished job not yet reported has such a number and is no running job.
    pub open spec fn inv(&self) -> bool {
        &&& self.next_id_view() >= 1
        &&& forall|k: usize| #[trigger]
            self.jobs_view().contains_key(k) ==> 1 <= k < self.next_id_view()
        &&& self.last_id_view() != 0 ==> self.jobs_view().contains_key(self.last_id_view())
        &&& self.prev_id_view() != 0 ==> self.jobs_view().contains_key(self.prev_id_view())
        &&& self.prev_id_view() != 0 ==> self.prev_id_view() != self.last_id_view()
        &&& forall|k: int|
            0 <= k < self.completed_view().len() ==> 1 <= (#[trigger] self.completed_view()[k]).0
                < self.next_id_view() && !self.jobs_view().contains_key(self.completed_view()[k].0)
    }

    /// `new` is the state of `register_job` with name `name` and command `cmd`
    /// applied to `old`, which returned `id`.
    pub open spec fn registered(old: &Self, new: &Self, name: Seq<char>, cmd: Seq<char>, id: usize) -> bool {
        &&& id == old.next_id_view()
        &&& new.next_id_view() == old.next_id_view() + 1
        &&& new.jobs_view().dom() == old.jobs_view().dom().insert(id)
        &&& forall|k: usize| k != id && #[trigger] old.jobs_view().contains_key(k) ==> new.jobs_view()[k] == old.jobs_view()[k]
        &&& new.jobs_view()[id].name_view() == name
        &&& new.jobs_view()[id].cmd_view() == cmd
        &&& new.last_id_view() == id
        &&& new.prev_id_view() == old.last_id_view()
        &&& new.completed_view() == old.completed_view()
    }

    /// `new` is the state of `mark_done(id)` applied to `old`.
    pub open spec fn marked_done(old: &Self, new: &Self, id: usize) -> bool {
        if old.jobs_view().contains_key(id) {
            &&& new.jobs_view() == old.jobs_view().remove(id)
            &&& new.next_id_view() == old.next_id_view()
            &&& new.completed_view() == old.completed_view().push((id, old.jobs_view()[id].name_view()))
            &&& if id == old.last_id_view() {
                &&& new.last_id_view() == old.prev_id_view()
                &&& is_max_other(new.jobs_view().dom(), new.last_id_view(), new.prev_id_view())
            } else if id == old.prev_id_view() {
                &&& new.last_id_view() == old.last_id_view()
                &&& new.prev_id_view() == 0
            } else {
                &&& new.last_id_view() == old.last_id_view()
                &&& new.prev_id_view() == old.prev_id_view()
            }
        } else {
            &&& new.jobs_view() == old.jobs_view()
            &&& new.next_id_view() == old.next_id_view()
            &&& new.last_id_view() == old.last_id_view()
            &&& new.prev_id_view() == old.prev_id_view()
            &&& new.completed_view() == old.completed_view()
        }
    }

    /// Whether `lines` is the job listing: one line per running job, in
    /// increasing number.
    pub open spec fn is_listing(&self, lines: Seq<Seq<char>>) -> bool {
        &&& lines.len() == self.sorted_ids().len()
        &&& forall|i: int|
            0 <= i < lines.len() ==> #[trigger] lines[i] == job_line(
                self.sorted_ids()[i],
                self.marker_of(self.sorted_ids()[i]),
                self.jobs_view()[self.sorted_ids()[i]].cmd_view(),
            )
    }

    /// An empty registry whose first job will be number 1.
    pub fn new() -> (r: Self)
        ensures
            r.inv(),
            r.jobs_view() == Map::<usize, BackgroundJob>::empty(),
            r.next_id_view() == 1,
            r.last_id_view() == 0,
            r.prev_id_view() == 0,
            r.completed_view() == Seq::<(usize, Seq<char>)>::empty(),
    {
        let r = Self { jobs: HashMap::new(), next_id: 1, last_id: 0, prev_id: 0, completed: Vec::new() };
        assert(r.completed_view() =~= Seq::<(usize, Seq<char>)>::empty());
        r
    }

    /// The number the next registered job will get.
    pub fn next_job_id(&self) -> (r: usize)
        ensures
            r == self.next_id_view(),
    {
        self.next_id
    }

    /// Registers a job under the next number and makes it the current job;
    /// the previous current job becomes the `-` job.
    pub fn register_job(&mut self, name: String, cmd: String) -> (id: usize)
        requires
            old(self).inv(),
            old(self).next_id_view() < usize::MAX,
        ensures
            final(self).inv(),
            Self::registered(&*old(self), &*final(self), name@, cmd@, id),
    {
        let job_id = self.next_id;
        self.next_id = self.next_id + 1;
        self.prev_id = self.last_id;
        self.last_id = job_id;
        self.jobs.insert(job_id, BackgroundJob { name, cmd });
        assert(self.jobs_view().dom() =~= old(self).jobs_view().dom().insert(job_id));
        assert forall|k: int| 0 <= k < self.completed_view().len() implies 1 <= (
        #[trigger] self.completed_view()[k]).0 < self.next_id_view() && !self.jobs_view().contains_key(
            self.completed_view()[k].0,
        ) by {
            assert(self.completed_view()[k] == old(self).completed_view()[k]);
            assert(!self.jobs_view().dom().contains(self.completed_view()[k].0));
        }
        job_id
    }

    /// Whether job `id` is running.
    fn has_job(&self, id: usize) -> (r: bool)
        ensures
            r == self.jobs_view().contains_key(id),
    {
        self.jobs.contains_key(&id)
    }

    /// The largest running job number other than `skip`, or `0`.
    fn max_other(&self, skip: usize) -> (m: usize)
        requires
            self.next_id_view() >= 1,
            forall|k: usize| #[trigger] self.jobs_view().contains_key(k) ==> 1 <= k < self.next_id_view(),
        ensures
            is_max_other(self.jobs_view().dom(), skip, m),
    {
        let n = self.next_id;
        let mut m: usize = 0;
        let mut k: usize = 1;
        while k < n
            invariant
                1 <= k <= n,
                n == self.next_id_view(),
                forall|j: usize| #[trigger] self.jobs_view().contains_key(j) ==> 1 <= j < n,
                m == 0 || (self.jobs_view().contains_key(m) && m != skip && m < k),
                forall|j: usize| 1 <= j < k && #[trigger] self.jobs_view().contains_key(j) && j != skip ==> j <= m,
            decreases n - k,
        {
            if k != skip && self.has_job(k) {
                m = k;
            }
            k = k + 1;
        }
        proof {
            if exists|j: usize| self.jobs_view().dom().contains(j) && j != skip {
                let j = choose|j: usize| self.jobs_view().dom().contains(j) && j != skip;
                assert(self.jobs_view().contains_key(j));
                assert(j <= m);
                assert(m != 0);
            }
        }
        m
    }

    fn update_markers_after_removal(&mut self, removed_id: usize)
        requires
            old(self).next_id_view() >= 1,
            forall|k: usize| #[trigger] old(self).jobs_view().contains_key(k) ==> 1 <= k < old(self).next_id_view(),
        ensures
            final(self).jobs_view() == old(self).jobs_view(),
            final(self).next_id_view() == old(self).next_id_view(),
            final(self).completed_view() == old(self).completed_view(),
            if removed_id == old(self).last_id_view() {
                &&& final(self).last_id_view() == old(self).prev_id_view()
                &&& is_max_other(final(self).jobs_view().dom(), final(self).last_id_view(), final(self).prev_id_view())
            } else if removed_id == old(self).prev_id_view() {
                &&& final(self).last_id_view() == old(self).last_id_view()
                &&& final(self).prev_id_view() == 0
            } else {
                &&& final(self).last_id_view() == old(self).last_id_view()
                &&& final(self).prev_id_view() == old(self).prev_id_view()
            },
    {
        if removed_id == self.last_id {
            self.last_id = self.prev_id;
            assert(self.jobs_view() == old(self).jobs_view());
            assert(self.next_id_view() == old(self).next_id_view());
            self.prev_id = self.max_other(self.last_id);
        } else if removed_id == self.prev_id {
            self.prev_id = 0;
        }
    }

    /// Marks job `job_id` as finished: it leaves the table, its name is queued
    /// for the next report, and the markers move on. Unknown numbers are ignored.
    pub fn mark_done(&mut self, job_id: usize)
        requires
            old(self).inv(),
        ensures
            final(self).inv(),
            Self::marked_done(&*old(self), &*final(self), job_id),
    {
        let ghost old_jobs = self.jobs_view();
        if let Some(job) = self.jobs.remove(&job_id) {
            assert(self.jobs_view() == old_jobs.remove(job_id));
            assert(old_jobs.contains_key(job_id));
            assert(forall|k: usize| #[trigger] self.jobs_view().contains_key(k) ==> old_jobs.contains_key(k));
            self.update_markers_after_removal(job_id);
            let ghost before = self.completed_view();
            self.completed.push((job_id, job.name));
            assert(self.completed_view() =~= before.push((job_id, job.name@)));
            assert(before == old(self).completed_view());
            assert forall|k: int| 0 <= k < self.completed_view().len() implies 1 <= (
            #[trigger] self.completed_view()[k]).0 < self.next_id_view() && !self.jobs_view().contains_key(
                self.completed_view()[k].0,
            ) by {
                if k < before.len() {
                    assert(self.completed_view()[k] == old(self).completed_view()[k]);
                    assert(!old_jobs.contains_key(self.completed_view()[k].0));
                } else {
                    assert(self.completed_view()[k].0 == job_id);
                    assert(!self.jobs_view().contains_key(job_id));
                }
            }
            assert(old_jobs[job_id] == job);
            assert(self.last_id_view() != 0 ==> self.jobs_view().contains_key(self.last_id_view()));
            assert(self.prev_id_view() != 0 ==> self.jobs_view().contains_key(self.prev_id_view()));
        } else {
            assert(!old_jobs.contains_key(job_id));
            assert(self.jobs_view() =~= old_jobs);
            assert(self.completed_view() == old(self).completed_view());
        }
    }

    /// Hands out the finished jobs not yet reported and forgets them.
    pub fn drain_completed(&mut self) -> (r: Vec<(usize, String)>)
        ensures
            r@.map_values(|p: (usize, String)| (p.0, p.1@)) == old(self).completed_view(),
            final(self).completed_view() == Seq::<(usize, Seq<char>)>::empty(),
            final(self).jobs_view() == old(self).jobs_view(),
            final(self).next_id_view() == old(self).next_id_view(),
            final(self).last_id_view() == old(self).last_id_view(),
            final(self).prev_id_view() == old(self).prev_id_view(),
            old(self).inv() ==> final(self).inv(),
    {
        let mut out: Vec<(usize, String)> = Vec::new();
        std::mem::swap(&mut out, &mut self.completed);
        assert(self.completed_view() =~= Seq::<(usize, Seq<char>)>::empty());
        out
    }

    /// The lines of the `jobs` listing, one per running job in increasing
    /// number: `[id]` with `+` for the current job and `-` for the previous one,
    /// `Running`, and the command followed by ` &`.
    pub fn list_jobs(&self) -> (r: Vec<String>)
        requires
            self.inv(),
        ensures
            self.is_listing(strings_view(r@)),
    {
        let n = self.next_id;
        let mut r: Vec<String> = Vec::new();
        let mut id: usize = 0;
        while id < n
            invariant
                id <= n == self.next_id_view(),
                r@.len() == ids_below(self.jobs_view().dom(), id as nat).len(),
                forall|i: int|
                    0 <= i < r@.len() ==> #[trigger] r@[i]@ == job_line(
                        ids_below(self.jobs_view().dom(), id as nat)[i],
                        self.marker_of(ids_below(self.jobs_view().dom(), id as nat)[i]),
                        self.jobs_view()[ids_below(self.jobs_view().dom(), id as nat)[i]].cmd_view(),
                    ),
            decreases n - id,
        {
            match self.jobs.get(&id) {
                Some(job) => {
                    let marker = if id == self.last_id {
                        '+'
                    } else if id == self.prev_id {
                        '-'
                    } else {
                        ' '
                    };
                    let line = Self::line_for(id, marker, &job.cmd);
                    r.push(line);
                },
                None => {},
            }
            id = id + 1;
        }
        assert(strings_view(r@).len() == r@.len());
        r
    }

    fn line_for(id: usize, marker: char, cmd: &String) -> (r: String)
        ensures
            r@ == job_line(id, marker, cmd@),
    {
        let mut line = String::new();
        string_push(&mut line, '[');
        push_decimal(&mut line, id);
        string_push(&mut line, ']');
        string_push(&mut line, marker);
        string_push(&mut line, ' ');
        string_push(&mut line, ' ');
        proof {
            reveal_strlit("Running                 ");
        }
        assert("Running                 "@ =~= running_field());
        string_append(&mut line, "Running                 ");
        string_append(&mut line, cmd.as_str());
        string_push(&mut line, ' ');
        string_push(&mut line, '&');
        assert(line@ =~= job_line(id, marker, cmd@));
        line
    }
}

} // verus!

verus! {

/// A registered job gets a number that no running job has and that is
/// larger than every running job's number; it becomes the `+` job and the
/// former `+` job becomes the `-` job.
pub proof fn law_register_fresh(
    before: &BackgroundJobRegistry,
    after: &BackgroundJobRegistry,
    name: Seq<char>,
    cmd: Seq<char>,
    id: usize,
)
    requires
        before.inv(),
        BackgroundJobRegistry::registered(before, after, name, cmd, id),
    ensures
        !before.jobs_view().contains_key(id),
        forall|k: usize| #[trigger] before.jobs_view().contains_key(k) ==> k < id,
        after.jobs_view().contains_key(id),
        after.marker_of(id) == '+',
        before.last_id_view() != 0 ==> after.marker_of(before.last_id_view()) == '-',
{
    assert(after.jobs_view().dom().contains(id));
}

/// A job marked done right after it was registered is reported, with its
/// name, by the next drain, and the running jobs are those before it was
/// registered.
pub proof fn law_done_after_register(
    a: &BackgroundJobRegistry,
    b: &BackgroundJobRegistry,
    c: &BackgroundJobRegistry,
    name: Seq<char>,
    cmd: Seq<char>,
    id: usize,
)
    requires
        a.inv(),
        BackgroundJobRegistry::registered(a, b, name, cmd, id),
        BackgroundJobRegistry::marked_done(b, c, id),
    ensures
        c.completed_view() == a.completed_view().push((id, name)),
        c.jobs_view() == a.jobs_view(),
{
    assert(b.jobs_view().dom().contains(id));
    assert(!a.jobs_view().contains_key(id));
    assert(c.jobs_view() =~= a.jobs_view()) by {
        assert forall|k: usize| #[trigger] c.jobs_view().dom().contains(k) <==> a.jobs_view().dom().contains(k) by {
            assert(b.jobs_view().dom().contains(k) <==> (a.jobs_view().dom().contains(k) || k == id));
        }
        assert forall|k: usize| #[trigger] c.jobs_view().contains_key(k) implies c.jobs_view()[k] == a.jobs_view()[k] by {
            assert(a.jobs_view().contains_key(k));
        }
    }
}

proof fn lemma_ids_below(dom: Set<usize>, n: nat)
    requires
        n <= usize::MAX,
    ensures
        forall|i: int, j: int| 0 <= i < j < ids_below(dom, n).len() ==> #[trigger] ids_below(dom, n)[i] < #[trigger] ids_below(dom, n)[j],
        forall|i: int| 0 <= i < ids_below(dom, n).len() ==> (#[trigger] ids_below(dom, n)[i]) < n,
        forall|k: usize| #[trigger] ids_below(dom, n).contains(k) <==> (dom.contains(k) && k < n),
    decreases n,
{
    if n > 0 {
        let m = (n - 1) as nat;
        lemma_ids_below(dom, m);
        let prev = ids_below(dom, m);
        if dom.contains((n - 1) as usize) {
            let cur = prev.push((n - 1) as usize);
            assert forall|i: int, j: int| 0 <= i < j < cur.len() implies #[trigger] cur[i] < #[trigger] cur[j] by {
                if j < prev.len() {
                    assert(cur[i] == prev[i] && cur[j] == prev[j]);
                } else {
                    assert(cur[i] == prev[i]);
                }
            }
            assert forall|k: usize| #[trigger] cur.contains(k) <==> (dom.contains(k) && k < n) by {
                if cur.contains(k) {
                    let i = choose|i: int| 0 <= i < cur.len() && cur[i] == k;
                    if i < prev.len() {
                        assert(prev[i] == k);
                        assert(prev.contains(k));
                    }
                }
                if dom.contains(k) && k < n {
                    if k == n - 1 {
                        assert(cur[prev.len() as int] == k);
                    } else {
                        assert(prev.contains(k));
                        let i = choose|i: int| 0 <= i < prev.len() && prev[i] == k;
                        assert(cur[i] == k);
                    }
                }
            }
        }
    }
}

/// The job listing shows each running job exactly once, in increasing
/// order of number.
pub proof fn law_listing_covers_jobs(r: &BackgroundJobRegistry)
    requires
        r.inv(),
    ensures
        forall|i: int, j: int| 0 <= i < j < r.sorted_ids().len() ==> #[trigger] r.sorted_ids()[i] < #[trigger] r.sorted_ids()[j],
        forall|k: usize| #[trigger] r.sorted_ids().contains(k) <==> r.jobs_view().contains_key(k),
{
    lemma_ids_below(r.jobs_view().dom(), r.next_id_view() as nat);
}

} // verus!

verus! {

/// An operation that changes the job registry.
pub enum JobOp {
    /// `register_job(name, cmd)`.
    Register(Seq<char>, Seq<char>),
    /// `mark_done(id)`.
    MarkDone(usize),
    /// `drain_completed()`.
    Drain,
}

/// `new` is the state of `drain_completed` applied to `old`.
pub open spec fn drained(old: &BackgroundJobRegistry, new: &BackgroundJobRegistry) -> bool {
    &&& new.completed_view() == Seq::<(usize, Seq<char>)>::empty()
    &&& new.jobs_view() == old.jobs_view()
    &&& new.next_id_view() == old.next_id_view()
    &&& new.last_id_view() == old.last_id_view()
    &&& new.prev_id_view() == old.prev_id_view()
}

/// `new` is the state of `op` applied to `old`, as the operations' contracts
/// describe it; a registration gets the number `old.next_id_view()`.
pub open spec fn job_step(op: JobOp, old: &BackgroundJobRegistry, new: &BackgroundJobRegistry) -> bool {
    match op {
        JobOp::Register(name, cmd) => BackgroundJobRegistry::registered(old, new, name, cmd, old.next_id_view()),
        JobOp::MarkDone(id) => BackgroundJobRegistry::marked_done(old, new, id),
        JobOp::Drain => drained(old, new),
    }
}

/// The state that `BackgroundJobRegistry::new` gives.
pub open spec fn is_fresh_registry(r: &BackgroundJobRegistry) -> bool {
    &&& r.jobs_view() == Map::<usize, BackgroundJob>::empty()
    &&& r.next_id_view() == 1
    &&& r.last_id_view() == 0
    &&& r.prev_id_view() == 0
    &&& r.completed_view() == Seq::<(usize, Seq<char>)>::empty()
}

/// How many registrations `ops` holds.
pub open spec fn registrations(ops: Seq<JobOp>) -> nat
    decreases ops.len(),
{
    if ops.len() == 0 {
        0
    } else {
        registrations(ops.drop_last()) + if ops.last() is Register {
            1nat
        } else {
            0nat
        }
    }
}

proof fn lemma_step(op: JobOp, old: &BackgroundJobRegistry, new: &BackgroundJobRegistry)
    requires
        old.inv(),
        job_step(op, old, new),
    ensures
        new.inv(),
        new.next_id_view() == old.next_id_view() + if op is Register {
            1int
        } else {
            0int
        },
{
    match op {
        JobOp::Register(name, cmd) => {
            let id = old.next_id_view();
            assert(new.jobs_view().dom().contains(id));
            assert forall|k: usize| #[trigger] new.jobs_view().contains_key(k) implies 1 <= k < new.next_id_view() by {
                assert(new.jobs_view().dom().contains(k));
                if k != id {
                    assert(old.jobs_view().dom().contains(k));
                }
            }
            if new.prev_id_view() != 0 {
                assert(old.jobs_view().contains_key(old.last_id_view()));
                assert(new.jobs_view().dom().contains(old.last_id_view()));
            }
        },
        JobOp::MarkDone(id) => {
            if old.jobs_view().contains_key(id) {
                assert forall|k: usize| #[trigger] new.jobs_view().contains_key(k) implies 1 <= k < new.next_id_view() by {
                    assert(old.jobs_view().contains_key(k));
                }
                if id == old.last_id_view() {
                    if new.last_id_view() != 0 {
                        assert(old.jobs_view().contains_key(old.prev_id_view()));
                        assert(new.jobs_view().dom().contains(new.last_id_view()));
                    }
                    if new.prev_id_view() != 0 {
                        assert(new.jobs_view().dom().contains(new.prev_id_view()));
                    }
                } else if id == old.prev_id_view() {
                    if new.last_id_view() != 0 {
                        assert(new.jobs_view().dom().contains(new.last_id_view()));
                    }
                } else {
                    if new.last_id_view() != 0 {
                        assert(new.jobs_view().dom().contains(new.last_id_view()));
                    }
                    if new.prev_id_view() != 0 {
                        assert(new.jobs_view().dom().contains(new.prev_id_view()));
                    }
                }
            }
        },
        JobOp::Drain => {},
    }
}

proof fn lemma_run(states: Seq<BackgroundJobRegistry>, ops: Seq<JobOp>)
    requires
        states.len() == ops.len() + 1,
        is_fresh_registry(&states[0]),
        forall|i: int| 0 <= i < ops.len() ==> job_step(#[trigger] ops[i], &states[i], &states[i + 1]),
    ensures
        forall|i: int|
            0 <= i <= ops.len() ==> (#[trigger] states[i]).inv() && states[i].next_id_view() == registrations(
                ops.take(i),
            ) + 1,
    decreases ops.len(),
{
    if ops.len() == 0 {
        assert(ops.take(0) =~= Seq::<JobOp>::empty());
    } else {
        let k = ops.len() - 1;
        let s0 = states.drop_last();
        let o0 = ops.drop_last();
        assert forall|i: int| 0 <= i < o0.len() implies job_step(#[trigger] o0[i], &s0[i], &s0[i + 1]) by {
            assert(o0[i] == ops[i] && s0[i] == states[i] && s0[i + 1] == states[i + 1]);
        }
        lemma_run(s0, o0);
        assert forall|i: int| 0 <= i <= ops.len() implies (#[trigger] states[i]).inv()
            && states[i].next_id_view() == registrations(ops.take(i)) + 1 by {
            if i <= k {
                assert(s0[i] == states[i]);
                assert(o0.take(i) =~= ops.take(i));
            } else {
                assert(s0[k] == states[k]);
                assert(o0.take(k) =~= ops.take(k));
                assert(job_step(ops[k], &states[k], &states[k + 1]));
                lemma_step(ops[k], &states[k], &states[k + 1]);
                assert(ops.take(i).drop_last() =~= ops.take(k));
                assert(ops.take(i).last() == ops[k]);
            }
        }
    }
}

proof fn lemma_numbers_grow(states: Seq<BackgroundJobRegistry>, ops: Seq<JobOp>, i: int, j: int)
    requires
        states.len() == ops.len() + 1,
        0 <= i <= j <= ops.len(),
        forall|k: int| 0 <= k <= ops.len() ==> (#[trigger] states[k]).inv(),
        forall|k: int| 0 <= k < ops.len() ==> job_step(#[trigger] ops[k], &states[k], &states[k + 1]),
    ensures
        states[i].next_id_view() <= states[j].next_id_view(),
    decreases j - i,
{
    if i < j {
        assert(job_step(ops[i], &states[i], &states[i + 1]));
        lemma_step(ops[i], &states[i], &states[i + 1]);
        lemma_numbers_grow(states, ops, i + 1, j);
    }
}

/// Over any run of operations from a new registry: after the first `i`
/// operations the next number is one more than the registrations among them,
/// so the `k`-th registration gets number `k`; numbers are never given twice,
/// even after jobs finish; a registered job's number is not that of a running
/// job, the job holds its command and is marked `+`, and the former `+` job is
/// marked `-`; and the registry stays consistent throughout.
pub proof fn law_job_numbering(states: Seq<BackgroundJobRegistry>, ops: Seq<JobOp>)
    requires
        states.len() == ops.len() + 1,
        is_fresh_registry(&states[0]),
        forall|i: int| 0 <= i < ops.len() ==> job_step(#[trigger] ops[i], &states[i], &states[i + 1]),
    ensures
        forall|i: int|
            0 <= i <= ops.len() ==> (#[trigger] states[i]).inv() && states[i].next_id_view() == registrations(
                ops.take(i),
            ) + 1,
        forall|i: int, j: int|
            0 <= i < j < ops.len() && (#[trigger] ops[i]) is Register && (#[trigger] ops[j]) is Register
                ==> states[i].next_id_view() < states[j].next_id_view(),
        forall|i: int|
            0 <= i < ops.len() && (#[trigger] ops[i]) is Register ==> {
                let id = states[i].next_id_view();
                &&& !states[i].jobs_view().contains_key(id)
                &&& states[i + 1].jobs_view().contains_key(id)
                &&& states[i + 1].jobs_view()[id].cmd_view() == ops[i]->Register_1
                &&& states[i + 1].marker_of(id) == '+'
                &&& states[i].last_id_view() != 0 ==> states[i + 1].marker_of(states[i].last_id_view()) == '-'
            },
{
    lemma_run(states, ops);
    assert forall|i: int, j: int|
        0 <= i < j < ops.len() && (#[trigger] ops[i]) is Register && (#[trigger] ops[j]) is Register
            implies states[i].next_id_view() < states[j].next_id_view() by {
        assert(states[i].inv());
        assert(job_step(ops[i], &states[i], &states[i + 1]));
        lemma_step(ops[i], &states[i], &states[i + 1]);
        lemma_numbers_grow(states, ops, i + 1, j);
    }
    assert forall|i: int| 0 <= i < ops.len() && (#[trigger] ops[i]) is Register implies {
        let id = states[i].next_id_view();
        &&& !states[i].jobs_view().contains_key(id)
        &&& states[i + 1].jobs_view().contains_key(id)
        &&& states[i + 1].jobs_view()[id].cmd_view() == ops[i]->Register_1
        &&& states[i + 1].marker_of(id) == '+'
        &&& states[i].last_id_view() != 0 ==> states[i + 1].marker_of(states[i].last_id_view()) == '-'
    } by {
        assert(states[i].inv());
        assert(job_step(ops[i], &states[i], &states[i + 1]));
        match ops[i] {
            JobOp::Register(name, cmd) => {
                law_register_fresh(&states[i], &states[i + 1], name, cmd, states[i].next_id_view());
            },
            _ => {},
        }
    }
}

} // verus!
