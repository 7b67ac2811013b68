//! The crawl orchestrator as a state machine. A driver asks for the next
//! action, performs the fetches it is told to (as many at a time as the
//! limiter allows), and hands each outcome back; the crawler scans the page,
//! resolves and filters its links and queues one child task per link with
//! one hop less. The run is complete when nothing is queued and nothing is
//! in flight.
//!
//! Depth counts the hops left: a task with zero hops left is still fetched
//! and scanned, and dispatches no children. A URL is handed out for
//! fetching only if its normalized form has not been visited; the check
//! and the insertion are one step of the visited set.
use vstd::prelude::*;
use crate::frontier::Frontier;
use crate::limiter::Limiter;
use crate::links::{
    anchor_hrefs, extract_links, followable, is_followable, normalize_url, normalized, resolve,
    resolved,
};
use crate::scanner::{check_for_vulnerabilities, fired_rules, Finding, Header};

verus! {

/// Visit `url` with `depth` hops left.
pub struct CrawlTask {
    pub url: String,
    pub depth: u32,
}

/// What the driver is to do next.
pub enum Action {
    /// Fetch `url`, then report the outcome under `id`.
    Fetch { id: usize, url: String, depth: u32 },
    /// Every permit is out: wait for a fetch in flight to complete.
    Wait,
    /// Nothing is queued and nothing is in flight: the run is complete.
    Done,
}

/// The outcome of one fetch.
pub enum FetchOutcome {
    /// The response's headers and its body as text.
    Page { headers: Vec<Header>, body: String },
    /// The fetch failed (network, DNS, timeout, a body that is not text).
    Failed,
}

/// An outcome was reported under an id that is not in flight.
#[derive(PartialEq, Eq, Structural, Clone, Copy, Debug)]
pub enum CompleteError {
    UnknownTask,
}

struct InFlight {
    id: usize,
    task: CrawlTask,
}

pub struct Crawler {
    frontier: Frontier,
    limiter: Limiter,
    queue: Vec<CrawlTask>,
    in_flight: Vec<InFlight>,
    seed_depth: u32,
    seed: Ghost<Seq<char>>,
    dispatched: Ghost<nat>,
}

pub open spec fn task_view(t: CrawlTask) -> (Seq<char>, u32) {
    (t.url@, t.depth)
}

/// The child tasks that links to `urls` give, from a page with `depth`
/// hops left: none at depth zero, else one for each followable URL, in
/// order, with one hop less.
pub open spec fn child_tasks(urls: Seq<Seq<char>>, depth: u32) -> Seq<(Seq<char>, u32)> {
    if depth == 0 {
        Seq::empty()
    } else {
        urls.filter(|u: Seq<char>| followable(u)).map_values(|u: Seq<char>| (u, (depth - 1) as u32))
    }
}

pub open spec fn strings_view(v: Seq<String>) -> Seq<Seq<char>> {
    v.map_values(|s: String| s@)
}

proof fn lemma_push_map_values<A, B>(s: Seq<A>, x: A, g: spec_fn(A) -> B)
    ensures
        s.push(x).map_values(g) == s.map_values(g).push(g(x)),
{
    assert(s.push(x).map_values(g) =~= s.map_values(g).push(g(x)));
}

/// Resolves each of `hrefs` against `base`, in order.
pub fn resolve_all(base: &str, hrefs: &Vec<String>) -> (r: Vec<String>)
    ensures
        strings_view(r@) == strings_view(hrefs@).map_values(|h: Seq<char>| resolved(base@, h)),
{
    let mut out: Vec<String> = Vec::new();
    let mut i: usize = 0;
    while i < hrefs.len()
        invariant
            i <= hrefs@.len(),
            out@.len() == i,
            forall|j: int| 0 <= j < i ==> (#[trigger] out@[j])@ == resolved(base@, hrefs@[j]@),
        decreases hrefs@.len() - i,
    {
        out.push(resolve(base, hrefs[i].as_str()));
        i = i + 1;
    }
    assert(strings_view(out@) =~= strings_view(hrefs@).map_values(|h: Seq<char>| resolved(base@, h)));
    out
}

impl Crawler {
    /// The queued tasks, as (URL, hops left).
    pub closed spec fn queued(&self) -> Seq<(Seq<char>, u32)> {
        self.queue@.map_values(|t: CrawlTask| task_view(t))
    }

    /// The tasks in flight, as (id, URL, hops left), oldest first.
    pub closed spec fn running(&self) -> Seq<(usize, Seq<char>, u32)> {
        self.in_flight@.map_values(|f: InFlight| (f.id, f.task.url@, f.task.depth))
    }

    /// The normalized URLs handed out for fetching, in order.
    pub closed spec fn visited(&self) -> Seq<Seq<char>> {
        self.frontier@
    }

    pub closed spec fn capacity(&self) -> nat {
        self.limiter.capacity_spec()
    }

    pub closed spec fn cancelled(&self) -> bool {
        self.limiter.is_closed()
    }

    pub closed spec fn start_depth(&self) -> u32 {
        self.seed_depth
    }

    pub closed spec fn start_url(&self) -> Seq<char> {
        self.seed@
    }

    /// How many child tasks have been queued so far.
    pub closed spec fn children(&self) -> nat {
        self.dispatched@
    }

    pub closed spec fn wf(&self) -> bool {
        &&& self.frontier.wf()
        &&& self.limiter.wf()
        &&& self.limiter.capacity_spec() >= 1
        &&& self.limiter.held_spec() == self.in_flight@.len()
        &&& forall|k: int|
            0 <= k < self.in_flight@.len() ==> {
                let f = #[trigger] self.in_flight@[k];
                &&& f.id < self.frontier@.len()
                &&& self.frontier@[f.id as int] == normalized(f.task.url@)
                &&& f.task.depth <= self.seed_depth
            }
        &&& forall|a: int, b: int|
            0 <= a < b < self.in_flight@.len() ==> (#[trigger] self.in_flight@[a]).id
                < (#[trigger] self.in_flight@[b]).id
        &&& forall|k: int|
            0 <= k < self.queue@.len() ==> (#[trigger] self.queue@[k]).depth <= self.seed_depth
        &&& self.seed_depth == 0 ==> {
            &&& self.dispatched@ == 0
            &&& forall|k: int|
                0 <= k < self.queue@.len() ==> (#[trigger] self.queue@[k]).url@ == self.seed@
            &&& forall|k: int|
                0 <= k < self.in_flight@.len() ==> (#[trigger] self.in_flight@[k]).task.url@
                    == self.seed@
            &&& forall|k: int|
                0 <= k < self.frontier@.len() ==> #[trigger] self.frontier@[k] == normalized(
                    self.seed@,
                )
        }
    }

    /// A run from `seed` with `depth` hops and at most `capacity` fetches in
    /// flight at once.
    pub fn new(seed: String, depth: u32, capacity: usize) -> (c: Crawler)
        requires
            capacity >= 1,
        ensures
            c.wf(),
            c.queued() == seq![(seed@, depth)],
            c.running().len() == 0,
            c.visited().len() == 0,
            c.capacity() == capacity,
            !c.cancelled(),
            c.start_depth() == depth,
            c.start_url() == seed@,
            c.children() == 0,
    {
        let ghost s = seed@;
        let queue = vec![CrawlTask { url: seed, depth }];
        let c = Crawler {
            frontier: Frontier::new(),
            limiter: Limiter::new(capacity),
            queue,
            in_flight: Vec::new(),
            seed_depth: depth,
            seed: Ghost(s),
            dispatched: Ghost(0),
        };
        assert(c.queued() =~= seq![(s, depth)]);
        c
    }

    /// How many tasks are queued.
    pub fn pending(&self) -> (n: usize)
        ensures
            n == self.queued().len(),
    {
        self.queue.len()
    }

    /// How many fetches are in flight.
    pub fn in_flight(&self) -> (n: usize)
        ensures
            n == self.running().len(),
    {
        self.in_flight.len()
    }

    /// How many URLs have been handed out for fetching.
    pub fn visited_count(&self) -> (n: usize)
        ensures
            n == self.visited().len(),
    {
        self.frontier.len()
    }

    /// Queues the child tasks that a page with `depth` hops left gives for
    /// the resolved link targets `urls`.
    pub fn enqueue_children(&mut self, depth: u32, urls: &Vec<String>)
        requires
            old(self).wf(),
            depth <= old(self).start_depth(),
        ensures
            final(self).wf(),
            final(self).queued() == old(self).queued() + child_tasks(strings_view(urls@), depth),
            final(self).children() == old(self).children() + child_tasks(
                strings_view(urls@),
                depth,
            ).len(),
            final(self).running() == old(self).running(),
            final(self).visited() == old(self).visited(),
            final(self).capacity() == old(self).capacity(),
            final(self).cancelled() == old(self).cancelled(),
            final(self).start_depth() == old(self).start_depth(),
            final(self).start_url() == old(self).start_url(),
    {
        if depth == 0 {
            assert(old(self).queued() + child_tasks(strings_view(urls@), depth) =~= old(self).queued());
            return;
        }
        let next: u32 = depth - 1;
        let ghost f = |u: Seq<char>| followable(u);
        let ghost g = |u: Seq<char>| (u, next);
        let ghost uv = strings_view(urls@);
        let mut i: usize = 0;
        while i < urls.len()
            invariant
                self.wf(),
                0 < depth <= self.seed_depth,
                next == depth - 1,
                f == (|u: Seq<char>| followable(u)),
                g == (|u: Seq<char>| (u, next)),
                uv == strings_view(urls@),
                i <= urls@.len(),
                self.queued() == old(self).queued() + uv.subrange(0, i as int).filter(f).map_values(g),
                self.dispatched@ == old(self).children() + uv.subrange(0, i as int).filter(f).len(),
                self.running() == old(self).running(),
                self.frontier == old(self).frontier,
                self.limiter == old(self).limiter,
                self.seed_depth == old(self).seed_depth,
                self.seed == old(self).seed,
            decreases urls@.len() - i,
        {
            let ghost pre = uv.subrange(0, i as int);
            proof {
                assert(uv.subrange(0, i + 1) =~= pre.push(uv[i as int]));
                pre.lemma_filter_push(uv[i as int], f);
            }
            proof {
                assert(urls@[i as int]@ == uv[i as int]);
            }
            let keep = is_followable(urls[i].as_str());
            if keep {
                let ghost q = self.queued();
                proof {
                    assert(f(uv[i as int]));
                    assert(pre.push(uv[i as int]).filter(f) == pre.filter(f).push(uv[i as int]));
                    lemma_push_map_values(pre.filter(f), uv[i as int], g);
                }
                self.queue.push(CrawlTask { url: urls[i].clone(), depth: next });
                self.dispatched = Ghost(self.dispatched@ + 1);
                proof {
                    assert(self.queued() =~= q.push((uv[i as int], next)));
                    assert(self.queued() =~= old(self).queued() + pre.push(uv[i as int]).filter(
                        f,
                    ).map_values(g));
                }
            } else {
                proof {
                    assert(!f(uv[i as int]));
                    assert(pre.push(uv[i as int]).filter(f) == pre.filter(f));
                }
            }
            i = i + 1;
        }
        proof {
            assert(uv.subrange(0, urls@.len() as int) =~= uv);
            assert(child_tasks(uv, depth) == uv.filter(f).map_values(g));
        }
    }

    /// The tasks of the queue from position `m` on were all already
    /// visited (or the run was cancelled).
    pub open spec fn skipped_visited(&self, m: int, old_queue: Seq<(Seq<char>, u32)>) -> bool {
        forall|j: int|
            m <= j < old_queue.len() ==> self.cancelled() || self.visited().contains(
                normalized(#[trigger] old_queue[j].0),
            )
    }

    /// Decides what the driver does next. Queued tasks whose URL is already
    /// visited are dropped; the next task that is not is admitted when a
    /// permit is free. Once the run is cancelled the queue is dropped and no
    /// task is admitted.
    pub fn next_action(&mut self) -> (a: Action)
        requires
            old(self).wf(),
        ensures
            final(self).wf(),
            final(self).capacity() == old(self).capacity(),
            final(self).cancelled() == old(self).cancelled(),
            final(self).start_depth() == old(self).start_depth(),
            final(self).start_url() == old(self).start_url(),
            final(self).children() == old(self).children(),
            final(self).queued() == old(self).queued().subrange(0, final(self).queued().len() as int),
            match a {
                Action::Fetch { id, url, depth } => {
                    let m = final(self).queued().len() as int;
                    &&& !old(self).cancelled()
                    &&& m < old(self).queued().len()
                    &&& old(self).queued()[m] == (url@, depth)
                    &&& !old(self).visited().contains(normalized(url@))
                    &&& final(self).visited() == old(self).visited().push(normalized(url@))
                    &&& id == old(self).visited().len()
                    &&& old(self).running().len() < old(self).capacity()
                    &&& final(self).running() == old(self).running().push((id, url@, depth))
                    &&& old(self).skipped_visited(m + 1, old(self).queued())
                },
                Action::Wait => {
                    &&& final(self).visited() == old(self).visited()
                    &&& final(self).running() == old(self).running()
                    &&& final(self).running().len() > 0
                    &&& old(self).cancelled() || final(self).queued().len() == 0
                        || final(self).running().len() == final(self).capacity()
                    &&& final(self).skipped_visited(
                        final(self).queued().len() as int,
                        old(self).queued(),
                    )
                },
                Action::Done => {
                    &&& final(self).visited() == old(self).visited()
                    &&& final(self).running() == old(self).running()
                    &&& final(self).queued().len() == 0
                    &&& final(self).running().len() == 0
                    &&& final(self).skipped_visited(0, old(self).queued())
                },
            },
    {
        loop
            invariant
                self.wf(),
                self.capacity() == old(self).capacity(),
                self.cancelled() == old(self).cancelled(),
                self.seed_depth == old(self).seed_depth,
                self.seed == old(self).seed,
                self.dispatched == old(self).dispatched,
                self.visited() == old(self).visited(),
                self.running() == old(self).running(),
                self.queue@.len() <= old(self).queue@.len(),
                self.queued() == old(self).queued().subrange(0, self.queued().len() as int),
                self.skipped_visited(self.queued().len() as int, old(self).queued()),
            decreases self.queue@.len(),
        {
            if self.queue.len() == 0 {
                if self.in_flight.len() == 0 {
                    return Action::Done;
                }
                return Action::Wait;
            }
            match self.limiter.try_acquire() {
                Err(_) => {
                    self.queue = Vec::new();
                    assert(self.queued() =~= old(self).queued().subrange(0, 0));
                    if self.in_flight.len() == 0 {
                        return Action::Done;
                    }
                    return Action::Wait;
                },
                Ok(false) => {
                    return Action::Wait;
                },
                Ok(true) => {},
            }
            let ghost q = self.queued();
            let task = self.queue.pop().unwrap();
            proof {
                assert(self.queued() =~= q.subrange(0, q.len() - 1));
                assert(q[q.len() - 1] == task_view(task));
                assert(self.queued() =~= old(self).queued().subrange(0, self.queued().len() as int));
                assert(old(self).queued()[self.queued().len() as int] == task_view(task));
            }
            let key = normalize_url(task.url.as_str());
            let id = self.frontier.len();
            if self.frontier.try_visit(key) {
                let ghost r = self.running();
                let url = task.url.clone();
                let depth = task.depth;
                self.in_flight.push(InFlight { id, task });
                proof {
                    assert(self.running() =~= r.push((id, url@, depth)));
                    assert forall|j: int|
                        self.queued().len() + 1 <= j < old(self).queued().len() implies self.cancelled()
                        || self.visited().contains(normalized(#[trigger] old(self).queued()[j].0)) by {
                        assert(old(self).visited().contains(normalized(old(self).queued()[j].0)));
                        let w = choose|w: int|
                            0 <= w < old(self).visited().len() && old(self).visited()[w] == normalized(
                                old(self).queued()[j].0,
                            );
                        assert(self.visited()[w] == old(self).visited()[w]);
                    }
                }
                return Action::Fetch { id, url, depth };
            } else {
                self.limiter.release();
            }
        }
    }

    /// Cancels the run: no further task is admitted; fetches in flight may
    /// still complete.
    pub fn cancel(&mut self)
        requires
            old(self).wf(),
        ensures
            final(self).wf(),
            final(self).cancelled(),
            final(self).queued() == old(self).queued(),
            final(self).running() == old(self).running(),
            final(self).visited() == old(self).visited(),
            final(self).capacity() == old(self).capacity(),
            final(self).start_depth() == old(self).start_depth(),
            final(self).start_url() == old(self).start_url(),
            final(self).children() == old(self).children(),
    {
        self.limiter.close();
    }

    /// Where the task with `id` stands among those in flight.
    fn find_in_flight(&self, id: usize) -> (r: Option<usize>)
        ensures
            r matches Some(k) ==> k < self.running().len() && self.running()[k as int].0 == id,
            r is None ==> !self.is_running(id),
    {
        let mut k: usize = 0;
        while k < self.in_flight.len()
            invariant
                k <= self.in_flight@.len(),
                forall|j: int| 0 <= j < k ==> self.in_flight@[j].id != id,
            decreases self.in_flight@.len() - k,
        {
            if self.in_flight[k].id == id {
                return Some(k);
            }
            k = k + 1;
        }
        None
    }

    /// A fetch with this id is in flight.
    pub open spec fn is_running(&self, id: usize) -> bool {
        exists|k: int| 0 <= k < self.running().len() && self.running()[k].0 == id
    }

    /// Where the fetch with this id stands among those in flight.
    pub open spec fn slot(&self, id: usize) -> int {
        choose|k: int| 0 <= k < self.running().len() && self.running()[k].0 == id
    }

    /// Takes the outcome of the fetch handed out under `id`: its permit is
    /// given back and, for a page, its headers are scanned and its links
    /// dispatched; the findings are returned. Fails with `UnknownTask`,
    /// changing nothing, when no fetch is in flight under `id`.
    pub fn complete(&mut self, id: usize, outcome: FetchOutcome) -> (r: Result<
        Vec<Finding>,
        CompleteError,
    >)
        requires
            old(self).wf(),
        ensures
            final(self).wf(),
            final(self).visited() == old(self).visited(),
            final(self).capacity() == old(self).capacity(),
            final(self).cancelled() == old(self).cancelled(),
            final(self).start_depth() == old(self).start_depth(),
            final(self).start_url() == old(self).start_url(),
            r is Err <==> !old(self).is_running(id),
            r is Err ==> final(self).queued() == old(self).queued() && final(self).running()
                == old(self).running() && final(self).children() == old(self).children(),
            r matches Ok(fs) ==> {
                let k = old(self).slot(id);
                let url = old(self).running()[k].1;
                let depth = old(self).running()[k].2;
                &&& final(self).running() == old(self).running().remove(k)
                &&& match outcome {
                    FetchOutcome::Failed => {
                        &&& fs@.len() == 0
                        &&& final(self).queued() == old(self).queued()
                        &&& final(self).children() == old(self).children()
                    },
                    FetchOutcome::Page { headers, body } => {
                        let kids = child_tasks(
                            anchor_hrefs(body@).map_values(|h: Seq<char>| resolved(url, h)),
                            depth,
                        );
                        &&& fs@.map_values(|f: Finding| f.rule) == fired_rules(headers@)
                        &&& forall|i: int| 0 <= i < fs@.len() ==> (#[trigger] fs@[i]).url@ == url
                        &&& final(self).queued() == old(self).queued() + kids
                        &&& final(self).children() == old(self).children() + kids.len()
                    },
                }
            },
    {
        let k = match self.find_in_flight(id) {
            Some(k) => k,
            None => {
                return Err(CompleteError::UnknownTask);
            },
        };
        proof {
            let j = self.slot(id);
            if j < k {
                assert(self.in_flight@[j].id < self.in_flight@[k as int].id);
            } else if j > k {
                assert(self.in_flight@[k as int].id < self.in_flight@[j].id);
            }
        }
        let ghost r = self.running();
        let done = self.in_flight.remove(k);
        self.limiter.release();
        proof {
            assert(self.running() =~= r.remove(k as int));
            assert forall|a: int, b: int|
                0 <= a < b < self.in_flight@.len() implies (#[trigger] self.in_flight@[a]).id
                < (#[trigger] self.in_flight@[b]).id by {
                let a0 = if a < k { a } else { a + 1 };
                let b0 = if b < k { b } else { b + 1 };
                assert(self.in_flight@[a] == old(self).in_flight@[a0]);
                assert(self.in_flight@[b] == old(self).in_flight@[b0]);
            }
            assert forall|j: int| 0 <= j < self.in_flight@.len() implies {
                let f = #[trigger] self.in_flight@[j];
                &&& f.id < self.frontier@.len()
                &&& self.frontier@[f.id as int] == normalized(f.task.url@)
                &&& f.task.depth <= self.seed_depth
                &&& self.seed_depth == 0 ==> f.task.url@ == self.seed@
            } by {
                let j0 = if j < k { j } else { j + 1 };
                assert(self.in_flight@[j] == old(self).in_flight@[j0]);
            }
        }
        match outcome {
            FetchOutcome::Failed => Ok(Vec::new()),
            FetchOutcome::Page { headers, body } => {
                let url = done.task.url;
                let findings = check_for_vulnerabilities(&headers, url.as_str());
                let hrefs = extract_links(body.as_str());
                let urls = resolve_all(url.as_str(), &hrefs);
                proof {
                    assert(strings_view(hrefs@) == anchor_hrefs(body@));
                }
                self.enqueue_children(done.task.depth, &urls);
                Ok(findings)
            },
        }
    }
}

/// No normalized URL is handed out for fetching twice in a run: each
/// `Fetch` appends its URL's normalized form to `visited()` (see
/// `next_action`), and `visited()` never holds one twice.
pub proof fn lemma_fetched_at_most_once(c: &Crawler)
    requires
        c.wf(),
    ensures
        c.visited().no_duplicates(),
{
}

/// At every state of a run, the fetches in flight (each holding a permit)
/// are no more than the limiter's capacity.
pub proof fn lemma_in_flight_within_capacity(c: &Crawler)
    requires
        c.wf(),
    ensures
        c.running().len() <= c.capacity(),
{
}

/// A run started with depth zero fetches the seed URL and nothing else, and
/// dispatches no child task.
pub proof fn lemma_depth_zero_run(c: &Crawler)
    requires
        c.wf(),
        c.start_depth() == 0,
    ensures
        c.children() == 0,
        c.visited().len() <= 1,
        forall|i: int| 0 <= i < c.visited().len() ==> #[trigger] c.visited()[i] == normalized(c.start_url()),
        forall|i: int| 0 <= i < c.queued().len() ==> (#[trigger] c.queued()[i]).0 == c.start_url(),
        forall|i: int| 0 <= i < c.running().len() ==> (#[trigger] c.running()[i]).1 == c.start_url(),
{
    if c.visited().len() > 1 {
        assert(c.visited()[0] == c.visited()[1]);
    }
    assert forall|i: int| 0 <= i < c.queued().len() implies (#[trigger] c.queued()[i]).0
        == c.start_url() by {
        assert(c.queue@[i].url@ == c.seed@);
    }
    assert forall|i: int| 0 <= i < c.running().len() implies (#[trigger] c.running()[i]).1
        == c.start_url() by {
        assert(c.in_flight@[i].task.url@ == c.seed@);
    }
}

/// Every task of a run, queued or in flight, has between zero and the
/// starting depth hops left.
pub proof fn lemma_depths_in_range(c: &Crawler)
    requires
        c.wf(),
    ensures
        forall|i: int|
            0 <= i < c.queued().len() ==> 0 <= (#[trigger] c.queued()[i]).1 <= c.start_depth(),
        forall|i: int|
            0 <= i < c.running().len() ==> 0 <= (#[trigger] c.running()[i]).2 <= c.start_depth(),
{
    assert forall|i: int| 0 <= i < c.queued().len() implies 0 <= (#[trigger] c.queued()[i]).1
        <= c.start_depth() by {
        assert(c.queue@[i].depth <= c.seed_depth);
    }
    assert forall|i: int| 0 <= i < c.running().len() implies 0 <= (#[trigger] c.running()[i]).2
        <= c.start_depth() by {
        assert(c.in_flight@[i].task.depth <= c.seed_depth);
    }
}

/// A child task is only ever dispatched from a page with hops left, and
/// has exactly one hop less.
pub proof fn lemma_child_depth(urls: Seq<Seq<char>>, depth: u32)
    ensures
        depth == 0 ==> child_tasks(urls, depth).len() == 0,
        forall|i: int|
            0 <= i < child_tasks(urls, depth).len() ==> (#[trigger] child_tasks(urls, depth)[i]).1
                == depth - 1,
{
}

/// No child task is dispatched for a `mailto:`, `javascript:` or `tel:`
/// link: such links are dropped before they are queued.
pub proof fn lemma_children_followable(urls: Seq<Seq<char>>, depth: u32)
    ensures
        forall|i: int|
            0 <= i < child_tasks(urls, depth).len() ==> followable(
                (#[trigger] child_tasks(urls, depth)[i]).0,
            ),
{
    let f = |u: Seq<char>| followable(u);
    assert forall|i: int| 0 <= i < child_tasks(urls, depth).len() implies followable(
        (#[trigger] child_tasks(urls, depth)[i]).0,
    ) by {
        urls.lemma_filter_pred(f, i);
    }
}

/// The fetches of a run are bounded by the distinct normalized URLs it can
/// reach: when every visited URL lies in a finite set `reach`, at most
/// `reach.len()` fetches have been handed out.
pub proof fn lemma_fetches_bounded(c: &Crawler, reach: Set<Seq<char>>)
    requires
        c.wf(),
        reach.finite(),
        forall|i: int| 0 <= i < c.visited().len() ==> reach.contains(#[trigger] c.visited()[i]),
    ensures
        c.visited().len() <= reach.len(),
{
    c.visited().unique_seq_to_set();
    assert(c.visited().to_set().subset_of(reach));
    vstd::set_lib::lemma_len_subset(c.visited().to_set(), reach);
}

} // verus!
