//! Command buffers: tasks are recorded in chains, chains are linked and fenced, and the whole
//! buffer is baked into one list of tasks whose semaphores encode the recorded order.
use vstd::prelude::*;
use std::sync::Arc;
use crate::block::Signal;
use crate::sync::{Fence, Semaphore, SemaphoreUsage};
use crate::MVSynced;
use crate::task::{task_views, Task, TaskController, TaskHandle, TaskView};
use crate::shared::next_id;

verus! {

/// The task after it was made to wait on `s`.
pub open spec fn with_wait<J>(t: TaskView<J>, s: Arc<Semaphore>) -> TaskView<J> {
    TaskView { wait: t.wait.push(s), ..t }
}

/// The task after it was made to signal `s` when it finishes.
pub open spec fn with_signal<J>(t: TaskView<J>, s: Arc<Semaphore>) -> TaskView<J> {
    TaskView { semaphores: t.semaphores.push(s), ..t }
}

/// The task after a fence that `s` opens was bound to it.
pub open spec fn with_fence<J>(t: TaskView<J>, s: Arc<Signal>) -> TaskView<J> {
    TaskView { fences: t.fences.push(s), ..t }
}

/// The chains after a fence opened by `sig` was bound to the last task of chain `c`. An empty
/// chain is left as it is.
pub open spec fn fence_chain<J>(chains: Seq<Seq<TaskView<J>>>, c: int, sig: Arc<Signal>) -> Seq<Seq<TaskView<J>>> {
    if chains[c].len() > 0 {
        chains.update(c, chains[c].update(chains[c].len() - 1, with_fence(chains[c].last(), sig)))
    } else {
        chains
    }
}

/// The chains after every fence `fences[k]` (chain, fence) was bound in order.
pub open spec fn fenced<J>(chains: Seq<Seq<TaskView<J>>>, fences: Seq<(usize, Arc<Fence>)>) -> Seq<Seq<TaskView<J>>>
    decreases fences.len(),
{
    if fences.len() == 0 {
        chains
    } else {
        fence_chain(fenced(chains, fences.drop_last()), fences.last().0 as int, fences.last().1.spec_signal())
    }
}

/// A chain after its consecutive tasks were linked: `links[k]` is signaled by task `k` and
/// waited on by task `k + 1`.
pub open spec fn chained<J>(c: Seq<TaskView<J>>, links: Seq<Arc<Semaphore>>) -> Seq<TaskView<J>> {
    Seq::new(
        c.len(),
        |j: int|
            {
                let t = if j > 0 {
                    with_wait(c[j], links[j - 1])
                } else {
                    c[j]
                };
                if j + 1 < c.len() {
                    with_signal(t, links[j])
                } else {
                    t
                }
            },
    )
}

/// The chains after chain `e` was made to signal `sem` at its end and chain `s` to wait on it
/// at its start. An empty chain is left as it is.
pub open spec fn link_pair<J>(chains: Seq<Seq<TaskView<J>>>, e: int, s: int, sem: Arc<Semaphore>) -> Seq<Seq<TaskView<J>>> {
    let c1 = if chains[e].len() > 0 {
        chains.update(e, chains[e].update(chains[e].len() - 1, with_signal(chains[e].last(), sem)))
    } else {
        chains
    };
    if c1[s].len() > 0 {
        c1.update(s, c1[s].update(0, with_wait(c1[s][0], sem)))
    } else {
        c1
    }
}

/// The chains after every link `links[k]` (dependency, successor) was applied in order, with
/// the semaphore `sems[k]`.
pub open spec fn linked<J>(chains: Seq<Seq<TaskView<J>>>, links: Seq<(usize, usize)>, sems: Seq<Arc<Semaphore>>) -> Seq<Seq<TaskView<J>>>
    decreases links.len(),
{
    if links.len() == 0 {
        chains
    } else {
        link_pair(
            linked(chains, links.drop_last(), sems.drop_last()),
            links.last().0 as int,
            links.last().1 as int,
            sems.last(),
        )
    }
}

/// The chains, each linked inside with its own semaphores `sems[k]`, put one after the other.
pub open spec fn flatten_chained<J>(chains: Seq<Seq<TaskView<J>>>, sems: Seq<Seq<Arc<Semaphore>>>) -> Seq<TaskView<J>>
    decreases chains.len(),
{
    if chains.len() == 0 {
        Seq::empty()
    } else {
        flatten_chained(chains.drop_last(), sems.drop_last()) + chained(chains.last(), sems.last())
    }
}

/// `sems` holds one semaphore per pair of consecutive tasks of each chain.
pub open spec fn chain_links_fit<J>(chains: Seq<Seq<TaskView<J>>>, sems: Seq<Seq<Arc<Semaphore>>>) -> bool {
    &&& sems.len() == chains.len()
    &&& forall|k: int| 0 <= k < chains.len() ==> #[trigger] sems[k].len() + 1 >= chains[k].len()
}

/// How many pairs of consecutive tasks a chain of `n` tasks has.
pub open spec fn pairs(n: int) -> int {
    if n > 0 {
        n - 1
    } else {
        0
    }
}

/// The semaphores `s` carry the keys `base`, `base + 1`, and so on, in order; so no two of
/// them share a key.
pub open spec fn numbered_from(s: Seq<Arc<Semaphore>>, base: int) -> bool {
    forall|i: int| 0 <= i < s.len() ==> (#[trigger] s[i]).spec_key() == base + i
}

/// The semaphores of each chain, one chain after the other.
pub open spec fn flatten_sems(cs: Seq<Seq<Arc<Semaphore>>>) -> Seq<Arc<Semaphore>>
    decreases cs.len(),
{
    if cs.len() == 0 {
        Seq::empty()
    } else {
        flatten_sems(cs.drop_last()) + cs.last()
    }
}

/// The task waits on, or signals, a semaphore with key `k`.
pub open spec fn carries_key<J>(t: TaskView<J>, k: u64) -> bool {
    ||| exists|i: int| 0 <= i < t.wait.len() && (#[trigger] t.wait[i]).spec_key() == k
    ||| exists|i: int| 0 <= i < t.semaphores.len() && (#[trigger] t.semaphores[i]).spec_key() == k
}

/// Every semaphore that a task of the chains waits on or signals has a key below `bound`.
pub open spec fn keys_below<J>(chains: Seq<Seq<TaskView<J>>>, bound: int) -> bool {
    &&& forall|c: int, j: int, i: int|
        0 <= c < chains.len() && 0 <= j < chains[c].len() && 0 <= i < chains[c][j].wait.len() ==> (
        #[trigger] chains[c][j].wait[i]).spec_key() < bound
    &&& forall|c: int, j: int, i: int|
        0 <= c < chains.len() && 0 <= j < chains[c].len() && 0 <= i < chains[c][j].semaphores.len() ==> (
        #[trigger] chains[c][j].semaphores[i]).spec_key() < bound
}

/// How many pairs of consecutive tasks the chains have in all.
pub open spec fn pair_count<J>(chains: Seq<Seq<TaskView<J>>>) -> int
    decreases chains.len(),
{
    if chains.len() == 0 {
        0
    } else {
        pair_count(chains.drop_last()) + pairs(chains.last().len() as int)
    }
}

/// How many semaphores baking creates: one per link and one per pair of consecutive tasks.
pub open spec fn baked_count<J>(chains: Seq<Seq<TaskView<J>>>, links: Seq<(usize, usize)>) -> int {
    links.len() + pair_count(chains)
}

/// The keys of the semaphores that baking creates fit in a `u64` above every key that the
/// recorded tasks carry.
pub open spec fn keys_fit<J>(chains: Seq<Seq<TaskView<J>>>, links: Seq<(usize, usize)>) -> bool {
    &&& baked_count(chains, links) < u64::MAX
    &&& keys_below(chains, u64::MAX - baked_count(chains, links))
}

/// What baking a buffer gives: the fences bound to the chains, then the links applied, then
/// every chain linked inside, then the chains put one after the other, with new semaphores
/// `link_sems` (one per link) and `chain_sems` (one per pair of consecutive tasks). The new
/// semaphores are keyed `base`, `base + 1`, ... in that order, above every key that the
/// recorded tasks carry, so they are distinct from each other and from every semaphore the
/// recorded tasks already wait on or signal.
pub open spec fn is_baking_of<J>(
    baked: Seq<TaskView<J>>,
    chains: Seq<Seq<TaskView<J>>>,
    links: Seq<(usize, usize)>,
    fences: Seq<(usize, Arc<Fence>)>,
) -> bool {
    exists|link_sems: Seq<Arc<Semaphore>>, chain_sems: Seq<Seq<Arc<Semaphore>>>, base: int|
        {
            &&& link_sems.len() == links.len()
            &&& chain_links_fit(linked(fenced(chains, fences), links, link_sems), chain_sems)
            &&& baked == flatten_chained(linked(fenced(chains, fences), links, link_sems), chain_sems)
            &&& keys_below(chains, base)
            &&& numbered_from(link_sems + flatten_sems(chain_sems), base)
        }
}

/// Whether every link and fence names a chain that exists.
pub open spec fn indices_in_bounds(
    chain_count: int,
    links: Seq<(usize, usize)>,
    fence_chains: Seq<usize>,
) -> bool {
    &&& forall|k: int| 0 <= k < links.len() ==> (#[trigger] links[k]).0 < chain_count && links[k].1 < chain_count
    &&& forall|k: int| 0 <= k < fence_chains.len() ==> #[trigger] fence_chains[k] < chain_count
}

/// A chain of tasks that run one after the other, with the controllers of those tasks.
#[verifier::reject_recursive_types(J)]
struct TaskChain<J> {
    id: u64,
    tasks: Vec<Task<J>>,
    controllers: Vec<TaskController>,
}

impl<J> TaskChain<J> {
    spec fn view(&self) -> Seq<TaskView<J>> {
        task_views(self.tasks@)
    }

    fn new() -> (c: TaskChain<J>)
        ensures
            c.view().len() == 0,
            c.controllers@.len() == 0,
    {
        TaskChain { id: next_id(), tasks: Vec::new(), controllers: Vec::new() }
    }

    fn add_task(&mut self, task: Task<J>, controller: TaskController)
        ensures
            final(self).view() == old(self).view().push(task@),
            final(self).controllers@ == old(self).controllers@.push(controller),
    {
        self.tasks.push(task);
        self.controllers.push(controller);
        assert(task_views(self.tasks@) =~= task_views(old(self).tasks@).push(task@));
    }

    /// The first task of the chain waits on `semaphore`.
    fn starting_semaphore(&mut self, semaphore: Arc<Semaphore>)
        ensures
            final(self).view() == (if old(self).view().len() > 0 {
                old(self).view().update(0, with_wait(old(self).view()[0], semaphore))
            } else {
                old(self).view()
            }),
            final(self).controllers@ == old(self).controllers@,
    {
        if self.tasks.len() == 0 {
            return ;
        }
        let mut first = self.tasks.remove(0);
        first.bind_semaphore(semaphore, SemaphoreUsage::Wait);
        self.tasks.insert(0, first);
        assert(task_views(self.tasks@) =~= task_views(old(self).tasks@).update(
            0,
            with_wait(task_views(old(self).tasks@)[0], semaphore),
        ));
    }

    /// The last task of the chain signals `semaphore`.
    fn ending_semaphore(&mut self, semaphore: Arc<Semaphore>)
        ensures
            final(self).view() == (if old(self).view().len() > 0 {
                old(self).view().update(
                    old(self).view().len() - 1,
                    with_signal(old(self).view().last(), semaphore),
                )
            } else {
                old(self).view()
            }),
            final(self).controllers@ == old(self).controllers@,
    {
        if self.tasks.len() == 0 {
            return ;
        }
        let mut last = self.tasks.pop().unwrap();
        last.bind_semaphore(semaphore, SemaphoreUsage::Signal);
        self.tasks.push(last);
        assert(task_views(self.tasks@) =~= task_views(old(self).tasks@).update(
            old(self).tasks@.len() - 1,
            with_signal(task_views(old(self).tasks@).last(), semaphore),
        ));
    }

    /// The fence opens when the last task of the chain finishes.
    fn ending_fence(&mut self, fence: Arc<Fence>)
        ensures
            final(self).view() == (if old(self).view().len() > 0 {
                old(self).view().update(
                    old(self).view().len() - 1,
                    with_fence(old(self).view().last(), fence.spec_signal()),
                )
            } else {
                old(self).view()
            }),
            final(self).controllers@ == old(self).controllers@,
    {
        if self.tasks.len() == 0 {
            return ;
        }
        let ghost sig = fence.spec_signal();
        let mut last = self.tasks.pop().unwrap();
        last.bind_fence(fence);
        self.tasks.push(last);
        assert(task_views(self.tasks@) =~= task_views(old(self).tasks@).update(
            old(self).tasks@.len() - 1,
            with_fence(task_views(old(self).tasks@).last(), sig),
        ));
    }

    /// Links every pair of consecutive tasks with a new semaphore, keyed `start`, `start + 1`,
    /// and so on in order, and hands the tasks out in order, leaving the chain empty. It hands
    /// back the next key.
    fn chain_semaphores(&mut self, start: u64) -> (r: (Vec<Task<J>>, Ghost<Seq<Arc<Semaphore>>>, u64))
        requires
            start + pairs(old(self).view().len() as int) <= u64::MAX,
        ensures
            r.1@.len() == pairs(old(self).view().len() as int),
            r.1@.len() + 1 >= old(self).view().len(),
            numbered_from(r.1@, start as int),
            r.2 == start + r.1@.len(),
            task_views(r.0@) == chained(old(self).view(), r.1@),
            final(self).view().len() == 0,
            final(self).controllers@ == old(self).controllers@,
    {
        let ghost c = task_views(self.tasks@);
        let mut rest: Vec<Task<J>> = Vec::new();
        std::mem::swap(&mut rest, &mut self.tasks);
        let n = rest.len();
        let mut out: Vec<Task<J>> = Vec::new();
        let ghost mut sems: Seq<Arc<Semaphore>> = Seq::empty();
        if n == 0 {
            assert(task_views(out@) =~= chained(c, sems));
            return (out, Ghost(sems), start);
        }
        let mut next_key: u64 = start;
        let mut prev = rest.remove(0);
        let mut i: usize = 1;
        while i < n
            invariant
                1 <= i <= n,
                n == c.len(),
                rest@.len() == n - i,
                forall|j: int| 0 <= j < n - i ==> (#[trigger] rest@[j])@ == c[j + i],
                sems.len() == i - 1,
                out@.len() == i - 1,
                forall|j: int| 0 <= j < i - 1 ==> (#[trigger] out@[j])@ == chained(c, sems)[j],
                prev@ == (if i > 1 {
                    with_wait(c[i - 1], sems[i - 2])
                } else {
                    c[0]
                }),
                next_key == start + sems.len(),
                start + n - 1 <= u64::MAX,
                numbered_from(sems, start as int),
            decreases n - i,
        {
            let semaphore = Arc::new(Semaphore::keyed(next_key));
            next_key = next_key + 1;
            let mut next = rest.remove(0);
            prev.bind_semaphore(semaphore.clone(), SemaphoreUsage::Signal);
            next.bind_semaphore(semaphore.clone(), SemaphoreUsage::Wait);
            let ghost old_sems = sems;
            proof {
                sems = sems.push(semaphore);
                assert forall|j: int| 0 <= j < i - 1 implies chained(c, sems)[j] == chained(c, old_sems)[j] by {
                }
            }
            assert(prev@ == chained(c, sems)[i - 1]);
            out.push(prev);
            prev = next;
            i = i + 1;
        }
        out.push(prev);
        assert(task_views(out@) =~= chained(c, sems));
        (out, Ghost(sems), next_key)
    }

    /// The largest key among the semaphores the chain's tasks wait on or signal (0 when
    /// there is none).
    fn max_key(&self) -> (r: u64)
        ensures
            forall|j: int, i: int| 0 <= j < self.view().len() && 0 <= i < self.view()[j].wait.len() ==> (
            #[trigger] self.view()[j].wait[i]).spec_key() <= r,
            forall|j: int, i: int| 0 <= j < self.view().len() && 0 <= i < self.view()[j].semaphores.len() ==> (
            #[trigger] self.view()[j].semaphores[i]).spec_key() <= r,
            r == 0 || exists|j: int| 0 <= j < self.view().len() && carries_key(#[trigger] self.view()[j], r),
    {
        let ghost v = self.view();
        let mut best: u64 = 0;
        let mut j: usize = 0;
        while j < self.tasks.len()
            invariant
                j <= v.len(),
                v == self.view(),
                forall|a: int, i: int| 0 <= a < j && 0 <= i < v[a].wait.len() ==> (#[trigger] v[a].wait[i]).spec_key()
                    <= best,
                forall|a: int, i: int| 0 <= a < j && 0 <= i < v[a].semaphores.len() ==> (
                #[trigger] v[a].semaphores[i]).spec_key() <= best,
                best == 0 || exists|a: int| 0 <= a < v.len() && carries_key(#[trigger] v[a], best),
            decreases v.len() - j,
        {
            let k = self.tasks[j].max_key();
            assert(v[j as int] == self.tasks@[j as int]@);
            if k > best {
                best = k;
            }
            j = j + 1;
        }
        best
    }

    /// Hands out the controllers of the chain's tasks, leaving none.
    fn get_controllers(&mut self) -> (r: Vec<TaskController>)
        ensures
            r@ == old(self).controllers@,
            final(self).controllers@.len() == 0,
            final(self).view() == old(self).view(),
    {
        let mut out: Vec<TaskController> = Vec::new();
        std::mem::swap(&mut out, &mut self.controllers);
        out
    }
}

/// The recorded chains of a buffer, the links between them and its fences.
#[verifier::reject_recursive_types(J)]
struct RawCommandBuffer<J> {
    tasks: Vec<TaskChain<J>>,
    chain_links: Vec<(usize, usize)>,
    fences: Vec<(usize, Arc<Fence>)>,
    group: usize,
}

pub open spec fn fence_chains(fences: Seq<(usize, Arc<Fence>)>) -> Seq<usize> {
    fences.map_values(|f: (usize, Arc<Fence>)| f.0)
}

/// The chains after a task was recorded as the start of a new chain: it goes into the last
/// chain if that one is still empty, and into a chain of its own otherwise.
pub open spec fn record_new<J>(chains: Seq<Seq<TaskView<J>>>, t: TaskView<J>) -> Seq<Seq<TaskView<J>>> {
    if chains.last().len() > 0 {
        chains.push(seq![t])
    } else {
        chains.update(chains.len() - 1, seq![t])
    }
}

/// The chains after a task was recorded at the end of the last chain.
pub open spec fn record_chained<J>(chains: Seq<Seq<TaskView<J>>>, t: TaskView<J>) -> Seq<Seq<TaskView<J>>> {
    chains.update(chains.len() - 1, chains.last().push(t))
}

impl<J> RawCommandBuffer<J> {
    spec fn chains(&self) -> Seq<Seq<TaskView<J>>> {
        self.tasks@.map_values(|c: TaskChain<J>| c.view())
    }

    spec fn controllers(&self) -> Seq<Seq<TaskController>> {
        self.tasks@.map_values(|c: TaskChain<J>| c.controllers@)
    }

    spec fn wf(&self) -> bool {
        self.tasks@.len() == self.group + 1
    }

    fn new() -> (r: RawCommandBuffer<J>)
        ensures
            r.wf(),
            r.chains() == seq![Seq::<TaskView<J>>::empty()],
            r.controllers() == seq![Seq::<TaskController>::empty()],
            r.chain_links@.len() == 0,
            r.fences@.len() == 0,
    {
        let mut tasks: Vec<TaskChain<J>> = Vec::new();
        tasks.push(TaskChain::new());
        let r = RawCommandBuffer { tasks, chain_links: Vec::new(), fences: Vec::new(), group: 0 };
        assert(r.chains()[0] =~= Seq::<TaskView<J>>::empty());
        assert(r.controllers()[0] =~= Seq::<TaskController>::empty());
        assert(r.chains() =~= seq![Seq::<TaskView<J>>::empty()]);
        assert(r.controllers() =~= seq![Seq::<TaskController>::empty()]);
        r
    }

    /// Records a task that starts a chain of its own.
    fn add_task(&mut self, task: Task<J>, controller: TaskController)
        requires
            old(self).wf(),
        ensures
            final(self).wf(),
            final(self).chains() == record_new(old(self).chains(), task@),
            final(self).controllers() == (if old(self).chains().last().len() > 0 {
                old(self).controllers().push(seq![controller])
            } else {
                old(self).controllers().update(
                    old(self).controllers().len() - 1,
                    old(self).controllers().last().push(controller),
                )
            }),
            final(self).chain_links@ == old(self).chain_links@,
            final(self).fences@ == old(self).fences@,
    {
        let ghost c0 = self.chains();
        let ghost k0 = self.controllers();
        let mut current = self.tasks.pop().unwrap();
        let ghost c1 = self.chains();
        let ghost k1 = self.controllers();
        assert(c1 =~= c0.drop_last());
        assert(k1 =~= k0.drop_last());
        if current.tasks.len() > 0 {
            self.tasks.push(current);
            self.group = self.tasks.len();
            current = TaskChain::new();
            assert(self.chains() =~= c0);
            assert(self.controllers() =~= k0);
        }
        let ghost c2 = self.chains();
        let ghost k2 = self.controllers();
        let ghost cc = current.view();
        let ghost ck = current.controllers@;
        assert(cc.push(task@) =~= seq![task@]);
        current.add_task(task, controller);
        self.tasks.push(current);
        assert(self.chains() =~= c2.push(cc.push(task@)));
        assert(self.controllers() =~= k2.push(ck.push(controller)));
        assert(self.chains() =~= record_new(c0, task@));
        proof {
            if c0.last().len() > 0 {
                assert(ck.push(controller) =~= seq![controller]);
                assert(self.controllers() =~= k0.push(seq![controller]));
            } else {
                assert(self.controllers() =~= k0.update(k0.len() - 1, k0.last().push(controller)));
            }
        }
    }

    /// Records a task at the end of the last chain.
    fn add_chained_task(&mut self, task: Task<J>, controller: TaskController)
        requires
            old(self).wf(),
        ensures
            final(self).wf(),
            final(self).chains() == record_chained(old(self).chains(), task@),
            final(self).controllers() == old(self).controllers().update(
                old(self).controllers().len() - 1,
                old(self).controllers().last().push(controller),
            ),
            final(self).chain_links@ == old(self).chain_links@,
            final(self).fences@ == old(self).fences@,
    {
        let ghost c0 = self.chains();
        let ghost k0 = self.controllers();
        let mut current = self.tasks.pop().unwrap();
        current.add_task(task, controller);
        self.tasks.push(current);
        assert(self.chains() =~= record_chained(c0, task@));
        assert(self.controllers() =~= k0.update(k0.len() - 1, k0.last().push(controller)));
    }

    /// Hands out the controllers recorded in the last chain, leaving none there.
    fn get_controllers(&mut self) -> (r: Vec<TaskController>)
        requires
            old(self).wf(),
        ensures
            final(self).wf(),
            r@ == old(self).controllers().last(),
            final(self).controllers() == old(self).controllers().update(
                old(self).controllers().len() - 1,
                Seq::empty(),
            ),
            final(self).chains() == old(self).chains(),
            final(self).chain_links@ == old(self).chain_links@,
            final(self).fences@ == old(self).fences@,
    {
        let ghost c0 = self.chains();
        let ghost k0 = self.controllers();
        let mut current = self.tasks.pop().unwrap();
        let r = current.get_controllers();
        assert(current.controllers@ =~= Seq::<TaskController>::empty());
        self.tasks.push(current);
        assert(self.chains() =~= c0);
        assert(self.controllers() =~= k0.update(k0.len() - 1, Seq::empty()));
        r
    }

    /// The largest key among the semaphores the recorded tasks wait on or signal (0 when
    /// there is none).
    fn max_key(&self) -> (r: u64)
        ensures
            keys_below(self.chains(), r + 1),
            r == 0 || exists|c: int, j: int|
                0 <= c < self.chains().len() && 0 <= j < self.chains()[c].len() && carries_key(
                    #[trigger] self.chains()[c][j],
                    r,
                ),
    {
        let ghost cs = self.chains();
        let mut best: u64 = 0;
        let mut c: usize = 0;
        while c < self.tasks.len()
            invariant
                c <= cs.len(),
                cs == self.chains(),
                forall|a: int, j: int, i: int|
                    0 <= a < c && 0 <= j < cs[a].len() && 0 <= i < cs[a][j].wait.len() ==> (
                    #[trigger] cs[a][j].wait[i]).spec_key() <= best,
                forall|a: int, j: int, i: int|
                    0 <= a < c && 0 <= j < cs[a].len() && 0 <= i < cs[a][j].semaphores.len() ==> (
                    #[trigger] cs[a][j].semaphores[i]).spec_key() <= best,
                best == 0 || exists|a: int, j: int|
                    0 <= a < cs.len() && 0 <= j < cs[a].len() && carries_key(#[trigger] cs[a][j], best),
            decreases cs.len() - c,
        {
            let k = self.tasks[c].max_key();
            assert(cs[c as int] == self.tasks@[c as int].view());
            if k > best {
                best = k;
                let ghost w = choose|j: int| 0 <= j < cs[c as int].len() && carries_key(#[trigger] cs[c as int][j], k);
                assert(carries_key(cs[c as int][w], best));
            }
            c = c + 1;
        }
        best
    }

    /// Whether the keys of the semaphores that baking would create fit (see [`keys_fit`]).
    fn keys_fit_now(&self) -> (r: bool)
        ensures
            r == keys_fit(self.chains(), self.chain_links@),
    {
        let ghost cs = self.chains();
        let mut sum: u64 = 0;
        let mut k: usize = 0;
        while k < self.tasks.len()
            invariant
                k <= cs.len(),
                cs == self.chains(),
                sum == pair_count(cs.take(k as int)),
            decreases cs.len() - k,
        {
            let len = self.tasks[k].tasks.len();
            let p: u64 = if len > 0 {
                (len - 1) as u64
            } else {
                0
            };
            proof {
                assert(cs[k as int] == self.tasks@[k as int].view());
                assert(cs.take(k + 1).drop_last() =~= cs.take(k as int));
                assert(cs.take(k + 1).last() == cs[k as int]);
                assert(p == pairs(cs[k as int].len() as int));
                lemma_pair_count_prefix(cs, k + 1);
            }
            if sum > u64::MAX - p {
                return false;
            }
            sum = sum + p;
            k = k + 1;
        }
        assert(cs.take(cs.len() as int) =~= cs);
        let links = self.chain_links.len() as u64;
        if sum >= u64::MAX - links {
            return false;
        }
        let count = sum + links;
        let max = self.max_key();
        proof {
            if max >= u64::MAX - count && max != 0 {
                let (a, j) = choose|a: int, j: int|
                    0 <= a < cs.len() && 0 <= j < cs[a].len() && carries_key(#[trigger] cs[a][j], max);
                if exists|i: int| 0 <= i < cs[a][j].wait.len() && (#[trigger] cs[a][j].wait[i]).spec_key() == max {
                    let i = choose|i: int| 0 <= i < cs[a][j].wait.len() && (#[trigger] cs[a][j].wait[i]).spec_key() == max;
                    assert(cs[a][j].wait[i].spec_key() >= u64::MAX - count);
                } else {
                    let i = choose|i: int|
                        0 <= i < cs[a][j].semaphores.len() && (#[trigger] cs[a][j].semaphores[i]).spec_key() == max;
                    assert(cs[a][j].semaphores[i].spec_key() >= u64::MAX - count);
                }
            }
        }
        max < u64::MAX - count
    }

    /// Bakes the buffer: every fence is bound to the last task of its chain, every link makes
    /// the last task of its dependency chain signal a fresh semaphore that the first task of
    /// its successor chain waits on, every pair of consecutive tasks of a chain is linked the
    /// same way, and the tasks of all chains are handed out one chain after the other. The
    /// buffer is left without chains, links or fences.
    fn finish(&mut self) -> (r: Vec<Task<J>>)
        requires
            old(self).wf(),
            indices_in_bounds(
                old(self).chains().len() as int,
                old(self).chain_links@,
                fence_chains(old(self).fences@),
            ),
            keys_fit(old(self).chains(), old(self).chain_links@),
        ensures
            is_baking_of(task_views(r@), old(self).chains(), old(self).chain_links@, old(self).fences@),
            final(self).chains().len() == 0,
            final(self).chain_links@.len() == 0,
            final(self).fences@.len() == 0,
    {
        let ghost c0 = self.chains();
        let ghost n0 = self.tasks@.len();
        assert(c0.len() == n0);
        let ghost total = baked_count(c0, old(self).chain_links@);
        let max = self.max_key();
        proof {
            if max != 0 {
                let (a, j) = choose|a: int, j: int|
                    0 <= a < c0.len() && 0 <= j < c0[a].len() && carries_key(#[trigger] c0[a][j], max);
                if exists|i: int| 0 <= i < c0[a][j].wait.len() && (#[trigger] c0[a][j].wait[i]).spec_key() == max {
                    let i = choose|i: int| 0 <= i < c0[a][j].wait.len() && (#[trigger] c0[a][j].wait[i]).spec_key() == max;
                    assert(c0[a][j].wait[i].spec_key() < u64::MAX - total);
                } else {
                    let i = choose|i: int|
                        0 <= i < c0[a][j].semaphores.len() && (#[trigger] c0[a][j].semaphores[i]).spec_key() == max;
                    assert(c0[a][j].semaphores[i].spec_key() < u64::MAX - total);
                }
            }
            lemma_pair_count_nonneg(c0);
        }
        let base: u64 = max + 1;
        assert(base + total <= u64::MAX);
        let mut next_key: u64 = base;
        let mut fences: Vec<(usize, Arc<Fence>)> = Vec::new();
        std::mem::swap(&mut fences, &mut self.fences);
        assert forall|j: int| 0 <= j < fences@.len() implies (#[trigger] fences@[j]).0 < n0 by {
            assert(fence_chains(fences@)[j] == fences@[j].0);
        }
        assert(fences@.take(0) =~= Seq::<(usize, Arc<Fence>)>::empty());
        let mut k: usize = 0;
        while k < fences.len()
            invariant
                k <= fences@.len(),
                self.chains() == fenced(c0, fences@.take(k as int)),
                self.chain_links@ == old(self).chain_links@,
                self.fences@.len() == 0,
                self.tasks@.len() == n0,
                n0 == c0.len(),
                forall|j: int| 0 <= j < fences@.len() ==> (#[trigger] fences@[j]).0 < n0,
            decreases fences@.len() - k,
        {
            let i = fences[k].0;
            let fence = fences[k].1.clone();
            let ghost before = self.chains();
            let ghost sig = fence.spec_signal();
            let mut chain = self.tasks.remove(i);
            chain.ending_fence(fence);
            self.tasks.insert(i, chain);
            assert(self.chains() =~= fence_chain(before, i as int, sig));
            assert(fences@.take(k + 1).drop_last() =~= fences@.take(k as int));
            k = k + 1;
        }
        assert(fences@.take(fences@.len() as int) =~= fences@);
        let ghost cf = self.chains();
        let mut links: Vec<(usize, usize)> = Vec::new();
        std::mem::swap(&mut links, &mut self.chain_links);
        assert forall|j: int| 0 <= j < links@.len() implies (#[trigger] links@[j]).0 < n0 && links@[j].1 < n0 by {
            assert(links@[j] == old(self).chain_links@[j]);
        }
        assert(links@.take(0) =~= Seq::<(usize, usize)>::empty());
        let ghost mut sems: Seq<Arc<Semaphore>> = Seq::empty();
        let mut k: usize = 0;
        while k < links.len()
            invariant
                k <= links@.len(),
                self.fences@.len() == 0,
                self.chain_links@.len() == 0,
                self.tasks@.len() == n0,
                n0 == c0.len(),
                sems.len() == k,
                self.chains() == linked(cf, links@.take(k as int), sems),
                forall|j: int| 0 <= j < links@.len() ==> (#[trigger] links@[j]).0 < n0 && links@[j].1 < n0,
                links@ == old(self).chain_links@,
                total == baked_count(c0, old(self).chain_links@),
                pair_count(c0) >= 0,
                base + total <= u64::MAX,
                next_key == base + k,
                numbered_from(sems, base as int),
            decreases links@.len() - k,
        {
            let e = links[k].0;
            let s = links[k].1;
            let semaphore = Arc::new(Semaphore::keyed(next_key));
            next_key = next_key + 1;
            let ghost before = self.chains();
            let mut ce = self.tasks.remove(e);
            ce.ending_semaphore(semaphore.clone());
            self.tasks.insert(e, ce);
            let ghost mid = self.chains();
            assert(mid =~= (if before[e as int].len() > 0 {
                before.update(
                    e as int,
                    before[e as int].update(
                        before[e as int].len() - 1,
                        with_signal(before[e as int].last(), semaphore),
                    ),
                )
            } else {
                before
            }));
            let mut cs = self.tasks.remove(s);
            cs.starting_semaphore(semaphore.clone());
            self.tasks.insert(s, cs);
            assert(self.chains() =~= link_pair(before, e as int, s as int, semaphore));
            proof {
                assert(links@.take(k + 1).drop_last() =~= links@.take(k as int));
                assert(sems.push(semaphore).drop_last() =~= sems);
                sems = sems.push(semaphore);
            }
            k = k + 1;
        }
        assert(links@.take(links@.len() as int) =~= links@);
        let ghost cl = self.chains();
        proof {
            lemma_fenced_extends(c0, old(self).fences@, 0);
            assert(links_in_bounds(cf.len() as int, links@));
            lemma_linked_extends(cf, links@, sems, 0);
            lemma_chains_extend_trans(c0, cf, cl);
            lemma_pair_count_same_shape(c0, cl);
            assert(cl.take(0) =~= Seq::<Seq<TaskView<J>>>::empty());
        }
        let mut chains: Vec<TaskChain<J>> = Vec::new();
        std::mem::swap(&mut chains, &mut self.tasks);
        let n = chains.len();
        let mut out: Vec<Task<J>> = Vec::new();
        let ghost mut cs: Seq<Seq<Arc<Semaphore>>> = Seq::empty();
        assert(flatten_sems(cs) =~= Seq::<Arc<Semaphore>>::empty());
        assert(sems + flatten_sems(cs) =~= sems);
        let mut k: usize = 0;
        while k < n
            invariant
                k <= n,
                self.fences@.len() == 0,
                self.chain_links@.len() == 0,
                self.tasks@.len() == 0,
                n == cl.len(),
                chains@.len() == n - k,
                forall|j: int| 0 <= j < n - k ==> (#[trigger] chains@[j]).view() == cl[j + k],
                cs.len() == k,
                chain_links_fit(cl.take(k as int), cs),
                task_views(out@) == flatten_chained(cl.take(k as int), cs),
                pair_count(cl) == pair_count(c0),
                base + links@.len() + pair_count(c0) <= u64::MAX,
                flatten_sems(cs).len() == pair_count(cl.take(k as int)),
                next_key == base + sems.len() + flatten_sems(cs).len(),
                sems.len() == links@.len(),
                numbered_from(sems + flatten_sems(cs), base as int),
            decreases n - k,
        {
            let mut chain = chains.remove(0);
            proof {
                lemma_pair_count_prefix(cl, k + 1);
                assert(cl.take(k + 1).drop_last() =~= cl.take(k as int));
                assert(cl.take(k + 1).last() == cl[k as int]);
            }
            let (mut ts, Ghost(sl), after) = chain.chain_semaphores(next_key);
            let ghost before = task_views(out@);
            let ghost prev_new = sems + flatten_sems(cs);
            out.append(&mut ts);
            proof {
                assert(cs.push(sl).drop_last() =~= cs);
                assert(flatten_sems(cs.push(sl)) == flatten_sems(cs) + sl);
                assert(sems + flatten_sems(cs.push(sl)) =~= prev_new + sl);
                assert forall|i: int| 0 <= i < (prev_new + sl).len() implies (#[trigger] (prev_new + sl)[i]).spec_key()
                    == base + i by {
                    if i >= prev_new.len() {
                        assert((prev_new + sl)[i] == sl[i - prev_new.len()]);
                    } else {
                        assert((prev_new + sl)[i] == prev_new[i]);
                    }
                }
            }
            next_key = after;
            proof {
                assert(cl.take(k + 1).drop_last() =~= cl.take(k as int));
                assert(cs.push(sl).drop_last() =~= cs);
                assert(cl.take(k + 1).last() == cl[k as int]);
                cs = cs.push(sl);
                assert(task_views(out@) =~= before + chained(cl[k as int], sl));
                assert forall|j: int| 0 <= j < cl.take(k + 1).len() implies #[trigger] cs[j].len() + 1
                    >= cl.take(k + 1)[j].len() by {
                    if j < k {
                        assert(cl.take(k as int)[j] == cl.take(k + 1)[j]);
                    }
                }
            }
            k = k + 1;
        }
        assert(cl.take(n as int) =~= cl);
        assert(self.chains() =~= Seq::<Seq<TaskView<J>>>::empty());
        assert(keys_below(c0, base as int));
        assert(numbered_from(sems + flatten_sems(cs), base as int));
        assert(cf == fenced(c0, old(self).fences@));
        assert(cl == linked(cf, old(self).chain_links@, sems));
        assert(task_views(out@) == flatten_chained(linked(cf, old(self).chain_links@, sems), cs));
        assert(chain_links_fit(linked(cf, old(self).chain_links@, sems), cs));
        out
    }
}

/// The error of a command buffer that could not be allocated.
pub struct CommandBufferAllocationError;

impl CommandBufferAllocationError {
    /// The message that describes the error.
    pub fn message(&self) -> (r: String)
        ensures
            r@ == "Failed to allocate command buffer!"@,
    {
        "Failed to allocate command buffer!".to_owned()
    }
}

/// A command buffer as the proofs see it.
pub struct CommandBufferView<J> {
    /// The recorded chains, in order.
    pub chains: Seq<Seq<TaskView<J>>>,
    /// The controllers of the tasks recorded in each chain that were not handed out yet.
    pub controllers: Seq<Seq<TaskController>>,
    /// The links (dependency chain, successor chain) recorded so far.
    pub links: Seq<(usize, usize)>,
    /// The fences recorded so far, with the chain each closes.
    pub fences: Seq<(usize, Arc<Fence>)>,
    /// The tasks of the baked buffer, once it was baked.
    pub baked: Option<Seq<TaskView<J>>>,
}

/// A buffer that records commands — tasks organised in chains — and bakes them into a list
/// of tasks that a queue runs in the recorded order.
///
/// Each new command starts a chain of its own; a command chained to the previous one runs
/// after it. Chains can be linked so that one starts after another ends, and fenced so that
/// the outside can wait for them. Once baked, the buffer is read-only.
#[verifier::reject_recursive_types(J)]
pub struct CommandBuffer<J> {
    id: u64,
    raw: RawCommandBuffer<J>,
    baked: Option<Vec<Task<J>>>,
}

impl<J> View for CommandBuffer<J> {
    type V = CommandBufferView<J>;

    closed spec fn view(&self) -> CommandBufferView<J> {
        CommandBufferView {
            chains: self.raw.chains(),
            controllers: self.raw.controllers(),
            links: self.raw.chain_links@,
            fences: self.raw.fences@,
            baked: match self.baked {
                Some(ts) => Some(task_views(ts@)),
                None => None,
            },
        }
    }
}

impl<J> CommandBuffer<J> {
    /// The buffer is in order: while it is not baked it has a last chain to record into.
    pub closed spec fn wf(&self) -> bool {
        self.baked is None ==> self.raw.wf()
    }

    /// A new, empty buffer: one empty chain, no link, no fence, not baked.
    pub fn new() -> (r: Result<CommandBuffer<J>, CommandBufferAllocationError>)
        ensures
            r matches Ok(b) && b.wf() && b@ == (CommandBufferView::<J> {
                chains: seq![Seq::empty()],
                controllers: seq![Seq::empty()],
                links: Seq::empty(),
                fences: Seq::empty(),
                baked: None,
            }),
    {
        let raw = RawCommandBuffer::new();
        let b = CommandBuffer { id: next_id(), raw, baked: None };
        assert(b@.links =~= Seq::empty());
        assert(b@.fences =~= Seq::empty());
        Ok(b)
    }

    /// Whether the buffer was baked.
    pub fn is_baked(&self) -> (r: bool)
        ensures
            r == (self@.baked is Some),
    {
        self.baked.is_some()
    }

    /// How many chains were recorded.
    pub fn chain_count(&self) -> (r: usize)
        ensures
            r == self@.chains.len(),
    {
        self.raw.tasks.len()
    }

    /// Whether the buffer can be baked now: it was not baked yet, every link and fence names a
    /// chain that exists, and the keys of the semaphores it would create fit (see
    /// [`keys_fit`]).
    pub fn can_finish(&self) -> (r: bool)
        ensures
            r == (self@.baked is None && indices_in_bounds(
                self@.chains.len() as int,
                self@.links,
                fence_chains(self@.fences),
            ) && keys_fit(self@.chains, self@.links)),
    {
        if self.baked.is_some() {
            return false;
        }
        let n = self.raw.tasks.len();
        let mut k: usize = 0;
        while k < self.raw.chain_links.len()
            invariant
                n == self@.chains.len(),
                k <= self@.links.len(),
                forall|j: int| 0 <= j < k ==> (#[trigger] self@.links[j]).0 < n && self@.links[j].1 < n,
            decreases self@.links.len() - k,
        {
            if self.raw.chain_links[k].0 >= n || self.raw.chain_links[k].1 >= n {
                return false;
            }
            k = k + 1;
        }
        let mut k: usize = 0;
        while k < self.raw.fences.len()
            invariant
                n == self@.chains.len(),
                k <= self@.fences.len(),
                forall|j: int| 0 <= j < k ==> #[trigger] fence_chains(self@.fences)[j] < n,
            decreases self@.fences.len() - k,
        {
            if self.raw.fences[k].0 >= n {
                assert(fence_chains(self@.fences)[k as int] == self.raw.fences@[k as int].0);
                return false;
            }
            k = k + 1;
        }
        self.raw.keys_fit_now()
    }

    /// Records a task that starts a chain of its own (the last chain, if that one is still
    /// empty), with its controller.
    pub fn add_task(&mut self, task: Task<J>, controller: TaskController)
        requires
            old(self).wf(),
            old(self)@.baked is None,
        ensures
            final(self).wf(),
            final(self)@ == (CommandBufferView {
                chains: record_new(old(self)@.chains, task@),
                controllers: if old(self)@.chains.last().len() > 0 {
                    old(self)@.controllers.push(seq![controller])
                } else {
                    old(self)@.controllers.update(
                        old(self)@.controllers.len() - 1,
                        old(self)@.controllers.last().push(controller),
                    )
                },
                ..old(self)@
            }),
    {
        self.raw.add_task(task, controller)
    }

    /// Records a task at the end of the last chain, so that it runs after the task recorded
    /// before it, with its controller.
    pub fn chain_task(&mut self, task: Task<J>, controller: TaskController)
        requires
            old(self).wf(),
            old(self)@.baked is None,
        ensures
            final(self).wf(),
            final(self)@ == (CommandBufferView {
                chains: record_chained(old(self)@.chains, task@),
                controllers: old(self)@.controllers.update(
                    old(self)@.controllers.len() - 1,
                    old(self)@.controllers.last().push(controller),
                ),
                ..old(self)@
            }),
    {
        self.raw.add_chained_task(task, controller)
    }

    /// Hands out the controllers of the tasks recorded in the last chain, leaving none there.
    pub fn get_controllers(&mut self) -> (r: Vec<TaskController>)
        requires
            old(self).wf(),
            old(self)@.baked is None,
        ensures
            final(self).wf(),
            r@ == old(self)@.controllers.last(),
            final(self)@ == (CommandBufferView {
                controllers: old(self)@.controllers.update(
                    old(self)@.controllers.len() - 1,
                    Seq::empty(),
                ),
                ..old(self)@
            }),
    {
        self.raw.get_controllers()
    }

    /// Links two chains: once the buffer is baked, the first task of chain `successor`
    /// waits for the last task of chain `dependency`. Nothing is bound before the buffer is
    /// baked, so both chains may still grow.
    pub fn link_chains(&mut self, dependency: usize, successor: usize)
        requires
            old(self)@.baked is None,
        ensures
            final(self).wf() == old(self).wf(),
            final(self)@ == (CommandBufferView {
                links: old(self)@.links.push((dependency, successor)),
                ..old(self)@
            }),
    {
        self.raw.chain_links.push((dependency, successor));
    }

    /// A fence that, once the buffer is baked, opens when the last task of chain `task_chain`
    /// finishes.
    pub fn create_fence(&mut self, task_chain: usize) -> (f: Arc<Fence>)
        requires
            old(self)@.baked is None,
        ensures
            final(self).wf() == old(self).wf(),
            final(self)@ == (CommandBufferView {
                fences: old(self)@.fences.push((task_chain, f)),
                ..old(self)@
            }),
    {
        let fence = Arc::new(Fence::new());
        self.raw.fences.push((task_chain, fence.clone()));
        fence
    }

    /// Bakes the buffer (see [`is_baking_of`]): every fence and link is bound, the tasks of
    /// each chain are made to run one after the other, and the tasks of all chains are kept,
    /// in order, for submission. The buffer becomes read-only.
    pub fn finish(&mut self)
        requires
            old(self).wf(),
            old(self)@.baked is None,
            indices_in_bounds(
                old(self)@.chains.len() as int,
                old(self)@.links,
                fence_chains(old(self)@.fences),
            ),
            keys_fit(old(self)@.chains, old(self)@.links),
        ensures
            final(self).wf(),
            final(self)@.baked matches Some(b) && is_baking_of(
                b,
                old(self)@.chains,
                old(self)@.links,
                old(self)@.fences,
            ),
    {
        let tasks = self.raw.finish();
        self.baked = Some(tasks);
    }

    /// The tasks of the baked buffer, ready to be submitted in order.
    pub fn tasks(self) -> (r: Vec<Task<J>>)
        requires
            self@.baked is Some,
        ensures
            self@.baked == Some(task_views(r@)),
    {
        match self.baked {
            Some(ts) => ts,
            None => Vec::new(),
        }
    }
}

impl<J> PartialEq for CommandBuffer<J> {
    fn eq(&self, other: &Self) -> (r: bool) {
        self.id == other.id
    }
}

impl<J> vstd::std_specs::cmp::PartialEqSpecImpl for CommandBuffer<J> {
    open spec fn obeys_eq_spec() -> bool {
        true
    }

    open spec fn eq_spec(&self, other: &Self) -> bool {
        self.spec_id() == other.spec_id()
    }
}

impl<J> CommandBuffer<J> {
    pub closed spec fn spec_id(&self) -> u64 {
        self.id
    }
}

impl<J> Eq for CommandBuffer<J> {}

/// A recorded command: the buffer it was recorded into, `P`, and the handle through which
/// its result is collected. Further commands can be chained onto it, and its handle taken
/// out once the chain is complete.
#[verifier::reject_recursive_types(T)]
pub struct BufferedCommand<P, T: MVSynced> {
    parent: P,
    response: TaskHandle<T>,
}

impl<P, T: MVSynced> BufferedCommand<P, T> {
    pub closed spec fn spec_parent(&self) -> P {
        self.parent
    }

    pub closed spec fn spec_response(&self) -> TaskHandle<T> {
        self.response
    }

    /// A command recorded into `parent` whose result `response` collects.
    pub fn new(parent: P, response: TaskHandle<T>) -> (c: BufferedCommand<P, T>)
        ensures
            c.spec_parent() == parent,
            c.spec_response() == response,
    {
        BufferedCommand { parent, response }
    }

    /// The buffer the command was recorded into.
    pub fn parent(&self) -> (r: &P)
        ensures
            *r == self.spec_parent(),
    {
        &self.parent
    }

    /// Takes the command apart into its buffer and its result handle.
    pub fn into_parts(self) -> (r: (P, TaskHandle<T>))
        ensures
            r.0 == self.spec_parent(),
            r.1 == self.spec_response(),
    {
        (self.parent, self.response)
    }
}

proof fn lemma_pair_count_nonneg<J>(chains: Seq<Seq<TaskView<J>>>)
    ensures
        pair_count(chains) >= 0,
    decreases chains.len(),
{
    if chains.len() > 0 {
        lemma_pair_count_nonneg(chains.drop_last());
    }
}

/// The pairs of the first `k` chains are no more than those of all chains.
proof fn lemma_pair_count_prefix<J>(chains: Seq<Seq<TaskView<J>>>, k: int)
    requires
        0 <= k <= chains.len(),
    ensures
        0 <= pair_count(chains.take(k)) <= pair_count(chains),
    decreases chains.len(),
{
    lemma_pair_count_nonneg(chains.take(k));
    if k == chains.len() {
        assert(chains.take(k) =~= chains);
    } else {
        lemma_pair_count_prefix(chains.drop_last(), k);
        assert(chains.drop_last().take(k) =~= chains.take(k));
    }
}

/// Chains of the same shape have as many pairs.
proof fn lemma_pair_count_same_shape<J>(a: Seq<Seq<TaskView<J>>>, b: Seq<Seq<TaskView<J>>>)
    requires
        a.len() == b.len(),
        forall|c: int| 0 <= c < a.len() ==> (#[trigger] a[c]).len() == b[c].len(),
    ensures
        pair_count(a) == pair_count(b),
    decreases a.len(),
{
    if a.len() > 0 {
        lemma_pair_count_same_shape(a.drop_last(), b.drop_last());
        assert(a.last().len() == b.last().len());
    }
}

/// Where chain `c` starts in the baked list: the number of tasks of the chains before it.
pub open spec fn chain_offset<J>(chains: Seq<Seq<TaskView<J>>>, c: int) -> int
    decreases c,
{
    if c <= 0 {
        0
    } else {
        chain_offset(chains, c - 1) + chains[c - 1].len()
    }
}

/// `later` is `earlier` with, at most, more semaphores to wait on and to signal and more
/// fences to open, added at the end.
pub open spec fn extends<J>(earlier: TaskView<J>, later: TaskView<J>) -> bool {
    &&& later.id == earlier.id
    &&& later.job == earlier.job
    &&& later.signal == earlier.signal
    &&& later.preferred_thread == earlier.preferred_thread
    &&& later.own_state == earlier.own_state
    &&& later.dependency == earlier.dependency
    &&& earlier.wait.len() <= later.wait.len()
    &&& later.wait.take(earlier.wait.len() as int) == earlier.wait
    &&& earlier.semaphores.len() <= later.semaphores.len()
    &&& later.semaphores.take(earlier.semaphores.len() as int) == earlier.semaphores
    &&& earlier.fences.len() <= later.fences.len()
    &&& later.fences.take(earlier.fences.len() as int) == earlier.fences
}

/// Every link names a chain that exists.
pub open spec fn links_in_bounds(n: int, links: Seq<(usize, usize)>) -> bool {
    forall|k: int| 0 <= k < links.len() ==> (#[trigger] links[k]).0 < n && links[k].1 < n
}

/// Two lists of chains of the same shape, each task of the second extending the one of the
/// first at the same place.
pub open spec fn chains_extend<J>(a: Seq<Seq<TaskView<J>>>, b: Seq<Seq<TaskView<J>>>) -> bool {
    &&& a.len() == b.len()
    &&& forall|c: int| 0 <= c < a.len() ==> (#[trigger] a[c]).len() == b[c].len()
    &&& forall|c: int, j: int| 0 <= c < a.len() && 0 <= j < a[c].len() ==> extends(#[trigger] a[c][j], b[c][j])
}

proof fn lemma_extends_trans<J>(a: TaskView<J>, b: TaskView<J>, c: TaskView<J>)
    requires
        extends(a, b),
        extends(b, c),
    ensures
        extends(a, c),
{
    assert(c.wait.take(a.wait.len() as int) =~= c.wait.take(b.wait.len() as int).take(a.wait.len() as int));
    assert(c.semaphores.take(a.semaphores.len() as int) =~= c.semaphores.take(b.semaphores.len() as int).take(
        a.semaphores.len() as int,
    ));
    assert(c.fences.take(a.fences.len() as int) =~= c.fences.take(b.fences.len() as int).take(
        a.fences.len() as int,
    ));
}

proof fn lemma_extends_refl<J>(a: TaskView<J>)
    ensures
        extends(a, a),
{
    assert(a.wait.take(a.wait.len() as int) =~= a.wait);
    assert(a.semaphores.take(a.semaphores.len() as int) =~= a.semaphores);
    assert(a.fences.take(a.fences.len() as int) =~= a.fences);
}

proof fn lemma_with_wait_extends<J>(a: TaskView<J>, s: Arc<Semaphore>)
    ensures
        extends(a, with_wait(a, s)),
        with_wait(a, s).wait.last() == s,
{
    assert(a.wait.push(s).take(a.wait.len() as int) =~= a.wait);
    assert(a.semaphores.take(a.semaphores.len() as int) =~= a.semaphores);
    assert(a.fences.take(a.fences.len() as int) =~= a.fences);
}

proof fn lemma_with_signal_extends<J>(a: TaskView<J>, s: Arc<Semaphore>)
    ensures
        extends(a, with_signal(a, s)),
        with_signal(a, s).semaphores.last() == s,
{
    assert(a.semaphores.push(s).take(a.semaphores.len() as int) =~= a.semaphores);
    assert(a.wait.take(a.wait.len() as int) =~= a.wait);
    assert(a.fences.take(a.fences.len() as int) =~= a.fences);
}

proof fn lemma_with_fence_extends<J>(a: TaskView<J>, s: Arc<Signal>)
    ensures
        extends(a, with_fence(a, s)),
        with_fence(a, s).fences.contains(s),
{
    assert(a.fences.push(s).take(a.fences.len() as int) =~= a.fences);
    assert(a.wait.take(a.wait.len() as int) =~= a.wait);
    assert(a.semaphores.take(a.semaphores.len() as int) =~= a.semaphores);
    assert(with_fence(a, s).fences[a.fences.len() as int] == s);
}

proof fn lemma_chains_extend_trans<J>(a: Seq<Seq<TaskView<J>>>, b: Seq<Seq<TaskView<J>>>, c: Seq<Seq<TaskView<J>>>)
    requires
        chains_extend(a, b),
        chains_extend(b, c),
    ensures
        chains_extend(a, c),
{
    assert forall|i: int, j: int| 0 <= i < a.len() && 0 <= j < a[i].len() implies extends(#[trigger] a[i][j], c[i][j]) by {
        assert(a[i].len() == b[i].len());
        lemma_extends_trans(a[i][j], b[i][j], c[i][j]);
    }
}

proof fn lemma_chains_extend_refl<J>(a: Seq<Seq<TaskView<J>>>)
    ensures
        chains_extend(a, a),
{
    assert forall|i: int, j: int| 0 <= i < a.len() && 0 <= j < a[i].len() implies extends(#[trigger] a[i][j], a[i][j]) by {
        lemma_extends_refl(a[i][j]);
    }
}

/// Applying one link only adds semaphores, and the one it adds is signaled at the end of the
/// dependency chain and waited on at the start of the successor chain.
proof fn lemma_link_pair<J>(chains: Seq<Seq<TaskView<J>>>, e: int, s: int, sem: Arc<Semaphore>)
    requires
        0 <= e < chains.len(),
        0 <= s < chains.len(),
    ensures
        chains_extend(chains, link_pair(chains, e, s, sem)),
        chains[e].len() > 0 ==> link_pair(chains, e, s, sem)[e].last().semaphores.contains(sem),
        chains[s].len() > 0 ==> link_pair(chains, e, s, sem)[s][0].wait.contains(sem),
{
    let c1 = if chains[e].len() > 0 {
        chains.update(e, chains[e].update(chains[e].len() - 1, with_signal(chains[e].last(), sem)))
    } else {
        chains
    };
    let r = link_pair(chains, e, s, sem);
    assert(chains_extend(chains, c1)) by {
        assert forall|i: int, j: int| 0 <= i < chains.len() && 0 <= j < chains[i].len() implies extends(
            #[trigger] chains[i][j],
            c1[i][j],
        ) by {
            if chains[e].len() > 0 && i == e && j == chains[e].len() - 1 {
                lemma_with_signal_extends(chains[e].last(), sem);
            } else {
                lemma_extends_refl(chains[i][j]);
            }
        }
    }
    assert(chains_extend(c1, r)) by {
        assert forall|i: int, j: int| 0 <= i < c1.len() && 0 <= j < c1[i].len() implies extends(#[trigger] c1[i][j], r[i][j]) by {
            if c1[s].len() > 0 && i == s && j == 0 {
                lemma_with_wait_extends(c1[s][0], sem);
            } else {
                lemma_extends_refl(c1[i][j]);
            }
        }
    }
    lemma_chains_extend_trans(chains, c1, r);
    if chains[e].len() > 0 {
        let last = chains[e].len() - 1;
        lemma_with_signal_extends(chains[e].last(), sem);
        assert(c1[e][last].semaphores.last() == sem);
        assert(c1[e][last].semaphores.contains(sem)) by {
            assert(c1[e][last].semaphores[c1[e][last].semaphores.len() - 1] == sem);
        }
        let t = r[e][last];
        assert(extends(c1[e][last], t));
        let n = c1[e][last].semaphores.len();
        assert(t.semaphores.take(n as int)[n - 1] == sem);
        assert(t.semaphores[n - 1] == sem);
    }
    if chains[s].len() > 0 {
        lemma_with_wait_extends(c1[s][0], sem);
        assert(r[s][0].wait[r[s][0].wait.len() - 1] == sem);
    }
}

/// Applying links only adds semaphores: the chains after the first `m` links are extended by
/// the chains after all of them.
proof fn lemma_linked_extends<J>(
    chains: Seq<Seq<TaskView<J>>>,
    links: Seq<(usize, usize)>,
    sems: Seq<Arc<Semaphore>>,
    m: int,
)
    requires
        0 <= m <= links.len(),
        links.len() == sems.len(),
        links_in_bounds(chains.len() as int, links),
    ensures
        chains_extend(linked(chains, links.take(m), sems.take(m)), linked(chains, links, sems)),
        chains_extend(chains, linked(chains, links, sems)),
    decreases links.len(),
{
    if links.len() == 0 {
        assert(links.take(m) =~= links);
        assert(sems.take(m) =~= sems);
        lemma_chains_extend_refl(chains);
    } else {
        let n = links.len();
        assert(links_in_bounds(chains.len() as int, links.drop_last())) by {
            assert forall|k: int| 0 <= k < links.drop_last().len() implies (#[trigger] links.drop_last()[k]).0
                < chains.len() && links.drop_last()[k].1 < chains.len() by {
                assert(links.drop_last()[k] == links[k]);
            }
        }
        let prev = linked(chains, links.drop_last(), sems.drop_last());
        lemma_linked_extends(chains, links.drop_last(), sems.drop_last(), 0);
        assert(prev.len() == chains.len());
        assert(links[n - 1] == links.last());
        lemma_link_pair(prev, links.last().0 as int, links.last().1 as int, sems.last());
        lemma_chains_extend_trans(chains, prev, linked(chains, links, sems));
        if m == n {
            assert(links.take(m) =~= links);
            assert(sems.take(m) =~= sems);
            lemma_chains_extend_refl(linked(chains, links, sems));
        } else {
            lemma_linked_extends(chains, links.drop_last(), sems.drop_last(), m);
            assert(links.drop_last().take(m) =~= links.take(m));
            assert(sems.drop_last().take(m) =~= sems.take(m));
            lemma_chains_extend_trans(
                linked(chains, links.take(m), sems.take(m)),
                prev,
                linked(chains, links, sems),
            );
        }
    }
}

/// Linking the tasks of a chain inside only adds semaphores; every task but the last signals,
/// last of all, what the next one waits on last of all.
proof fn lemma_chained<J>(c: Seq<TaskView<J>>, links: Seq<Arc<Semaphore>>)
    requires
        links.len() + 1 >= c.len(),
    ensures
        chained(c, links).len() == c.len(),
        forall|j: int| 0 <= j < c.len() ==> extends(#[trigger] c[j], chained(c, links)[j]),
        forall|j: int| 0 <= j && j + 1 < c.len() ==> (#[trigger] chained(c, links)[j]).semaphores.last()
            == chained(c, links)[j + 1].wait.last(),
{
    assert forall|j: int| 0 <= j < c.len() implies extends(#[trigger] c[j], chained(c, links)[j]) by {
        let t = if j > 0 {
            with_wait(c[j], links[j - 1])
        } else {
            c[j]
        };
        if j > 0 {
            lemma_with_wait_extends(c[j], links[j - 1]);
        } else {
            lemma_extends_refl(c[j]);
        }
        if j + 1 < c.len() {
            lemma_with_signal_extends(t, links[j]);
            lemma_extends_trans(c[j], t, with_signal(t, links[j]));
        }
    }
}

/// The baked list has every chain, linked inside, at its offset.
proof fn lemma_flatten_index<J>(chains: Seq<Seq<TaskView<J>>>, sems: Seq<Seq<Arc<Semaphore>>>, c: int, j: int)
    requires
        sems.len() == chains.len(),
        0 <= c < chains.len(),
        0 <= j < chains[c].len(),
        forall|k: int| 0 <= k < chains.len() ==> #[trigger] sems[k].len() + 1 >= chains[k].len(),
    ensures
        flatten_chained(chains, sems).len() == chain_offset(chains, chains.len() as int),
        chain_offset(chains, c) + j < flatten_chained(chains, sems).len(),
        flatten_chained(chains, sems)[chain_offset(chains, c) + j] == chained(chains[c], sems[c])[j],
    decreases chains.len(),
{
    let n = chains.len();
    let pre = chains.drop_last();
    let spre = sems.drop_last();
    lemma_flatten_len(chains, sems);
    lemma_offset_prefix(chains, c);
    lemma_offset_monotone(chains, c + 1, n as int);
    lemma_offset_monotone(chains, 0, c);
    let a = flatten_chained(pre, spre);
    let b = chained(chains.last(), sems.last());
    assert(flatten_chained(chains, sems) == a + b);
    lemma_flatten_len(pre, spre);
    if c == n - 1 {
        assert(chain_offset(pre, pre.len() as int) == chain_offset(chains, c));
        assert(a.len() == chain_offset(chains, c));
        assert((a + b)[a.len() + j] == b[j]);
    } else {
        assert forall|k: int| 0 <= k < pre.len() implies #[trigger] spre[k].len() + 1 >= pre[k].len() by {
            assert(spre[k] == sems[k]);
        }
        lemma_flatten_index(pre, spre, c, j);
        assert(pre[c] == chains[c]);
        assert(spre[c] == sems[c]);
        assert((a + b)[chain_offset(chains, c) + j] == a[chain_offset(chains, c) + j]);
    }
}

proof fn lemma_flatten_len<J>(chains: Seq<Seq<TaskView<J>>>, sems: Seq<Seq<Arc<Semaphore>>>)
    requires
        sems.len() == chains.len(),
    ensures
        flatten_chained(chains, sems).len() == chain_offset(chains, chains.len() as int),
    decreases chains.len(),
{
    if chains.len() > 0 {
        lemma_flatten_len(chains.drop_last(), sems.drop_last());
        lemma_offset_prefix(chains, chains.len() - 1);
    }
}

/// The offset of a chain only depends on the chains before it.
proof fn lemma_offset_prefix<J>(chains: Seq<Seq<TaskView<J>>>, c: int)
    requires
        0 <= c < chains.len(),
    ensures
        chain_offset(chains.drop_last(), c) == chain_offset(chains, c),
    decreases c,
{
    if c > 0 {
        lemma_offset_prefix(chains, c - 1);
    }
}

proof fn lemma_offset_monotone<J>(chains: Seq<Seq<TaskView<J>>>, a: int, b: int)
    requires
        0 <= a <= b,
    ensures
        chain_offset(chains, a) <= chain_offset(chains, b),
    decreases b,
{
    if a < b {
        lemma_offset_monotone(chains, a, b - 1);
    }
}

proof fn lemma_offset_same_shape<J>(a: Seq<Seq<TaskView<J>>>, b: Seq<Seq<TaskView<J>>>, c: int)
    requires
        chains_extend(a, b),
        0 <= c <= a.len(),
    ensures
        chain_offset(a, c) == chain_offset(b, c),
    decreases c,
{
    if c > 0 {
        lemma_offset_same_shape(a, b, c - 1);
        assert(a[c - 1].len() == b[c - 1].len());
    }
}

proof fn lemma_extends_contains<J>(a: TaskView<J>, b: TaskView<J>, s: Arc<Semaphore>)
    requires
        extends(a, b),
    ensures
        a.wait.contains(s) ==> b.wait.contains(s),
        a.semaphores.contains(s) ==> b.semaphores.contains(s),
{
    if a.wait.contains(s) {
        let i = choose|i: int| 0 <= i < a.wait.len() && a.wait[i] == s;
        assert(b.wait.take(a.wait.len() as int)[i] == b.wait[i]);
    }
    if a.semaphores.contains(s) {
        let i = choose|i: int| 0 <= i < a.semaphores.len() && a.semaphores[i] == s;
        assert(b.semaphores.take(a.semaphores.len() as int)[i] == b.semaphores[i]);
    }
}

proof fn lemma_extends_contains_fence<J>(a: TaskView<J>, b: TaskView<J>, s: Arc<Signal>)
    requires
        extends(a, b),
        a.fences.contains(s),
    ensures
        b.fences.contains(s),
{
    let i = choose|i: int| 0 <= i < a.fences.len() && a.fences[i] == s;
    assert(b.fences.take(a.fences.len() as int)[i] == b.fences[i]);
}

/// Binding one fence only adds it, to the last task of its chain.
proof fn lemma_fence_chain<J>(chains: Seq<Seq<TaskView<J>>>, c: int, sig: Arc<Signal>)
    requires
        0 <= c < chains.len(),
    ensures
        chains_extend(chains, fence_chain(chains, c, sig)),
        chains[c].len() > 0 ==> fence_chain(chains, c, sig)[c].last().fences.contains(sig),
{
    let r = fence_chain(chains, c, sig);
    assert forall|i: int, j: int| 0 <= i < chains.len() && 0 <= j < chains[i].len() implies extends(
        #[trigger] chains[i][j],
        r[i][j],
    ) by {
        if chains[c].len() > 0 && i == c && j == chains[c].len() - 1 {
            lemma_with_fence_extends(chains[c].last(), sig);
        } else {
            lemma_extends_refl(chains[i][j]);
        }
    }
    if chains[c].len() > 0 {
        lemma_with_fence_extends(chains[c].last(), sig);
    }
}

/// Binding fences only adds them: the chains after the first `m` fences are extended by the
/// chains after all of them.
proof fn lemma_fenced_extends<J>(chains: Seq<Seq<TaskView<J>>>, fences: Seq<(usize, Arc<Fence>)>, m: int)
    requires
        0 <= m <= fences.len(),
        forall|k: int| 0 <= k < fences.len() ==> (#[trigger] fences[k]).0 < chains.len(),
    ensures
        chains_extend(fenced(chains, fences.take(m)), fenced(chains, fences)),
        chains_extend(chains, fenced(chains, fences)),
    decreases fences.len(),
{
    if fences.len() == 0 {
        assert(fences.take(m) =~= fences);
        lemma_chains_extend_refl(chains);
    } else {
        let n = fences.len();
        assert forall|k: int| 0 <= k < fences.drop_last().len() implies (#[trigger] fences.drop_last()[k]).0
            < chains.len() by {
            assert(fences.drop_last()[k] == fences[k]);
        }
        let prev = fenced(chains, fences.drop_last());
        lemma_fenced_extends(chains, fences.drop_last(), 0);
        assert(fences[n - 1] == fences.last());
        lemma_fence_chain(prev, fences.last().0 as int, fences.last().1.spec_signal());
        lemma_chains_extend_trans(chains, prev, fenced(chains, fences));
        if m == n {
            assert(fences.take(m) =~= fences);
            lemma_chains_extend_refl(fenced(chains, fences));
        } else {
            lemma_fenced_extends(chains, fences.drop_last(), m);
            assert(fences.drop_last().take(m) =~= fences.take(m));
            lemma_chains_extend_trans(fenced(chains, fences.take(m)), prev, fenced(chains, fences));
        }
    }
}

/// Where task `j` of chain `c` ends up in the baked list, and that it extends the recorded one.
proof fn lemma_baked_task<J>(
    b: Seq<TaskView<J>>,
    chains: Seq<Seq<TaskView<J>>>,
    links: Seq<(usize, usize)>,
    fences: Seq<(usize, Arc<Fence>)>,
    ls: Seq<Arc<Semaphore>>,
    cs: Seq<Seq<Arc<Semaphore>>>,
    c: int,
    j: int,
)
    requires
        ls.len() == links.len(),
        chain_links_fit(linked(fenced(chains, fences), links, ls), cs),
        b == flatten_chained(linked(fenced(chains, fences), links, ls), cs),
        links_in_bounds(chains.len() as int, links),
        forall|k: int| 0 <= k < fences.len() ==> (#[trigger] fences[k]).0 < chains.len(),
        0 <= c < chains.len(),
        0 <= j < chains[c].len(),
    ensures
        chains_extend(chains, fenced(chains, fences)),
        chains_extend(fenced(chains, fences), linked(fenced(chains, fences), links, ls)),
        chains_extend(chains, linked(fenced(chains, fences), links, ls)),
        b.len() == chain_offset(chains, chains.len() as int),
        chain_offset(chains, c) + j < b.len(),
        b[chain_offset(chains, c) + j] == chained(linked(fenced(chains, fences), links, ls)[c], cs[c])[j],
        extends(linked(fenced(chains, fences), links, ls)[c][j], b[chain_offset(chains, c) + j]),
        extends(chains[c][j], b[chain_offset(chains, c) + j]),
{
    let base = fenced(chains, fences);
    lemma_fenced_extends(chains, fences, 0);
    let lin = linked(base, links, ls);
    lemma_linked_extends(base, links, ls, 0);
    lemma_chains_extend_trans(chains, base, lin);
    lemma_offset_same_shape(chains, lin, c);
    lemma_offset_same_shape(chains, lin, chains.len() as int);
    lemma_flatten_index(lin, cs, c, j);
    lemma_chained(lin[c], cs[c]);
    lemma_extends_trans(chains[c][j], lin[c][j], b[chain_offset(chains, c) + j]);
}

/// The fences of a buffer name chains that exist.
pub open spec fn fences_in_bounds(n: int, fences: Seq<(usize, Arc<Fence>)>) -> bool {
    forall|k: int| 0 <= k < fences.len() ==> (#[trigger] fences[k]).0 < n
}

/// Baking keeps every recorded task, in the recorded order: the list holds as many tasks as
/// were recorded, and at the offset of chain `c` plus `j` stands the `j`-th task recorded in
/// chain `c`, unchanged but for more semaphores to wait on and to signal and more fences to
/// open.
pub proof fn law_baking_keeps_tasks<J>(
    b: Seq<TaskView<J>>,
    chains: Seq<Seq<TaskView<J>>>,
    links: Seq<(usize, usize)>,
    fences: Seq<(usize, Arc<Fence>)>,
    c: int,
    j: int,
)
    requires
        is_baking_of(b, chains, links, fences),
        links_in_bounds(chains.len() as int, links),
        fences_in_bounds(chains.len() as int, fences),
        0 <= c < chains.len(),
        0 <= j < chains[c].len(),
    ensures
        b.len() == chain_offset(chains, chains.len() as int),
        chain_offset(chains, c) + j < b.len(),
        extends(chains[c][j], b[chain_offset(chains, c) + j]),
{
    let (ls, cs) = choose|ls: Seq<Arc<Semaphore>>, cs: Seq<Seq<Arc<Semaphore>>>|
        {
            &&& ls.len() == links.len()
            &&& chain_links_fit(linked(fenced(chains, fences), links, ls), cs)
            &&& b == flatten_chained(linked(fenced(chains, fences), links, ls), cs)
        };
    lemma_baked_task(b, chains, links, fences, ls, cs, c, j);
}

/// In a baked buffer the tasks of a chain run one after the other: every task of a chain but
/// the last signals, last of all, the semaphore that the next task of the chain waits on last
/// of all.
pub proof fn law_chain_runs_in_order<J>(
    b: Seq<TaskView<J>>,
    chains: Seq<Seq<TaskView<J>>>,
    links: Seq<(usize, usize)>,
    fences: Seq<(usize, Arc<Fence>)>,
    c: int,
    j: int,
)
    requires
        is_baking_of(b, chains, links, fences),
        links_in_bounds(chains.len() as int, links),
        fences_in_bounds(chains.len() as int, fences),
        0 <= c < chains.len(),
        0 <= j,
        j + 1 < chains[c].len(),
    ensures
        chain_offset(chains, c) + j + 1 < b.len(),
        b[chain_offset(chains, c) + j].semaphores.last() == b[chain_offset(chains, c) + j + 1].wait.last(),
{
    let (ls, cs) = choose|ls: Seq<Arc<Semaphore>>, cs: Seq<Seq<Arc<Semaphore>>>|
        {
            &&& ls.len() == links.len()
            &&& chain_links_fit(linked(fenced(chains, fences), links, ls), cs)
            &&& b == flatten_chained(linked(fenced(chains, fences), links, ls), cs)
        };
    lemma_baked_task(b, chains, links, fences, ls, cs, c, j);
    lemma_baked_task(b, chains, links, fences, ls, cs, c, j + 1);
    let lin = linked(fenced(chains, fences), links, ls);
    assert(lin[c].len() == chains[c].len());
    assert(cs[c].len() + 1 >= lin[c].len());
    lemma_chained(lin[c], cs[c]);
}

/// A link makes the last task of its dependency chain signal a semaphore that the first task
/// of its successor chain waits on, so the successor chain starts after the dependency chain
/// ends.
pub proof fn law_link_orders_chains<J>(
    b: Seq<TaskView<J>>,
    chains: Seq<Seq<TaskView<J>>>,
    links: Seq<(usize, usize)>,
    fences: Seq<(usize, Arc<Fence>)>,
    k: int,
)
    requires
        is_baking_of(b, chains, links, fences),
        links_in_bounds(chains.len() as int, links),
        fences_in_bounds(chains.len() as int, fences),
        0 <= k < links.len(),
        chains[links[k].0 as int].len() > 0,
        chains[links[k].1 as int].len() > 0,
    ensures
        ({
            let e = links[k].0 as int;
            let s = links[k].1 as int;
            let last = chain_offset(chains, e) + chains[e].len() - 1;
            let first = chain_offset(chains, s);
            exists|sem: Arc<Semaphore>|
                #[trigger] b[last].semaphores.contains(sem) && b[first].wait.contains(sem) && forall|c: int, j: int|
                    0 <= c < chains.len() && 0 <= j < chains[c].len() ==> !carries_key(
                        #[trigger] chains[c][j],
                        sem.spec_key(),
                    )
        }),
{
    let (ls, cs, key_base) = choose|ls: Seq<Arc<Semaphore>>, cs: Seq<Seq<Arc<Semaphore>>>, base: int|
        {
            &&& ls.len() == links.len()
            &&& chain_links_fit(linked(fenced(chains, fences), links, ls), cs)
            &&& b == flatten_chained(linked(fenced(chains, fences), links, ls), cs)
            &&& keys_below(chains, base)
            &&& numbered_from(ls + flatten_sems(cs), base)
        };
    assert((ls + flatten_sems(cs))[k] == ls[k]);
    lemma_not_carried(chains, key_base, ls[k].spec_key());
    let e = links[k].0 as int;
    let s = links[k].1 as int;
    let le = chains[e].len() - 1;
    let sem = ls[k];
    let base = fenced(chains, fences);
    let lin = linked(base, links, ls);
    lemma_baked_task(b, chains, links, fences, ls, cs, e, le);
    lemma_baked_task(b, chains, links, fences, ls, cs, s, 0);
    assert(links_in_bounds(chains.len() as int, links.take(k))) by {
        assert forall|i: int| 0 <= i < links.take(k).len() implies (#[trigger] links.take(k)[i]).0 < chains.len()
            && links.take(k)[i].1 < chains.len() by {
            assert(links.take(k)[i] == links[i]);
        }
    }
    let before = linked(base, links.take(k), ls.take(k));
    lemma_linked_extends(base, links.take(k), ls.take(k), 0);
    let after = linked(base, links.take(k + 1), ls.take(k + 1));
    assert(links.take(k + 1).drop_last() =~= links.take(k));
    assert(ls.take(k + 1).drop_last() =~= ls.take(k));
    assert(after == link_pair(before, e, s, sem));
    assert(base[e].len() == chains[e].len());
    assert(base[s].len() == chains[s].len());
    lemma_link_pair(before, e, s, sem);
    lemma_linked_extends(base, links, ls, k + 1);
    assert(after[e].len() == chains[e].len());
    lemma_extends_contains(after[e][le], lin[e][le], sem);
    lemma_extends_contains(after[s][0], lin[s][0], sem);
    let last = chain_offset(chains, e) + le;
    let first = chain_offset(chains, s);
    lemma_extends_contains(lin[e][le], b[last], sem);
    lemma_extends_contains(lin[s][0], b[first], sem);
    assert(b[last].semaphores.contains(sem) && b[first].wait.contains(sem));
}

/// No recorded task carries a key at or above `base` when every key they carry is below it.
proof fn lemma_not_carried<J>(chains: Seq<Seq<TaskView<J>>>, base: int, key: u64)
    requires
        keys_below(chains, base),
        key >= base,
    ensures
        forall|c: int, j: int| 0 <= c < chains.len() && 0 <= j < chains[c].len() ==> !carries_key(#[trigger] chains[c][j], key),
{
    assert forall|c: int, j: int| 0 <= c < chains.len() && 0 <= j < chains[c].len() implies !carries_key(
        #[trigger] chains[c][j],
        key,
    ) by {
        if exists|i: int| 0 <= i < chains[c][j].wait.len() && (#[trigger] chains[c][j].wait[i]).spec_key() == key {
            let i = choose|i: int| 0 <= i < chains[c][j].wait.len() && (#[trigger] chains[c][j].wait[i]).spec_key() == key;
            assert(chains[c][j].wait[i].spec_key() < base);
        }
        if exists|i: int| 0 <= i < chains[c][j].semaphores.len() && (#[trigger] chains[c][j].semaphores[i]).spec_key()
            == key {
            let i = choose|i: int|
                0 <= i < chains[c][j].semaphores.len() && (#[trigger] chains[c][j].semaphores[i]).spec_key() == key;
            assert(chains[c][j].semaphores[i].spec_key() < base);
        }
    }
}

/// Where the semaphores of chain `c` start among the semaphores of all chains.
pub open spec fn sem_offset(cs: Seq<Seq<Arc<Semaphore>>>, c: int) -> int
    decreases c,
{
    if c <= 0 {
        0
    } else {
        sem_offset(cs, c - 1) + cs[c - 1].len()
    }
}

proof fn lemma_sem_offset_monotone(cs: Seq<Seq<Arc<Semaphore>>>, a: int, b: int)
    requires
        0 <= a <= b,
    ensures
        sem_offset(cs, a) <= sem_offset(cs, b),
    decreases b,
{
    if a < b {
        lemma_sem_offset_monotone(cs, a, b - 1);
    }
}

proof fn lemma_sem_offset_prefix(cs: Seq<Seq<Arc<Semaphore>>>, c: int)
    requires
        0 <= c < cs.len(),
    ensures
        sem_offset(cs.drop_last(), c) == sem_offset(cs, c),
    decreases c,
{
    if c > 0 {
        lemma_sem_offset_prefix(cs, c - 1);
    }
}

/// The semaphores of all chains hold those of chain `c` at its offset.
proof fn lemma_flatten_sems_index(cs: Seq<Seq<Arc<Semaphore>>>, c: int, j: int)
    requires
        0 <= c < cs.len(),
        0 <= j < cs[c].len(),
    ensures
        flatten_sems(cs).len() == sem_offset(cs, cs.len() as int),
        sem_offset(cs, c) + j < flatten_sems(cs).len(),
        flatten_sems(cs)[sem_offset(cs, c) + j] == cs[c][j],
    decreases cs.len(),
{
    lemma_flatten_sems_len(cs);
    let n = cs.len();
    let pre = cs.drop_last();
    lemma_flatten_sems_len(pre);
    lemma_sem_offset_monotone(cs, c + 1, n as int);
    if c == n - 1 {
        lemma_sem_offset_prefix(cs, c);
        assert(sem_offset(pre, pre.len() as int) == sem_offset(cs, c));
        assert((flatten_sems(pre) + cs.last())[flatten_sems(pre).len() + j] == cs.last()[j]);
    } else {
        assert(pre[c] == cs[c]);
        lemma_flatten_sems_index(pre, c, j);
        lemma_sem_offset_prefix(cs, c);
        let i = sem_offset(cs, c) + j;
        lemma_sem_offset_monotone(cs, 0, c);
        assert(0 <= i < flatten_sems(pre).len());
        assert(flatten_sems(cs) == flatten_sems(pre) + cs.last());
        assert((flatten_sems(pre) + cs.last())[i] == flatten_sems(pre)[i]);
    }
}

proof fn lemma_flatten_sems_len(cs: Seq<Seq<Arc<Semaphore>>>)
    ensures
        flatten_sems(cs).len() == sem_offset(cs, cs.len() as int),
    decreases cs.len(),
{
    if cs.len() > 0 {
        lemma_flatten_sems_len(cs.drop_last());
        lemma_sem_offset_prefix(cs, cs.len() - 1);
    }
}

/// Baking links each pair of consecutive tasks of a chain with a semaphore of its own: the
/// semaphore that a task signals last of all, so that the next task of its chain may start,
/// is signaled by no other such task, and no recorded task waited on it or signaled it
/// before.
pub proof fn law_chain_links_are_fresh<J>(
    b: Seq<TaskView<J>>,
    chains: Seq<Seq<TaskView<J>>>,
    links: Seq<(usize, usize)>,
    fences: Seq<(usize, Arc<Fence>)>,
    c: int,
    j: int,
    c2: int,
    j2: int,
)
    requires
        is_baking_of(b, chains, links, fences),
        links_in_bounds(chains.len() as int, links),
        fences_in_bounds(chains.len() as int, fences),
        0 <= c < chains.len(),
        0 <= j,
        j + 1 < chains[c].len(),
        0 <= c2 < chains.len(),
        0 <= j2,
        j2 + 1 < chains[c2].len(),
        c != c2 || j != j2,
    ensures
        b[chain_offset(chains, c) + j].semaphores.last().spec_key() != b[chain_offset(chains, c2)
            + j2].semaphores.last().spec_key(),
        forall|c3: int, j3: int|
            0 <= c3 < chains.len() && 0 <= j3 < chains[c3].len() ==> !carries_key(
                #[trigger] chains[c3][j3],
                b[chain_offset(chains, c) + j].semaphores.last().spec_key(),
            ),
{
    let (ls, cs, key_base) = choose|ls: Seq<Arc<Semaphore>>, cs: Seq<Seq<Arc<Semaphore>>>, base: int|
        {
            &&& ls.len() == links.len()
            &&& chain_links_fit(linked(fenced(chains, fences), links, ls), cs)
            &&& b == flatten_chained(linked(fenced(chains, fences), links, ls), cs)
            &&& keys_below(chains, base)
            &&& numbered_from(ls + flatten_sems(cs), base)
        };
    let lin = linked(fenced(chains, fences), links, ls);
    lemma_baked_task(b, chains, links, fences, ls, cs, c, j);
    lemma_baked_task(b, chains, links, fences, ls, cs, c2, j2);
    assert(lin[c].len() == chains[c].len());
    assert(lin[c2].len() == chains[c2].len());
    assert(cs[c].len() + 1 >= lin[c].len());
    assert(cs[c2].len() + 1 >= lin[c2].len());
    let all = ls + flatten_sems(cs);
    lemma_flatten_sems_index(cs, c, j);
    lemma_flatten_sems_index(cs, c2, j2);
    let p = ls.len() + sem_offset(cs, c) + j;
    let p2 = ls.len() + sem_offset(cs, c2) + j2;
    assert(0 <= sem_offset(cs, c)) by {
        lemma_sem_offset_monotone(cs, 0, c);
    }
    assert(0 <= sem_offset(cs, c2)) by {
        lemma_sem_offset_monotone(cs, 0, c2);
    }
    assert(all[p] == flatten_sems(cs)[sem_offset(cs, c) + j]);
    assert(all[p2] == flatten_sems(cs)[sem_offset(cs, c2) + j2]);
    assert(all[p] == cs[c][j]);
    assert(all[p2] == cs[c2][j2]);
    assert(b[chain_offset(chains, c) + j].semaphores.last() == cs[c][j]);
    assert(b[chain_offset(chains, c2) + j2].semaphores.last() == cs[c2][j2]);
    if c < c2 {
        lemma_sem_offset_monotone(cs, c + 1, c2);
    } else if c2 < c {
        lemma_sem_offset_monotone(cs, c2 + 1, c);
    }
    assert(p != p2);
    lemma_not_carried(chains, key_base, cs[c][j].spec_key());
}

/// A fence created for a chain opens when the last task of that chain finishes: that task
/// raises the fence's signal.
pub proof fn law_fence_follows_chain_end<J>(
    b: Seq<TaskView<J>>,
    chains: Seq<Seq<TaskView<J>>>,
    links: Seq<(usize, usize)>,
    fences: Seq<(usize, Arc<Fence>)>,
    k: int,
)
    requires
        is_baking_of(b, chains, links, fences),
        links_in_bounds(chains.len() as int, links),
        fences_in_bounds(chains.len() as int, fences),
        0 <= k < fences.len(),
        chains[fences[k].0 as int].len() > 0,
    ensures
        ({
            let c = fences[k].0 as int;
            b[chain_offset(chains, c) + chains[c].len() - 1].fences.contains(fences[k].1.spec_signal())
        }),
{
    let (ls, cs) = choose|ls: Seq<Arc<Semaphore>>, cs: Seq<Seq<Arc<Semaphore>>>|
        {
            &&& ls.len() == links.len()
            &&& chain_links_fit(linked(fenced(chains, fences), links, ls), cs)
            &&& b == flatten_chained(linked(fenced(chains, fences), links, ls), cs)
        };
    let c = fences[k].0 as int;
    let le = chains[c].len() - 1;
    let sig = fences[k].1.spec_signal();
    let base = fenced(chains, fences);
    let lin = linked(base, links, ls);
    lemma_baked_task(b, chains, links, fences, ls, cs, c, le);
    assert forall|i: int| 0 <= i < fences.take(k).len() implies (#[trigger] fences.take(k)[i]).0 < chains.len() by {
        assert(fences.take(k)[i] == fences[i]);
    }
    let before = fenced(chains, fences.take(k));
    lemma_fenced_extends(chains, fences.take(k), 0);
    let after = fenced(chains, fences.take(k + 1));
    assert(fences.take(k + 1).drop_last() =~= fences.take(k));
    assert(after == fence_chain(before, c, sig));
    lemma_fence_chain(before, c, sig);
    lemma_fenced_extends(chains, fences, k + 1);
    lemma_linked_extends(base, links, ls, 0);
    assert(after[c].len() == chains[c].len());
    lemma_extends_contains_fence(after[c][le], base[c][le], sig);
    lemma_extends_contains_fence(base[c][le], lin[c][le], sig);
    lemma_extends_contains_fence(lin[c][le], b[chain_offset(chains, c) + le], sig);
}

} // verus!
