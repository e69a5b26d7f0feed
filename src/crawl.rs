use vstd::prelude::*;
use crate::address::{domain_root_spec, Address};
use crate::links::{addresses, get_links, resolve_all, texts, LinkQueue};

verus! {

/// Why a crawl failed.
#[derive(Debug)]
pub enum CrawlError {
    /// The fetch of `address` failed, for the reason in `message`.
    Fetch { address: String, message: String },
    /// A link reference on a page is neither a valid absolute nor a valid
    /// relative address.
    MalformedLink { href: String },
}

/// One unit of concurrent work: fetch `address`, extract its links and
/// crawl them at `depth + 1`.
pub struct Task {
    pub address: Address,
    pub depth: u8,
}

/// What a task does once its page has been fetched and tokenized.
pub enum Step {
    /// The task fails with this error; it spawns nothing.
    Failed(CrawlError),
    /// The task crawls these tasks, one level deeper, and succeeds when all
    /// of them do.
    Recurse(Vec<Task>),
}

/// Each task as its address and its depth.
pub open spec fn task_views(ts: Seq<Task>) -> Seq<(Seq<char>, int)> {
    ts.map_values(|t: Task| (t.address@, t.depth as int))
}

/// The tasks of one level: one per frontier entry, in frontier order, at
/// depth `current`; none once `current` is beyond `max`.
pub open spec fn level_spec(frontier: Seq<Seq<char>>, current: int, max: int) -> Seq<(Seq<char>, int)> {
    if current > max {
        seq![]
    } else {
        frontier.map_values(|a: Seq<char>| (a, current))
    }
}

/// Spawns the tasks of one level of the crawl.
pub fn level_tasks(frontier: Vec<Address>, current: u8, max: u8) -> (r: Vec<Task>)
    ensures
        task_views(r@) == level_spec(addresses(frontier@), current as int, max as int),
{
    let mut out: Vec<Task> = Vec::new();
    if current > max {
        assert(task_views(out@) =~= level_spec(addresses(frontier@), current as int, max as int));
        return out;
    }
    let ghost all = addresses(frontier@);
    let mut rest = frontier;
    while rest.len() > 0
        invariant
            current <= max,
            all.len() == out@.len() + rest@.len(),
            task_views(out@) =~= level_spec(all.take(out@.len() as int), current as int, max as int),
            addresses(rest@) =~= all.skip(out@.len() as int),
        decreases rest@.len(),
    {
        let ghost k = out@.len() as int;
        let ghost before = out@;
        let ghost r0 = rest@;
        let a = rest.remove(0);
        assert(addresses(r0)[0] == all.skip(k)[0]);
        assert(a@ == all[k]);
        assert(addresses(rest@) =~= all.skip(k + 1)) by {
            assert forall|j: int| 0 <= j < rest@.len() implies addresses(rest@)[j] == all.skip(k + 1)[j] by {
                assert(rest@[j] == r0[j + 1]);
                assert(addresses(r0)[j + 1] == all.skip(k)[j + 1]);
            }
        }
        out.push(Task { address: a, depth: current });
        assert(out@.drop_last() == before);
        assert(all.take(k + 1) =~= all.take(k).push(all[k]));
        assert(task_views(out@) =~= task_views(before).push((a@, current as int)));
    }
    assert(all.take(all.len() as int) =~= all);
    out
}

/// The step of one task, given what its fetch gave: the tokenized page's
/// link references, or the fetch's error message. A failed fetch fails the
/// task; otherwise the links are extracted against the task's address and
/// crawled one level deeper (no task at all once that level is beyond
/// `max`); a malformed link fails the task.
pub fn task_step(task: &Task, max: u8, page: Result<LinkQueue, String>) -> (r: Step)
    ensures
        match page {
            Err(m) => match r {
                Step::Failed(CrawlError::Fetch { address, message }) => address@ == task.address@
                    && message == m,
                _ => false,
            },
            Ok(q) => match resolve_all(domain_root_spec(task.address@), texts(q.links@)) {
                Some(next) => match r {
                    Step::Recurse(ts) => task_views(ts@) == level_spec(
                        next,
                        task.depth + 1,
                        max as int,
                    ),
                    _ => false,
                },
                None => match r {
                    Step::Failed(CrawlError::MalformedLink { .. }) => true,
                    _ => false,
                },
            },
        },
{
    match page {
        Err(m) => {
            let address = task.address.as_str().to_owned();
            Step::Failed(CrawlError::Fetch { address, message: m })
        },
        Ok(q) => match get_links(&task.address, &q.links) {
            Err(e) => Step::Failed(e),
            Ok(next) => {
                if task.depth >= max {
                    let none: Vec<Task> = Vec::new();
                    assert(task_views(none@) =~= level_spec(
                        addresses(next@),
                        task.depth + 1,
                        max as int,
                    ));
                    Step::Recurse(none)
                } else {
                    Step::Recurse(level_tasks(next, task.depth + 1, max))
                }
            },
        },
    }
}

/// The result of one level once every task of it has completed: success
/// when all tasks succeeded, else the error of the first failed task in
/// frontier order.
pub fn join_level(results: Vec<Result<(), CrawlError>>) -> (r: Result<(), CrawlError>)
    ensures
        r is Ok <==> forall|i: int| 0 <= i < results@.len() ==> (#[trigger] results@[i]) is Ok,
        match r {
            Ok(_) => true,
            Err(e) => exists|i: int|
                0 <= i < results@.len() && results@[i] == Err::<(), CrawlError>(e) && forall|j: int|
                    0 <= j < i ==> (#[trigger] results@[j]) is Ok,
        },
{
    let mut i: usize = 0;
    while i < results.len()
        invariant
            i <= results@.len(),
            forall|j: int| 0 <= j < i ==> (#[trigger] results@[j]) is Ok,
        decreases results@.len() - i,
    {
        if results[i].is_err() {
            let ghost all = results@;
            let mut rest = results;
            let first = rest.remove(i);
            assert(first == all[i as int]);
            return first;
        }
        i = i + 1;
    }
    Ok(())
}

/// The pages that a crawl meets: for each address, the next frontier that
/// its task extracts, or `None` where its fetch or its extraction fails.
pub type Pages = spec_fn(Seq<char>) -> Option<Seq<Seq<char>>>;

/// How far a level at depth `current` is from the end of the crawl.
pub open spec fn levels_left(current: int, max: int) -> nat {
    if current > max {
        0
    } else {
        (max - current + 1) as nat
    }
}

/// How many fetches the crawl of `frontier` at depth `current` makes: one
/// per task of the level, plus those of the level that each successful task
/// spawns.
pub open spec fn fetch_count(frontier: Seq<Seq<char>>, current: int, max: int, pages: Pages) -> nat
    decreases levels_left(current, max), frontier.len(),
{
    if current > max || frontier.len() == 0 {
        0
    } else {
        fetch_count(frontier.drop_last(), current, max, pages) + 1 + match pages(frontier.last()) {
            Some(next) => fetch_count(next, current + 1, max, pages),
            None => 0,
        }
    }
}

/// Whether the crawl of `frontier` at depth `current` succeeds: every task
/// of the level, and every task of the levels that they spawn, succeeds.
pub open spec fn crawl_ok(frontier: Seq<Seq<char>>, current: int, max: int, pages: Pages) -> bool
    decreases levels_left(current, max), frontier.len(),
{
    if current > max || frontier.len() == 0 {
        true
    } else {
        crawl_ok(frontier.drop_last(), current, max, pages) && task_ok(
            frontier.last(),
            current,
            max,
            pages,
        )
    }
}

/// Whether the task for `a` at depth `current` succeeds: its page is
/// extracted and the level that it spawns succeeds.
pub open spec fn task_ok(a: Seq<char>, current: int, max: int, pages: Pages) -> bool
    decreases levels_left(current, max), 0nat,
{
    if current > max {
        true
    } else {
        match pages(a) {
            Some(next) => crawl_ok(next, current + 1, max, pages),
            None => false,
        }
    }
}

/// A level beyond the maximum depth spawns no task, fetches nothing and
/// succeeds, whatever its frontier.
pub proof fn lemma_beyond_max(frontier: Seq<Seq<char>>, current: int, max: int, pages: Pages)
    requires
        current > max,
    ensures
        level_spec(frontier, current, max) == Seq::<(Seq<char>, int)>::empty(),
        fetch_count(frontier, current, max, pages) == 0,
        crawl_ok(frontier, current, max, pages),
{
}

/// A level within the maximum depth whose pages have no links succeeds
/// with exactly one fetch per frontier entry.
pub proof fn lemma_leaf_frontier(frontier: Seq<Seq<char>>, current: int, max: int, pages: Pages)
    requires
        current <= max,
        forall|i: int|
            0 <= i < frontier.len() ==> #[trigger] pages(frontier[i]) == Some(
                Seq::<Seq<char>>::empty(),
            ),
    ensures
        fetch_count(frontier, current, max, pages) == frontier.len(),
        crawl_ok(frontier, current, max, pages),
    decreases frontier.len(),
{
    if frontier.len() > 0 {
        let init = frontier.drop_last();
        assert forall|i: int| 0 <= i < init.len() implies #[trigger] pages(init[i]) == Some(
            Seq::<Seq<char>>::empty(),
        ) by {
            assert(init[i] == frontier[i]);
        }
        lemma_leaf_frontier(init, current, max, pages);
        assert(pages(frontier.last()) == pages(frontier[frontier.len() - 1]));
        lemma_beyond_or_empty(current + 1, max, pages);
        assert(task_ok(frontier.last(), current, max, pages));
    }
}

/// An empty frontier fetches nothing and succeeds.
proof fn lemma_beyond_or_empty(current: int, max: int, pages: Pages)
    ensures
        fetch_count(Seq::<Seq<char>>::empty(), current, max, pages) == 0,
        crawl_ok(Seq::<Seq<char>>::empty(), current, max, pages),
{
}

/// A level succeeds exactly when each of its tasks does: its page is
/// extracted and the level that it spawns succeeds. So any failure, at any
/// depth, is the failure of the whole crawl.
pub proof fn lemma_crawl_ok_all(frontier: Seq<Seq<char>>, current: int, max: int, pages: Pages)
    requires
        current <= max,
    ensures
        crawl_ok(frontier, current, max, pages) <==> forall|i: int|
            0 <= i < frontier.len() ==> #[trigger] task_ok(frontier[i], current, max, pages),
    decreases frontier.len(),
{
    if frontier.len() > 0 {
        let init = frontier.drop_last();
        lemma_crawl_ok_all(init, current, max, pages);
        assert(frontier.last() == frontier[frontier.len() - 1]);
        assert(crawl_ok(frontier, current, max, pages) == (crawl_ok(init, current, max, pages)
            && task_ok(frontier.last(), current, max, pages)));
        if crawl_ok(frontier, current, max, pages) {
            assert forall|i: int| 0 <= i < frontier.len() implies #[trigger] task_ok(
                frontier[i],
                current,
                max,
                pages,
            ) by {
                if i < init.len() {
                    assert(init[i] == frontier[i]);
                }
            }
        }
        if forall|i: int| 0 <= i < frontier.len() ==> #[trigger] task_ok(frontier[i], current, max, pages) {
            assert forall|i: int| 0 <= i < init.len() implies #[trigger] task_ok(
                init[i],
                current,
                max,
                pages,
            ) by {
                assert(init[i] == frontier[i]);
            }
        }
    }
}

/// A page with a malformed link (or a failed fetch) anywhere in a level
/// that is within the maximum depth fails the crawl.
pub proof fn lemma_failure_propagates(
    frontier: Seq<Seq<char>>,
    current: int,
    max: int,
    pages: Pages,
    i: int,
)
    requires
        current <= max,
        0 <= i < frontier.len(),
        pages(frontier[i]) is None,
    ensures
        !crawl_ok(frontier, current, max, pages),
{
    lemma_crawl_ok_all(frontier, current, max, pages);
    assert(!task_ok(frontier[i], current, max, pages));
}

/// Two pages that link to each other, crawled from one of them at depth 1:
/// the crawl ends after exactly one fetch per level up to `max`.
pub proof fn lemma_two_page_cycle(a: Seq<char>, b: Seq<char>, max: int, pages: Pages)
    requires
        max >= 1,
        pages(a) == Some(seq![b]),
        pages(b) == Some(seq![a]),
    ensures
        fetch_count(seq![a], 1, max, pages) == max,
        crawl_ok(seq![a], 1, max, pages),
{
    lemma_cycle_from(a, b, 1, max, pages);
}

proof fn lemma_cycle_from(a: Seq<char>, b: Seq<char>, current: int, max: int, pages: Pages)
    requires
        pages(a) == Some(seq![b]),
        pages(b) == Some(seq![a]),
    ensures
        fetch_count(seq![a], current, max, pages) == levels_left(current, max),
        crawl_ok(seq![a], current, max, pages),
    decreases levels_left(current, max),
{
    if current <= max {
        lemma_cycle_from(b, a, current + 1, max, pages);
        assert(seq![a].drop_last() =~= Seq::<Seq<char>>::empty());
        lemma_beyond_or_empty(current, max, pages);
        assert(seq![a].last() == a);
        assert(seq![b].drop_last() =~= Seq::<Seq<char>>::empty());
        lemma_beyond_or_empty(current + 1, max, pages);
        assert(task_ok(a, current, max, pages));
        assert(crawl_ok(seq![a], current, max, pages) == (crawl_ok(seq![a].drop_last(), current, max, pages)
            && task_ok(seq![a].last(), current, max, pages)));
    }
}

} // verus!
