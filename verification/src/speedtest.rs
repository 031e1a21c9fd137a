//! Choosing among candidate servers.
//!
//! Of all candidates the five nearest are probed once each, and the one that
//! answered soonest is the best. A candidate that could not be probed counts
//! as if it had taken the whole timeout.

use crate::{Elapsed, Failure, Measurement, Task, NANOS_PER_SEC};
use vstd::prelude::*;

verus! {

/// How many of the nearest candidates are probed.
pub const CANDIDATES: usize = 5;

/// A candidate server, as the directory describes it.
#[derive(Clone, Debug)]
pub struct Server {
    pub lat: String,
    pub lon: String,
    /// Distance from the client in kilometres.
    pub distance: i32,
    pub name: String,
    pub country: String,
    pub cc: String,
    /// The name under which the server is shown.
    pub sponsor: String,
    pub id: String,
    /// Host and port.
    pub host: String,
    /// What a probe of the server measured; no part of the directory's entry.
    pub latency: Elapsed,
}

/// The entry says nothing but the host.
pub open spec fn is_bare(s: Server) -> bool {
    &&& s.lat@.len() == 0
    &&& s.lon@.len() == 0
    &&& s.distance == 0
    &&& s.name@.len() == 0
    &&& s.country@.len() == 0
    &&& s.cc@.len() == 0
    &&& s.sponsor@.len() == 0
    &&& s.id@.len() == 0
    &&& s.latency.nanos == 0
}

impl Server {
    /// A server that is known by its host alone.
    pub fn custom(host: String) -> (s: Server)
        ensures
            s.host == host,
            is_bare(s),
    {
        Server {
            lat: String::new(),
            lon: String::new(),
            distance: 0,
            name: String::new(),
            country: String::new(),
            cc: String::new(),
            sponsor: String::new(),
            id: String::new(),
            host,
            latency: Elapsed { nanos: 0 },
        }
    }
}

impl Default for Server {
    fn default() -> (s: Server)
        ensures
            is_bare(s),
            s.host@.len() == 0,
    {
        Server::custom(String::new())
    }
}

/// By what a server is ranked: its latency, or else its distance.
pub open spec fn rank(s: Server, by_latency: bool) -> int {
    if by_latency {
        s.latency.nanos as int
    } else {
        s.distance as int
    }
}

/// The servers of rank `k`.
pub open spec fn has_rank(k: int, by_latency: bool) -> spec_fn(Server) -> bool {
    |s: Server| rank(s, by_latency) == k
}

/// No server stands before one of lower rank.
pub open spec fn is_ranked(v: Seq<Server>, by_latency: bool) -> bool {
    forall|i: int, j: int|
        0 <= i <= j < v.len() ==> rank(#[trigger] v[i], by_latency) <= rank(
            #[trigger] v[j],
            by_latency,
        )
}

/// The servers of each rank are the same in both, and in the same order.
pub open spec fn keeps_order(out: Seq<Server>, inp: Seq<Server>, by_latency: bool) -> bool {
    forall|k: int| #[trigger]
        out.filter(has_rank(k, by_latency)) == inp.filter(has_rank(k, by_latency))
}

/// `out` holds the servers of `inp` in the order of their ranks, servers of
/// one rank in the order in which they stood.
pub open spec fn is_stable_sort(out: Seq<Server>, inp: Seq<Server>, by_latency: bool) -> bool {
    &&& out.len() == inp.len()
    &&& is_ranked(out, by_latency)
    &&& keeps_order(out, inp, by_latency)
}

proof fn lemma_filter_none(s: Seq<Server>, pred: spec_fn(Server) -> bool)
    requires
        forall|i: int| 0 <= i < s.len() ==> !pred(#[trigger] s[i]),
    ensures
        s.filter(pred) == Seq::<Server>::empty(),
    decreases s.len(),
{
    reveal(Seq::filter);
    if s.len() > 0 {
        assert forall|i: int| 0 <= i < s.drop_last().len() implies !pred(
            #[trigger] s.drop_last()[i],
        ) by {
            assert(s.drop_last()[i] == s[i]);
        }
        lemma_filter_none(s.drop_last(), pred);
        assert(!pred(s[s.len() - 1]));
    }
}

proof fn lemma_filter_one(x: Server, pred: spec_fn(Server) -> bool)
    ensures
        seq![x].filter(pred) == if pred(x) {
            seq![x]
        } else {
            Seq::<Server>::empty()
        },
{
    reveal_with_fuel(Seq::filter, 2);
    assert(seq![x].drop_last() =~= Seq::<Server>::empty());
    assert(Seq::<Server>::empty().push(x) =~= seq![x]);
}

/// Placing a server behind all that do not rank higher keeps a ranked
/// sequence ranked and changes the order within no rank.
proof fn lemma_insert_keeps_sort(
    sorted: Seq<Server>,
    inp: Seq<Server>,
    x: Server,
    p: int,
    by_latency: bool,
)
    requires
        is_stable_sort(sorted, inp, by_latency),
        0 <= p <= sorted.len(),
        forall|j: int| p <= j < sorted.len() ==> rank(#[trigger] sorted[j], by_latency) > rank(x, by_latency),
        p > 0 ==> rank(sorted[p - 1], by_latency) <= rank(x, by_latency),
    ensures
        is_stable_sort(sorted.insert(p, x), inp.push(x), by_latency),
{
    let out = sorted.insert(p, x);
    let front = sorted.take(p);
    let back = sorted.skip(p);
    assert(out =~= front + seq![x] + back);
    assert(sorted =~= front + back);
    assert forall|i: int, j: int| 0 <= i <= j < out.len() implies rank(
        #[trigger] out[i],
        by_latency,
    ) <= rank(#[trigger] out[j], by_latency) by {
        if i < p {
            assert(out[i] == sorted[i]);
            assert(rank(sorted[i], by_latency) <= rank(sorted[p - 1], by_latency));
        }
        if j > p {
            assert(out[j] == sorted[j - 1]);
        }
        if i > p {
            assert(out[i] == sorted[i - 1]);
        }
        if j < p {
            assert(out[j] == sorted[j]);
        }
    }
    assert forall|k: int| #[trigger]
        out.filter(has_rank(k, by_latency)) == inp.push(x).filter(has_rank(k, by_latency)) by {
        let pred = has_rank(k, by_latency);
        Seq::filter_distributes_over_add(front + seq![x], back, pred);
        Seq::filter_distributes_over_add(front, seq![x], pred);
        Seq::filter_distributes_over_add(front, back, pred);
        lemma_filter_one(x, pred);
        inp.lemma_filter_push(x, pred);
        assert(sorted.filter(pred) == inp.filter(pred));
        if pred(x) {
            assert forall|i: int| 0 <= i < back.len() implies !pred(#[trigger] back[i]) by {
                assert(back[i] == sorted[i + p]);
            }
            lemma_filter_none(back, pred);
            assert(front.filter(pred) + Seq::<Server>::empty() =~= front.filter(pred));
            assert(front.filter(pred) + seq![x] + Seq::<Server>::empty() =~= front.filter(
                pred,
            ).push(x));
        } else {
            assert(front.filter(pred) + Seq::<Server>::empty() + back.filter(pred)
                =~= front.filter(pred) + back.filter(pred));
        }
    }
}

proof fn lemma_ranked_agree(a: Seq<Server>, b: Seq<Server>, by_latency: bool)
    requires
        a.len() == b.len(),
        is_ranked(a, by_latency),
        is_ranked(b, by_latency),
        forall|k: int| #[trigger]
            a.filter(has_rank(k, by_latency)) == b.filter(has_rank(k, by_latency)),
    ensures
        a == b,
    decreases a.len(),
{
    reveal(Seq::filter);
    if a.len() == 0 {
        assert(a =~= b);
    } else {
        let ka = rank(a.last(), by_latency);
        let kb = rank(b.last(), by_latency);
        let pa = has_rank(ka, by_latency);
        let pb = has_rank(kb, by_latency);
        assert(a.filter(pa) == b.filter(pa));
        assert(a.filter(pb) == b.filter(pb));
        assert(a.filter(pa).len() > 0);
        assert(b.filter(pb).len() > 0);
        if ka > kb {
            assert forall|i: int| 0 <= i < b.len() implies !pa(#[trigger] b[i]) by {
                assert(rank(b[i], by_latency) <= rank(b[b.len() - 1], by_latency));
            }
            lemma_filter_none(b, pa);
        }
        if kb > ka {
            assert forall|i: int| 0 <= i < a.len() implies !pb(#[trigger] a[i]) by {
                assert(rank(a[i], by_latency) <= rank(a[a.len() - 1], by_latency));
            }
            lemma_filter_none(a, pb);
        }
        assert(ka == kb);
        assert(a.filter(pa) == a.drop_last().filter(pa).push(a.last()));
        assert(b.filter(pa) == b.drop_last().filter(pa).push(b.last()));
        assert(a.last() == a.filter(pa).last());
        assert(b.last() == b.filter(pa).last());
        assert(a.drop_last().filter(pa) =~= a.filter(pa).drop_last());
        assert(b.drop_last().filter(pa) =~= b.filter(pa).drop_last());
        let a1 = a.drop_last();
        let b1 = b.drop_last();
        assert forall|k: int| #[trigger]
            a1.filter(has_rank(k, by_latency)) == b1.filter(has_rank(k, by_latency)) by {
            let p = has_rank(k, by_latency);
            assert(a.filter(p) == b.filter(p));
            if k != ka {
                assert(!p(a.last()));
                assert(!p(b.last()));
            }
        }
        assert forall|i: int, j: int| 0 <= i <= j < a1.len() implies rank(
            #[trigger] a1[i],
            by_latency,
        ) <= rank(#[trigger] a1[j], by_latency) by {
            assert(a1[i] == a[i] && a1[j] == a[j]);
        }
        assert forall|i: int, j: int| 0 <= i <= j < b1.len() implies rank(
            #[trigger] b1[i],
            by_latency,
        ) <= rank(#[trigger] b1[j], by_latency) by {
            assert(b1[i] == b[i] && b1[j] == b[j]);
        }
        lemma_ranked_agree(a1, b1, by_latency);
        assert(a =~= a1.push(a.last()));
        assert(b =~= b1.push(b.last()));
    }
}

/// The order of the ranks and the order within each rank leave no choice: a
/// sequence of servers has one sorted form and no other.
pub proof fn lemma_stable_sort_is_unique(
    a: Seq<Server>,
    b: Seq<Server>,
    inp: Seq<Server>,
    by_latency: bool,
)
    requires
        is_stable_sort(a, inp, by_latency),
        is_stable_sort(b, inp, by_latency),
    ensures
        a == b,
{
    assert forall|k: int| #[trigger]
        a.filter(has_rank(k, by_latency)) == b.filter(has_rank(k, by_latency)) by {
        assert(a.filter(has_rank(k, by_latency)) == inp.filter(has_rank(k, by_latency)));
        assert(b.filter(has_rank(k, by_latency)) == inp.filter(has_rank(k, by_latency)));
    }
    lemma_ranked_agree(a, b, by_latency);
}

fn rank_of(s: &Server, by_latency: bool) -> (r: i128)
    ensures
        r == rank(*s, by_latency),
{
    if by_latency {
        s.latency.nanos as i128
    } else {
        s.distance as i128
    }
}

/// Puts the servers in the order of their latencies, or else of their
/// distances. Servers of one rank stay in the order in which they stood.
pub fn sort_servers(servers: &mut Vec<Server>, by_latency: bool)
    ensures
        is_stable_sort(final(servers)@, old(servers)@, by_latency),
{
    let n = servers.len();
    let ghost inp = servers@;
    let mut i: usize = 0;
    proof {
        assert(inp.take(0) =~= Seq::<Server>::empty());
        assert(inp.skip(0) =~= inp);
    }
    while i < n
        invariant
            0 <= i <= n,
            n == servers@.len(),
            n == inp.len(),
            is_stable_sort(servers@.take(i as int), inp.take(i as int), by_latency),
            servers@.skip(i as int) == inp.skip(i as int),
        decreases n - i,
    {
        let ghost before = servers@;
        let ghost sorted = before.take(i as int);
        let x = servers.remove(i);
        assert(x == inp[i as int]) by {
            assert(before.skip(i as int)[0] == inp.skip(i as int)[0]);
        }
        let key = rank_of(&x, by_latency);
        let mut p: usize = i;
        while p > 0 && rank_of(&servers[p - 1], by_latency) > key
            invariant
                0 <= p <= i,
                i < n,
                servers@.len() == n - 1,
                key == rank(x, by_latency),
                servers@ == before.remove(i as int),
                forall|j: int| p <= j < i ==> rank(#[trigger] servers@[j], by_latency) > key,
            decreases p,
        {
            p -= 1;
        }
        servers.insert(p, x);
        proof {
            let removed = before.remove(i as int);
            assert(removed.take(i as int) =~= sorted);
            assert forall|j: int| p <= j < sorted.len() implies rank(
                #[trigger] sorted[j],
                by_latency,
            ) > rank(x, by_latency) by {
                assert(sorted[j] == removed[j]);
            }
            if p > 0 {
                assert(sorted[p - 1] == removed[p - 1]);
            }
            lemma_insert_keeps_sort(sorted, inp.take(i as int), x, p as int, by_latency);
            assert(servers@.take(i + 1) =~= sorted.insert(p as int, x));
            assert(inp.take(i + 1) =~= inp.take(i as int).push(x));
            assert(servers@.skip(i + 1) =~= before.skip(i + 1));
            assert(before.skip(i + 1) =~= before.skip(i as int).skip(1));
            assert(inp.skip(i + 1) =~= inp.skip(i as int).skip(1));
        }
        i += 1;
    }
    proof {
        assert(servers@.take(n as int) =~= servers@);
        assert(inp.take(n as int) =~= inp);
    }
}

/// The latency that a probe's outcome stands for: the time it measured, and
/// the whole timeout where it measured none.
pub open spec fn latency_of(outcome: Result<Measurement, Failure>, timeout: u64) -> Elapsed {
    match outcome {
        Ok(Measurement::Time(t)) => t,
        _ => Elapsed {
            nanos: if timeout * NANOS_PER_SEC <= u64::MAX {
                (timeout * NANOS_PER_SEC) as u64
            } else {
                u64::MAX
            },
        },
    }
}

/// The latency that a probe's outcome stands for.
pub fn probe_latency(outcome: Result<Measurement, Failure>, timeout: u64) -> (t: Elapsed)
    ensures
        t == latency_of(outcome, timeout),
{
    match outcome {
        Ok(Measurement::Time(t)) => t,
        _ => Elapsed::from_secs(timeout),
    }
}

/// `a` is `b` with, it may be, another latency.
pub open spec fn same_but_latency(a: Server, b: Server) -> bool {
    a == (Server { latency: a.latency, ..b })
}

/// `after` holds the servers of `before`, each with, it may be, another latency.
pub open spec fn is_probed(after: Seq<Server>, before: Seq<Server>) -> bool {
    &&& after.len() == before.len()
    &&& forall|i: int| 0 <= i < after.len() ==> same_but_latency(#[trigger] after[i], before[i])
}

/// The nearest candidates among `all`: the first five by distance, or all
/// where there are fewer.
pub open spec fn is_nearest(nearest: Seq<Server>, all: Seq<Server>) -> bool {
    exists|by_distance: Seq<Server>|
        #![trigger is_stable_sort(by_distance, all, false)]
        is_stable_sort(by_distance, all, false) && nearest == if by_distance.len() <= CANDIDATES {
            by_distance
        } else {
            by_distance.take(CANDIDATES as int)
        }
}

/// `chosen` is what is made of the candidates `all`: the nearest of them,
/// probed, in the order of their latencies.
pub open spec fn is_selection(chosen: Seq<Server>, all: Seq<Server>) -> bool {
    exists|nearest: Seq<Server>, probed: Seq<Server>|
        #![trigger is_nearest(nearest, all), is_probed(probed, nearest)]
        is_nearest(nearest, all) && is_probed(probed, nearest) && is_stable_sort(
            chosen,
            probed,
            true,
        )
}

/// Keeps the nearest candidates: the first five by distance.
pub fn keep_nearest(servers: &mut Vec<Server>)
    ensures
        is_nearest(final(servers)@, old(servers)@),
{
    sort_servers(servers, false);
    let ghost by_distance = servers@;
    servers.truncate(CANDIDATES);
    proof {
        assert(is_stable_sort(by_distance, old(servers)@, false));
        if by_distance.len() > CANDIDATES {
            assert(servers@ =~= by_distance.take(CANDIDATES as int));
        } else {
            assert(servers@ =~= by_distance);
        }
    }
}

/// Notes the latency that a probe of the `i`-th server measured.
fn set_latency(servers: &mut Vec<Server>, i: usize, latency: Elapsed)
    requires
        i < old(servers)@.len(),
    ensures
        final(servers)@ == old(servers)@.update(
            i as int,
            Server { latency, ..old(servers)@[i as int] },
        ),
{
    let mut s = servers.remove(i);
    s.latency = latency;
    servers.insert(i, s);
    assert(final(servers)@ =~= old(servers)@.update(
        i as int,
        Server { latency, ..old(servers)@[i as int] },
    ));
}

/// Opens latency probes against candidate servers.
pub trait Prober {
    /// The task that probes one server.
    type Probe: Task;

    /// A probe of `server`, each of whose exchanges may take `timeout` seconds.
    fn open(&mut self, server: &Server, timeout: u64) -> Result<Self::Probe, Failure>;
}

/// Finds the best of the candidates: keeps the five nearest, probes each of
/// them once, puts them in the order of their latencies, and names the first.
/// A candidate whose probe cannot be opened or fails stands with the whole
/// timeout as its latency. Without candidates there is no best.
pub fn best_server<'a, P: Prober>(servers: &'a mut Vec<Server>, timeout: u64, prober: &mut P) -> (best:
    Option<&'a Server>)
    ensures
        is_selection(final(servers)@, old(servers)@),
        best is Some <==> old(servers)@.len() > 0,
        best matches Some(b) ==> final(servers)@.len() > 0 && *b == final(servers)@[0],
{
    keep_nearest(servers);
    let ghost nearest = servers@;
    let n = servers.len();
    let mut i: usize = 0;
    while i < n
        invariant
            0 <= i <= n,
            n == servers@.len(),
            is_probed(servers@, nearest),
        decreases n - i,
    {
        let outcome = match prober.open(&servers[i], timeout) {
            Err(e) => Err(e),
            Ok(mut task) => task.run(),
        };
        let latency = probe_latency(outcome, timeout);
        let ghost before = servers@;
        set_latency(servers, i, latency);
        proof {
            assert forall|j: int| 0 <= j < servers@.len() implies same_but_latency(
                #[trigger] servers@[j],
                nearest[j],
            ) by {
                assert(same_but_latency(before[j], nearest[j]));
            }
        }
        i += 1;
    }
    let ghost probed = servers@;
    sort_servers(servers, true);
    proof {
        assert(is_nearest(nearest, old(servers)@));
        assert(is_probed(probed, nearest));
    }
    if servers.len() > 0 {
        Some(&servers[0])
    } else {
        None
    }
}

} // verus!
