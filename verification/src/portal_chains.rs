//! Recursive portal chains.
//!
//! A chain is a sequence of portals, the outermost first, each of which can be
//! seen through the one before it. Repeats are allowed: a portal that faces its
//! own reflection gives the chain of itself, twice, three times.
use vstd::prelude::*;

verus! {

/// Longest chain that is rendered.
pub const MAX_CHAIN_DEPTH: usize = 3;

/// Chains that the shader table holds.
pub const MAX_PORTAL_CHAINS: usize = 300;

/// One chain, padded with zeros to the depth limit.
#[derive(Clone, Copy, Debug, PartialEq, Eq)]
pub struct GpuPortalChain {
    pub portals: [u32; 3],
    pub depth: u32,
}

/// Which portals can be seen through which: entry `[p][q]` tells whether portal
/// `q` lies in the far opening of portal `p`.
pub struct Reachability {
    pub rows: Vec<Vec<bool>>,
}

impl Reachability {
    /// The table covers `n` portals.
    pub open spec fn covers(&self, n: int) -> bool {
        &&& self.rows@.len() >= n
        &&& forall|p: int| 0 <= p < n ==> (#[trigger] self.rows@[p])@.len() >= n
    }
}

impl View for Reachability {
    type V = Seq<Seq<bool>>;

    open spec fn view(&self) -> Seq<Seq<bool>> {
        self.rows@.map_values(|row: Vec<bool>| row@)
    }
}

impl GpuPortalChain {
    /// The chain holds exactly the portals of `sequence`.
    pub open spec fn holds(&self, sequence: Seq<u32>) -> bool {
        &&& sequence.len() <= MAX_CHAIN_DEPTH
        &&& self.depth == sequence.len()
        &&& forall|i: int| 0 <= i < sequence.len() ==> #[trigger] self.portals[i] == sequence[i]
        &&& forall|i: int|
            sequence.len() <= i < MAX_CHAIN_DEPTH ==> #[trigger] self.portals[i] == 0
    }
}

/// `list` holds the chains `sequences`, in order.
pub open spec fn chain_list(list: Seq<GpuPortalChain>, sequences: Seq<Seq<u32>>) -> bool {
    &&& list.len() == sequences.len()
    &&& forall|i: int| 0 <= i < list.len() ==> (#[trigger] list[i]).holds(sequences[i])
}

/// `prefix` can be continued by portal `p`.
pub open spec fn continues(leads: Seq<Seq<bool>>, prefix: Seq<u32>, p: int) -> bool {
    prefix.len() == 0 || leads[prefix.last() as int][p]
}

/// The chains that start with `prefix` and go on for at most `room` more portals
/// out of `n`, depth first.
pub open spec fn chains_from(
    leads: Seq<Seq<bool>>,
    n: int,
    prefix: Seq<u32>,
    room: nat,
) -> Seq<Seq<u32>>
    decreases room, n + 1,
{
    let own = if prefix.len() > 0 {
        seq![prefix]
    } else {
        Seq::empty()
    };
    if room == 0 || n < 0 {
        own
    } else {
        own + chains_through(leads, n, prefix, room, 0)
    }
}

/// The chains that continue `prefix` with one of the portals from `p` on.
pub open spec fn chains_through(
    leads: Seq<Seq<bool>>,
    n: int,
    prefix: Seq<u32>,
    room: nat,
    p: int,
) -> Seq<Seq<u32>>
    decreases room, n - p,
{
    if p >= n || room == 0 || p < 0 {
        Seq::empty()
    } else {
        let with_p = if continues(leads, prefix, p) {
            chains_from(leads, n, prefix.push(p as u32), (room - 1) as nat)
        } else {
            Seq::empty()
        };
        with_p + chains_through(leads, n, prefix, room, p + 1)
    }
}

/// All chains of `n` portals, depth first.
pub open spec fn portal_chains(leads: Seq<Seq<bool>>, n: int) -> Seq<Seq<u32>> {
    chains_from(leads, n, Seq::empty(), MAX_CHAIN_DEPTH as nat)
}

fn chain_of(prefix: &Vec<u32>) -> (chain: GpuPortalChain)
    requires
        prefix@.len() <= MAX_CHAIN_DEPTH,
    ensures
        chain.holds(prefix@),
{
    let mut portals: [u32; 3] = [0;3];
    let mut i: usize = 0;
    while i < prefix.len()
        invariant
            0 <= i <= prefix@.len() <= MAX_CHAIN_DEPTH,
            forall|j: int| 0 <= j < i ==> #[trigger] portals[j] == prefix@[j],
            forall|j: int| i <= j < MAX_CHAIN_DEPTH ==> #[trigger] portals[j] == 0,
        decreases prefix@.len() - i,
    {
        portals[i] = prefix[i];
        i = i + 1;
    }
    GpuPortalChain { portals, depth: prefix.len() as u32 }
}

/// Appends the chains that start with `prefix`; gives up once the table is full
/// and another one would follow.
pub fn generate_chains(
    reach: &Reachability,
    n: u32,
    prefix: &mut Vec<u32>,
    chains: &mut Vec<GpuPortalChain>,
) -> (complete: bool)
    requires
        reach.covers(n as int),
        old(prefix)@.len() <= MAX_CHAIN_DEPTH,
        forall|i: int| 0 <= i < old(prefix)@.len() ==> #[trigger] old(prefix)@[i] < n,
        old(chains)@.len() <= MAX_PORTAL_CHAINS,
    ensures
        final(prefix)@ == old(prefix)@,
        final(chains)@.len() <= MAX_PORTAL_CHAINS,
        ({
            let added = chains_from(
                reach@,
                n as int,
                old(prefix)@,
                (MAX_CHAIN_DEPTH - old(prefix)@.len()) as nat,
            );
            &&& complete <==> old(chains)@.len() + added.len() <= MAX_PORTAL_CHAINS
            &&& complete ==> {
                &&& final(chains)@.len() == old(chains)@.len() + added.len()
                &&& final(chains)@.take(old(chains)@.len() as int) == old(chains)@
                &&& chain_list(final(chains)@.skip(old(chains)@.len() as int), added)
            }
        }),
    decreases MAX_CHAIN_DEPTH - old(prefix)@.len(),
{
    let ghost start = chains@;
    let ghost pre = prefix@;
    let ghost room = (MAX_CHAIN_DEPTH - pre.len()) as nat;
    let ghost all = chains_from(reach@, n as int, pre, room);
    let ghost own: Seq<Seq<u32>> = if pre.len() > 0 {
        seq![pre]
    } else {
        Seq::empty()
    };
    if prefix.len() > 0 {
        if chains.len() == MAX_PORTAL_CHAINS {
            assert(all.len() >= 1);
            return false;
        }
        let chain: GpuPortalChain = chain_of(prefix);
        chains.push(chain);
        assert(chains@.take(start.len() as int) =~= start);
        assert(chains@.skip(start.len() as int) =~= seq![chain]);
    } else {
        assert(chains@.take(start.len() as int) =~= start);
        assert(chains@.skip(start.len() as int) =~= Seq::<GpuPortalChain>::empty());
    }
    if prefix.len() >= MAX_CHAIN_DEPTH {
        return true;
    }
    let mut p: u32 = 0;
    let ghost mut done: Seq<Seq<u32>> = own;
    assert(done + chains_through(reach@, n as int, pre, room, 0) =~= all);
    while p < n
        invariant
            0 <= p <= n,
            reach.covers(n as int),
            prefix@ == pre,
            pre == old(prefix)@,
            start == old(chains)@,
            all == chains_from(reach@, n as int, pre, room),
            pre.len() < MAX_CHAIN_DEPTH,
            room == MAX_CHAIN_DEPTH - pre.len(),
            forall|i: int| 0 <= i < pre.len() ==> #[trigger] pre[i] < n,
            done + chains_through(reach@, n as int, pre, room, p as int) == all,
            chains@.len() <= MAX_PORTAL_CHAINS,
            chains@.len() == start.len() + done.len(),
            chains@.take(start.len() as int) == start,
            chain_list(chains@.skip(start.len() as int), done),
        decreases n - p,
    {
        let reachable: bool = if prefix.len() > 0 {
            let last: u32 = prefix[prefix.len() - 1];
            assert(last < n);
            assert(reach.rows@[last as int]@.len() >= n);
            reach.rows[last as usize][p as usize]
        } else {
            true
        };
        assert(reachable == continues(reach@, pre, p as int));
        let ghost rest = chains_through(reach@, n as int, pre, room, p + 1);
        if reachable {
            let ghost deeper = chains_from(reach@, n as int, pre.push(p), (room - 1) as nat);
            let ghost before = chains@;
            assert(chains_through(reach@, n as int, pre, room, p as int) == deeper + rest);
            prefix.push(p);
            assert(prefix@ =~= pre.push(p));
            let complete: bool = generate_chains(reach, n, prefix, chains);
            prefix.pop();
            assert(prefix@ =~= pre);
            assert(done + (deeper + rest) =~= (done + deeper) + rest);
            if !complete {
                assert(all.len() == done.len() + deeper.len() + rest.len());
                return false;
            }
            proof {
                let k = start.len() as int;
                let m = before.len() as int;
                assert(chains@.take(k) =~= chains@.take(m).take(k));
                let now = chains@.skip(k);
                assert forall|i: int| 0 <= i < now.len() implies (#[trigger] now[i]).holds(
                    (done + deeper)[i],
                ) by {
                    if i < done.len() {
                        assert(now[i] == chains@.take(m)[k + i]);
                        assert(before.skip(k)[i].holds(done[i]));
                    } else {
                        assert(now[i] == chains@.skip(m)[i - done.len()]);
                        assert(chains@.skip(m)[i - done.len()].holds(deeper[i - done.len()]));
                    }
                }
                done = done + deeper;
            }
        } else {
            assert(chains_through(reach@, n as int, pre, room, p as int) =~= rest);
        }
        p = p + 1;
    }
    assert(done + chains_through(reach@, n as int, pre, room, p as int) =~= done);
    true
}

/// All chains of `n` portals, or `None` if the table cannot hold them all.
pub fn build_portal_chains(reach: &Reachability, n: u32) -> (chains: Option<Vec<GpuPortalChain>>)
    requires
        reach.covers(n as int),
    ensures
        match chains {
            Some(list) => portal_chains(reach@, n as int).len() <= MAX_PORTAL_CHAINS && chain_list(
                list@,
                portal_chains(reach@, n as int),
            ),
            None => portal_chains(reach@, n as int).len() > MAX_PORTAL_CHAINS,
        },
{
    let mut chains: Vec<GpuPortalChain> = Vec::new();
    let mut prefix: Vec<u32> = Vec::new();
    assert(prefix@ =~= Seq::empty());
    let complete: bool = generate_chains(reach, n, &mut prefix, &mut chains);
    if complete {
        assert(chains@.skip(0) =~= chains@);
        Some(chains)
    } else {
        None
    }
}

/// A chain: one to three portals out of `n`, each seen through the one before it.
pub open spec fn is_chain(leads: Seq<Seq<bool>>, n: int, sequence: Seq<u32>) -> bool {
    &&& 1 <= sequence.len() <= MAX_CHAIN_DEPTH
    &&& forall|i: int| 0 <= i < sequence.len() ==> #[trigger] sequence[i] < n
    &&& forall|i: int|
        1 <= i < sequence.len() ==> leads[sequence[i - 1] as int][#[trigger] sequence[i] as int]
}

spec fn extends(sequence: Seq<u32>, prefix: Seq<u32>) -> bool {
    prefix.len() <= sequence.len() && sequence.take(prefix.len() as int) == prefix
}

proof fn lemma_chains_from(
    leads: Seq<Seq<bool>>,
    n: int,
    prefix: Seq<u32>,
    room: nat,
    sequence: Seq<u32>,
)
    requires
        0 <= n <= u32::MAX,
        prefix.len() + room == MAX_CHAIN_DEPTH,
        prefix.len() == 0 || is_chain(leads, n, prefix),
    ensures
        chains_from(leads, n, prefix, room).contains(sequence) <==> is_chain(leads, n, sequence)
            && extends(sequence, prefix),
    decreases room, n + 1,
{
    let all = chains_from(leads, n, prefix, room);
    let own: Seq<Seq<u32>> = if prefix.len() > 0 {
        seq![prefix]
    } else {
        Seq::empty()
    };
    if prefix.len() > 0 {
        assert(prefix.take(prefix.len() as int) =~= prefix);
        assert(own[0] == prefix);
    }
    if room == 0 {
        if is_chain(leads, n, sequence) && extends(sequence, prefix) {
            assert(sequence =~= prefix);
        }
    } else {
        let through = chains_through(leads, n, prefix, room, 0);
        lemma_chains_through(leads, n, prefix, room, 0, sequence);
        assert(all == own + through);
        lemma_contains_concat(own, through, sequence);
        if is_chain(leads, n, sequence) && extends(sequence, prefix) {
            if sequence.len() == prefix.len() {
                assert(sequence =~= prefix);
            }
        }
        if prefix.len() > 0 && own.contains(sequence) {
            assert(sequence == prefix);
        }
    }
}

proof fn lemma_contains_concat(a: Seq<Seq<u32>>, b: Seq<Seq<u32>>, x: Seq<u32>)
    ensures
        (a + b).contains(x) <==> a.contains(x) || b.contains(x),
{
    if a.contains(x) {
        let i = a.index_of(x);
        assert((a + b)[i] == x);
    }
    if b.contains(x) {
        let i = b.index_of(x);
        assert((a + b)[a.len() + i] == x);
    }
    if (a + b).contains(x) {
        let i = (a + b).index_of(x);
        if i < a.len() {
            assert(a[i] == x);
        } else {
            assert(b[i - a.len()] == x);
        }
    }
}

proof fn lemma_chains_through(
    leads: Seq<Seq<bool>>,
    n: int,
    prefix: Seq<u32>,
    room: nat,
    p: int,
    sequence: Seq<u32>,
)
    requires
        0 <= p <= n <= u32::MAX,
        room > 0,
        prefix.len() + room == MAX_CHAIN_DEPTH,
        prefix.len() == 0 || is_chain(leads, n, prefix),
    ensures
        chains_through(leads, n, prefix, room, p).contains(sequence) <==> is_chain(
            leads,
            n,
            sequence,
        ) && extends(sequence, prefix) && sequence.len() > prefix.len() && sequence[prefix.len() as int]
            >= p,
    decreases room, n - p,
{
    if p < n {
        let longer = prefix.push(p as u32);
        let rest = chains_through(leads, n, prefix, room, p + 1);
        lemma_chains_through(leads, n, prefix, room, p + 1, sequence);
        let k = prefix.len() as int;
        if continues(leads, prefix, p) {
            assert(is_chain(leads, n, longer)) by {
                assert forall|i: int| 0 <= i < longer.len() implies #[trigger] longer[i] < n by {
                    if i < k {
                        assert(longer[i] == prefix[i]);
                    }
                }
                assert forall|i: int| 1 <= i < longer.len() implies leads[longer[i - 1] as int][#[trigger] longer[i] as int] by {
                    if i < k {
                        assert(longer[i] == prefix[i] && longer[i - 1] == prefix[i - 1]);
                    }
                }
            }
            lemma_chains_from(leads, n, longer, (room - 1) as nat, sequence);
            lemma_contains_concat(
                chains_from(leads, n, longer, (room - 1) as nat),
                rest,
                sequence,
            );
            if extends(sequence, longer) {
                assert(sequence.take(k) =~= sequence.take(k + 1).take(k));
                assert(longer.take(k) =~= prefix);
                assert(sequence[k] == sequence.take(k + 1)[k]);
            }
            if extends(sequence, prefix) && sequence.len() > k && sequence[k] == p {
                assert(sequence.take(k + 1) =~= longer);
            }
        } else {
            assert(chains_through(leads, n, prefix, room, p) =~= rest);
            if is_chain(leads, n, sequence) && extends(sequence, prefix) && sequence.len() > k
                && sequence[k] == p {
                assert(k > 0);
                assert(prefix.last() == sequence.take(k)[k - 1]);
                assert(leads[sequence[k - 1] as int][sequence[k] as int]);
            }
        }
    } else {
        if is_chain(leads, n, sequence) && sequence.len() > prefix.len() {
            assert(sequence[prefix.len() as int] < n);
        }
    }
}

/// The chains are exactly the sequences of one to three portals in which each is
/// seen through the one before it.
pub proof fn lemma_chains_are_complete(leads: Seq<Seq<bool>>, n: int, sequence: Seq<u32>)
    requires
        0 <= n <= u32::MAX,
    ensures
        portal_chains(leads, n).contains(sequence) <==> is_chain(leads, n, sequence),
{
    lemma_chains_from(leads, n, Seq::empty(), MAX_CHAIN_DEPTH as nat, sequence);
    assert(sequence.take(0) =~= Seq::<u32>::empty());
}

/// The place of portal `p` once portal `k` was put back among the others.
spec fn put_back(p: int, k: int) -> int {
    if p < k {
        p
    } else {
        p + 1
    }
}

/// `prefix`, told among all portals instead of among those without portal `k`.
spec fn told_among_all(prefix: Seq<u32>, k: int) -> Seq<u32> {
    prefix.map_values(|p: u32| put_back(p as int, k) as u32)
}

/// Without portal `k`, what leads where is otherwise as before.
pub open spec fn without_portal(
    leads: Seq<Seq<bool>>,
    fewer: Seq<Seq<bool>>,
    n: int,
    k: int,
) -> bool {
    forall|p: int, q: int|
        0 <= p < n - 1 && 0 <= q < n - 1 ==> #[trigger] fewer[p][q] == leads[if p < k {
            p
        } else {
            p + 1
        }][if q < k {
            q
        } else {
            q + 1
        }]
}

proof fn lemma_fewer_from(
    leads: Seq<Seq<bool>>,
    fewer: Seq<Seq<bool>>,
    n: int,
    k: int,
    prefix: Seq<u32>,
    room: nat,
)
    requires
        without_portal(leads, fewer, n, k),
        0 <= k < n <= u32::MAX,
        forall|i: int| 0 <= i < prefix.len() ==> #[trigger] prefix[i] < n - 1,
    ensures
        chains_from(fewer, n - 1, prefix, room).len() <= chains_from(
            leads,
            n,
            told_among_all(prefix, k),
            room,
        ).len(),
    decreases room, n + 1,
{
    if room > 0 {
        lemma_fewer_through(leads, fewer, n, k, prefix, room, 0);
    }
}

proof fn lemma_fewer_through(
    leads: Seq<Seq<bool>>,
    fewer: Seq<Seq<bool>>,
    n: int,
    k: int,
    prefix: Seq<u32>,
    room: nat,
    p: int,
)
    requires
        without_portal(leads, fewer, n, k),
        0 <= k < n <= u32::MAX,
        forall|i: int| 0 <= i < prefix.len() ==> #[trigger] prefix[i] < n - 1,
        room > 0,
        0 <= p <= n - 1,
    ensures
        chains_through(fewer, n - 1, prefix, room, p).len() <= chains_through(
            leads,
            n,
            told_among_all(prefix, k),
            room,
            put_back(p, k),
        ).len(),
        chains_through(fewer, n - 1, prefix, room, p).len() <= chains_through(
            leads,
            n,
            told_among_all(prefix, k),
            room,
            p,
        ).len(),
    decreases room, n - p,
{
    let all = told_among_all(prefix, k);
    let here = put_back(p, k);
    if p < n - 1 {
        lemma_fewer_through(leads, fewer, n, k, prefix, room, p + 1);
        let longer = prefix.push(p as u32);
        assert(told_among_all(longer, k) =~= all.push(here as u32));
        assert(continues(fewer, prefix, p) == continues(leads, all, here));
        if continues(fewer, prefix, p) {
            lemma_fewer_from(leads, fewer, n, k, longer, (room - 1) as nat);
        }
        assert(chains_through(fewer, n - 1, prefix, room, p).len() <= chains_through(
            leads,
            n,
            all,
            room,
            here,
        ).len());
        if p >= k {
            assert(chains_through(leads, n, all, room, p).len() >= chains_through(
                leads,
                n,
                all,
                room,
                p + 1,
            ).len());
        }
    }
}

/// A portal less makes no more chains.
pub proof fn lemma_fewer_portals_fewer_chains(
    leads: Seq<Seq<bool>>,
    fewer: Seq<Seq<bool>>,
    n: int,
    k: int,
)
    requires
        without_portal(leads, fewer, n, k),
        0 <= k < n <= u32::MAX,
    ensures
        portal_chains(fewer, n - 1).len() <= portal_chains(leads, n).len(),
{
    lemma_fewer_from(leads, fewer, n, k, Seq::empty(), MAX_CHAIN_DEPTH as nat);
    assert(told_among_all(Seq::empty(), k) =~= Seq::<u32>::empty());
}

} // verus!
