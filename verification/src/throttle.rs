//! Who may try a credential now. Each source has some tries for free; after those it may try once
//! per interval, and the interval doubles up to a limit. A try that is refused is not evaluated at
//! all. Times are in nanoseconds.

use crate::net::{canonical, entry_address, in_network, parse_entry, to_canonical, well_formed};
use crate::net::{Address, Network};
use crate::text::{split, split_on, texts_are_cut_at_separators, trim, trimmed};
use vstd::arithmetic::power2::{lemma_pow2_pos, lemma_pow2_unfold, pow2};
use vstd::prelude::*;
use vstd::string::*;

verus! {

/// Whom a try counts against.
#[derive(Debug, Clone, Copy, PartialEq, Eq, Hash, Structural)]
pub enum ClientId {
    /// An address; of the newer kind, all addresses of its network.
    Addr(Address),
    /// All clients behind a proxy whose forwarding chain makes no sense.
    MalformedChain,
    /// All clients of whom nothing is known.
    Unknown,
}

/// The address that tries count against: an older one that is written as a newer one counts as
/// the older, and of a newer one only the first half counts.
pub open spec fn bucket(address: Address) -> Address {
    match canonical(address) {
        Address::V4(n) => Address::V4(n),
        Address::V6(n) => Address::V6(
            ((n / 0x1_0000_0000_0000_0000) * 0x1_0000_0000_0000_0000) as u128,
        ),
    }
}

/// The address that tries count against.
pub fn bucket_addr(address: Address) -> (r: Address)
    ensures
        r == bucket(address),
{
    match to_canonical(address) {
        Address::V4(n) => Address::V4(n),
        Address::V6(n) => Address::V6((n / 0x1_0000_0000_0000_0000) * 0x1_0000_0000_0000_0000),
    }
}

/// Whether every range is one.
pub open spec fn all_well_formed(nets: Seq<Network>) -> bool {
    forall|i: int| 0 <= i < nets.len() ==> well_formed(#[trigger] nets[i])
}

/// Whether an address is that of a proxy that is trusted to say for whom it speaks.
pub open spec fn trusts(nets: Seq<Network>, address: Address) -> bool {
    exists|i: int| 0 <= i < nets.len() && in_network(#[trigger] nets[i], canonical(address))
}

/// Whether an address is that of a trusted proxy.
pub fn is_trusted(address: Address, trusted: &Vec<Network>) -> (r: bool)
    requires
        all_well_formed(trusted@),
    ensures
        r == trusts(trusted@, address),
{
    let plain: Address = to_canonical(address);
    let mut i: usize = 0;
    while i < trusted.len()
        invariant
            i <= trusted.len(),
            all_well_formed(trusted@),
            plain == canonical(address),
            forall|j: int| 0 <= j < i ==> !in_network(#[trigger] trusted@[j], plain),
        decreases trusted.len() - i,
    {
        assert(well_formed(trusted@[i as int]));
        if trusted[i].contains(plain) {
            return true;
        }
        i = i + 1;
    }
    false
}

/// The entries of a line of a forwarding chain.
pub open spec fn entries_of(line: Seq<char>) -> Seq<Seq<char>> {
    split(line, ',').map_values(|e: Seq<char>| trim(e)).filter(|e: Seq<char>| e.len() > 0)
}

/// The entries of all lines of a forwarding chain; nothing if a line could not be read.
pub open spec fn chain_of(lines: Seq<Option<Seq<char>>>) -> Option<Seq<Seq<char>>>
    decreases lines.len(),
{
    if lines.len() == 0 {
        Some(Seq::empty())
    } else {
        match (chain_of(lines.drop_last()), lines.last()) {
            (Some(before), Some(line)) => Some(before + entries_of(line)),
            _ => None,
        }
    }
}

/// Whom the first `n` entries of a chain give, read from the right: the first address that is no
/// trusted proxy's. An entry that is none before that makes the chain malformed.
pub open spec fn chain_client(
    chain: Seq<Seq<char>>,
    n: int,
    trusted: Seq<Network>,
    peer: Address,
) -> ClientId
    decreases n,
{
    if n <= 0 {
        ClientId::Addr(bucket(peer))
    } else {
        match entry_address(chain[n - 1]) {
            None => ClientId::MalformedChain,
            Some(a) => if trusts(trusted, a) {
                chain_client(chain, n - 1, trusted, peer)
            } else {
                ClientId::Addr(bucket(a))
            },
        }
    }
}

/// Whom a request counts against. Only a trusted proxy is believed as to whom it forwards for.
pub open spec fn client(
    peer: Option<Address>,
    lines: Seq<Option<Seq<char>>>,
    trusted: Seq<Network>,
) -> ClientId {
    match peer {
        None => ClientId::Unknown,
        Some(p) => if !trusts(trusted, p) {
            ClientId::Addr(bucket(p))
        } else {
            match chain_of(lines) {
                None => ClientId::MalformedChain,
                Some(chain) => chain_client(chain, chain.len() as int, trusted, p),
            }
        },
    }
}

/// Lines by their texts.
pub open spec fn lines_view(lines: Seq<Option<String>>) -> Seq<Option<Seq<char>>> {
    lines.map_values(|l: Option<String>| crate::paths::opt_view(l))
}

/// The entries of a line of a forwarding chain.
pub(crate) fn split_entries(line: &str) -> (out: Vec<String>)
    ensures
        out.deep_view() == entries_of(line@),
{
    let parts: Vec<String> = split_on(line, ',');
    let ghost tv = split(line@, ',').map_values(|e: Seq<char>| trim(e));
    let ghost keep = |e: Seq<char>| e.len() > 0;
    let mut out: Vec<String> = Vec::new();
    let mut i: usize = 0;
    assert(parts.deep_view().len() == parts.len());
    assert(tv.take(0).filter(keep) =~= Seq::<Seq<char>>::empty()) by {
        reveal(Seq::filter);
    }
    while i < parts.len()
        invariant
            i <= parts.len() == tv.len(),
            parts.deep_view() == split(line@, ','),
            tv == split(line@, ',').map_values(|e: Seq<char>| trim(e)),
            keep == (|e: Seq<char>| e.len() > 0),
            out.deep_view() == tv.take(i as int).filter(keep),
        decreases parts.len() - i,
    {
        assert(parts.deep_view()[i as int] == parts[i as int]@);
        let entry: String = trimmed(&parts[i]);
        assert(tv[i as int] == entry@);
        assert(tv.take(i + 1).drop_last() =~= tv.take(i as int));
        assert(tv.take(i + 1).filter(keep) == if keep(entry@) {
            tv.take(i as int).filter(keep).push(entry@)
        } else {
            tv.take(i as int).filter(keep)
        }) by {
            reveal(Seq::filter);
        }
        if !entry.as_str().is_empty() {
            let ghost shorter = out;
            let ghost added = entry@;
            out.push(entry);
            assert(out.deep_view() =~= shorter.deep_view().push(added));
        }
        i = i + 1;
    }
    assert(tv.take(i as int) =~= tv);
    out
}

/// A chain that could not be read up to some line cannot be read at all.
proof fn lemma_chain_stops(lines: Seq<Option<Seq<char>>>, i: int)
    requires
        0 <= i <= lines.len(),
        chain_of(lines.take(i)) is None,
    ensures
        chain_of(lines) is None,
    decreases lines.len() - i,
{
    if i < lines.len() {
        assert(lines.take(i + 1).drop_last() =~= lines.take(i));
        lemma_chain_stops(lines, i + 1);
    } else {
        assert(lines.take(i) =~= lines);
    }
}

/// The entries of all lines of a forwarding chain; nothing if a line could not be read.
fn read_chain(lines: &Vec<Option<String>>) -> (r: Option<Vec<String>>)
    ensures
        crate::progress::groups_view(r) == chain_of(lines_view(lines@)),
{
    let ghost lv = lines_view(lines@);
    let mut chain: Vec<String> = Vec::new();
    let mut i: usize = 0;
    assert(chain.deep_view() =~= Seq::<Seq<char>>::empty());
    while i < lines.len()
        invariant
            i <= lines.len() == lv.len(),
            lv == lines_view(lines@),
            chain_of(lv.take(i as int)) == Some(chain.deep_view()),
        decreases lines.len() - i,
    {
        assert(lv.take(i + 1).drop_last() =~= lv.take(i as int));
        assert(lv.take(i + 1).last() == crate::paths::opt_view(lines@[i as int]));
        match &lines[i] {
            Some(line) => {
                let mut more: Vec<String> = split_entries(line);
                let ghost before = chain.deep_view();
                let ghost added = more.deep_view();
                chain.append(&mut more);
                assert(chain.deep_view() =~= before + added);
            },
            None => {
                proof {
                    lemma_chain_stops(lv, i + 1);
                }
                return None;
            },
        }
        i = i + 1;
    }
    assert(lv.take(i as int) =~= lv);
    Some(chain)
}

/// Whom a request counts against. `lines` are the lines of its forwarding chain, nothing for one
/// that could not be read.
pub fn client_id(peer: Option<Address>, lines: &Vec<Option<String>>, trusted: &Vec<Network>) -> (r:
    ClientId)
    requires
        all_well_formed(trusted@),
    ensures
        r == client(peer, lines_view(lines@), trusted@),
{
    let from: Address = match peer {
        None => {
            return ClientId::Unknown;
        },
        Some(p) => p,
    };
    if !is_trusted(from, trusted) {
        return ClientId::Addr(bucket_addr(from));
    }
    let chain: Vec<String> = match read_chain(lines) {
        None => {
            return ClientId::MalformedChain;
        },
        Some(c) => c,
    };
    let ghost cv = chain.deep_view();
    let mut n: usize = chain.len();
    while n > 0
        invariant
            n <= chain.len(),
            cv == chain.deep_view(),
            all_well_formed(trusted@),
            chain_client(cv, cv.len() as int, trusted@, from) == chain_client(
                cv,
                n as int,
                trusted@,
                from,
            ),
            client(peer, lines_view(lines@), trusted@) == chain_client(
                cv,
                cv.len() as int,
                trusted@,
                from,
            ),
        decreases n,
    {
        assert(cv[n - 1] == chain[n - 1]@);
        match parse_entry(&chain[n - 1]) {
            None => {
                return ClientId::MalformedChain;
            },
            Some(a) => {
                if !is_trusted(a, trusted) {
                    return ClientId::Addr(bucket_addr(a));
                }
            },
        }
        n = n - 1;
    }
    ClientId::Addr(bucket_addr(from))
}

/// How many sources are remembered.
pub const PRUNE_THRESHOLD: usize = 4096;

/// Whether a source may try now.
#[derive(Debug, Clone, Copy, PartialEq, Eq, Structural)]
pub enum Gate {
    /// It may; this try was counted.
    Allow,
    /// It may not: the credential is not to be looked at.
    Deny,
}

/// How tries are spaced.
#[derive(Debug, Clone, Copy, PartialEq, Eq, Structural)]
pub struct ThrottlePolicy {
    /// How many tries are free.
    pub free: u32,
    /// The first interval.
    pub base: u64,
    /// The longest interval.
    pub cap: u64,
    /// How long after its first try a source is forgotten.
    pub window: u64,
}

impl Default for ThrottlePolicy {
    fn default() -> (r: Self)
        ensures
            r == (ThrottlePolicy {
                free: 8,
                base: 500_000_000,
                cap: 30_000_000_000,
                window: 900_000_000_000,
            }),
    {
        ThrottlePolicy {
            free: 8,
            base: 500_000_000,
            cap: 30_000_000_000,
            window: 900_000_000_000,
        }
    }
}

/// What is remembered of a source.
#[derive(Debug, Clone, Copy, PartialEq, Eq, Structural)]
pub struct Failures {
    /// How many tries it had.
    pub count: u32,
    /// When it had the first one.
    pub first_at: u64,
    /// When it may try again.
    pub next_at: u128,
}

/// How long a source waits after its try number `count`: not at all while tries are free, then the
/// first interval, doubled for every further try, and never more than the longest interval.
pub open spec fn spacing(policy: ThrottlePolicy, count: u32) -> int {
    if count <= policy.free {
        0
    } else {
        let steps = count - policy.free - 1;
        let shift = if steps < 31 {
            steps
        } else {
            31
        };
        let wait = policy.base * pow2(shift as nat);
        if wait < policy.cap {
            wait
        } else {
            policy.cap as int
        }
    }
}

/// What is remembered of a source at its first try.
pub open spec fn fresh_failures(now: u64) -> Failures {
    Failures { count: 0, first_at: now, next_at: now as u128 }
}

/// What counts of what is remembered of a source: nothing if its first try is too long ago.
pub open spec fn current(policy: ThrottlePolicy, known: Option<Failures>, now: u64) -> Failures {
    match known {
        None => fresh_failures(now),
        Some(f) => if now - f.first_at > policy.window {
            fresh_failures(now)
        } else {
            f
        },
    }
}

/// Whether a source may try now.
pub open spec fn gate(policy: ThrottlePolicy, known: Option<Failures>, now: u64) -> Gate {
    if now < current(policy, known, now).next_at {
        Gate::Deny
    } else {
        Gate::Allow
    }
}

/// One more try; the count stays at its largest value.
pub open spec fn one_more(count: u32) -> u32 {
    if count < u32::MAX {
        (count + 1) as u32
    } else {
        count
    }
}

/// What is remembered of a source after a try that was allowed.
pub open spec fn after_try(policy: ThrottlePolicy, known: Option<Failures>, now: u64) -> Failures {
    let f = current(policy, known, now);
    Failures {
        count: one_more(f.count),
        first_at: f.first_at,
        next_at: (now + spacing(policy, one_more(f.count))) as u128,
    }
}

/// Whether no source is there twice.
pub open spec fn distinct_sources(known: Seq<(ClientId, Failures)>) -> bool {
    forall|i: int, j: int|
        0 <= i < j < known.len() ==> (#[trigger] known[i]).0 != (#[trigger] known[j]).0
}

/// Where a source is; -1 if it is not there.
pub open spec fn source_at(known: Seq<(ClientId, Failures)>, id: ClientId) -> int
    decreases known.len(),
{
    if known.len() == 0 {
        -1
    } else if known.last().0 == id {
        known.len() - 1
    } else {
        source_at(known.drop_last(), id)
    }
}

/// What is remembered of a source.
pub open spec fn known_of(known: Seq<(ClientId, Failures)>, id: ClientId) -> Option<Failures> {
    let i = source_at(known, id);
    if i >= 0 {
        Some(known[i].1)
    } else {
        None
    }
}

/// What is remembered once a source is remembered by `f`.
pub open spec fn with_source(
    known: Seq<(ClientId, Failures)>,
    id: ClientId,
    f: Failures,
) -> Seq<(ClientId, Failures)> {
    let i = source_at(known, id);
    if i >= 0 {
        known.update(i, (id, f))
    } else {
        known.push((id, f))
    }
}

/// The first source of all with the fewest tries among the first `n`.
pub open spec fn fewest(known: Seq<(ClientId, Failures)>, n: int) -> int
    decreases n,
{
    if n <= 1 {
        0
    } else {
        let m = fewest(known, n - 1);
        if known[n - 1].1.count < known[m].1.count {
            n - 1
        } else {
            m
        }
    }
}

/// What is remembered once there are too many sources: those with the fewest tries are forgotten,
/// one after the other, until there are not too many.
pub open spec fn pruned(known: Seq<(ClientId, Failures)>) -> Seq<(ClientId, Failures)>
    decreases known.len(),
{
    if known.len() > PRUNE_THRESHOLD {
        proof {
            lemma_fewest(known, known.len() as int);
        }
        pruned(known.remove(fewest(known, known.len() as int)))
    } else {
        known
    }
}

/// What is remembered after a source asked to try.
pub open spec fn asked(
    policy: ThrottlePolicy,
    known: Seq<(ClientId, Failures)>,
    id: ClientId,
    now: u64,
) -> Seq<(ClientId, Failures)> {
    if gate(policy, known_of(known, id), now) == Gate::Deny {
        known
    } else {
        pruned(with_source(known, id, after_try(policy, known_of(known, id), now)))
    }
}

/// What is remembered after a source's try succeeded: nothing of that source.
pub open spec fn succeeded(known: Seq<(ClientId, Failures)>, id: ClientId) -> Seq<
    (ClientId, Failures),
> {
    let i = source_at(known, id);
    if i >= 0 {
        known.remove(i)
    } else {
        known
    }
}

/// What holds of what is remembered: no source is there twice, and there are not too many.
pub open spec fn kept_small(known: Seq<(ClientId, Failures)>) -> bool {
    distinct_sources(known) && known.len() <= PRUNE_THRESHOLD
}

/// A place that is found is the source's.
proof fn lemma_source_at(known: Seq<(ClientId, Failures)>, id: ClientId)
    ensures
        -1 <= source_at(known, id) < known.len(),
        source_at(known, id) >= 0 ==> known[source_at(known, id)].0 == id,
        source_at(known, id) < 0 ==> forall|i: int|
            0 <= i < known.len() ==> (#[trigger] known[i]).0 != id,
    decreases known.len(),
{
    if known.len() > 0 && known.last().0 != id {
        lemma_source_at(known.drop_last(), id);
        assert forall|i: int| source_at(known, id) < 0 && 0 <= i < known.len() implies (
        #[trigger] known[i]).0 != id by {
            if i < known.len() - 1 {
                assert(known.drop_last()[i] == known[i]);
            }
        }
    }
}

/// In what is remembered once, the place of a source is where it stands.
proof fn lemma_source_place(known: Seq<(ClientId, Failures)>, i: int)
    requires
        distinct_sources(known),
        0 <= i < known.len(),
    ensures
        source_at(known, known[i].0) == i,
{
    let id = known[i].0;
    lemma_source_at(known, id);
    let j = source_at(known, id);
    if j < i && j >= 0 {
        assert(known[j].0 != known[i].0);
    }
    if i < j {
        assert(known[i].0 != known[j].0);
    }
}

/// Remembering a source keeps each source once.
proof fn lemma_with_source(known: Seq<(ClientId, Failures)>, id: ClientId, f: Failures)
    requires
        distinct_sources(known),
    ensures
        distinct_sources(with_source(known, id, f)),
        with_source(known, id, f).len() <= known.len() + 1,
{
    lemma_source_at(known, id);
    let after = with_source(known, id, f);
    assert forall|i: int, j: int| 0 <= i < j < after.len() implies (#[trigger] after[i]).0 != (
    #[trigger] after[j]).0 by {
        if source_at(known, id) >= 0 {
            assert(after[i].0 == known[i].0);
            assert(after[j].0 == known[j].0);
        } else {
            assert(after[i] == known[i]);
            if j < known.len() {
                assert(after[j] == known[j]);
            }
        }
    }
}

/// Forgetting a source keeps each source once.
proof fn lemma_removed(known: Seq<(ClientId, Failures)>, k: int)
    requires
        distinct_sources(known),
        0 <= k < known.len(),
    ensures
        distinct_sources(known.remove(k)),
        known.remove(k).len() == known.len() - 1,
{
    let after = known.remove(k);
    assert forall|i: int, j: int| 0 <= i < j < after.len() implies (#[trigger] after[i]).0 != (
    #[trigger] after[j]).0 by {
        let a = if i < k {
            i
        } else {
            i + 1
        };
        let b = if j < k {
            j
        } else {
            j + 1
        };
        assert(after[i] == known[a] && after[j] == known[b]);
    }
}

/// A source with the fewest tries is one, and none has fewer.
pub proof fn lemma_fewest(known: Seq<(ClientId, Failures)>, n: int)
    requires
        1 <= n <= known.len(),
    ensures
        0 <= fewest(known, n) < n,
        forall|i: int|
            0 <= i < n ==> known[fewest(known, n)].1.count <= (#[trigger] known[i]).1.count,
    decreases n,
{
    if n > 1 {
        lemma_fewest(known, n - 1);
    }
}

/// What is remembered stays small, whoever asks and whoever succeeds; and a try that is allowed
/// makes it so.
pub proof fn what_is_remembered_stays_small(
    policy: ThrottlePolicy,
    known: Seq<(ClientId, Failures)>,
    id: ClientId,
    now: u64,
)
    requires
        distinct_sources(known),
    ensures
        kept_small(known) ==> kept_small(asked(policy, known, id, now)),
        kept_small(known) ==> kept_small(succeeded(known, id)),
        gate(policy, known_of(known, id), now) == Gate::Allow ==> kept_small(
            asked(policy, known, id, now),
        ),
{
    lemma_with_source(known, id, after_try(policy, known_of(known, id), now));
    the_least_tried_are_forgotten(
        with_source(known, id, after_try(policy, known_of(known, id), now)),
    );
    lemma_source_at(known, id);
    if source_at(known, id) >= 0 {
        lemma_removed(known, source_at(known, id));
    }
}

/// Throttles the tries of each source.
#[derive(Debug, Clone)]
pub struct LoginThrottle {
    pub known: Vec<(ClientId, Failures)>,
    pub policy: ThrottlePolicy,
}

impl LoginThrottle {
    /// A throttle that no source has met.
    pub fn new(policy: ThrottlePolicy) -> (r: Self)
        ensures
            r.policy == policy,
            r.known@.len() == 0,
            kept_small(r.known@),
    {
        LoginThrottle { known: Vec::new(), policy }
    }

    /// How many sources are remembered.
    pub fn len(&self) -> (r: usize)
        ensures
            r == self.known@.len(),
    {
        self.known.len()
    }

    /// Where a source is.
    fn find(&self, id: ClientId) -> (r: Option<usize>)
        ensures
            match r {
                Some(i) => i == source_at(self.known@, id) && i < self.known@.len(),
                None => source_at(self.known@, id) < 0,
            },
    {
        let ghost all = self.known@;
        let mut i: usize = self.known.len();
        assert(all.take(i as int) =~= all);
        while i > 0
            invariant
                i <= self.known.len(),
                all == self.known@,
                source_at(all, id) == source_at(all.take(i as int), id),
            decreases i,
        {
            assert(all.take(i as int).drop_last() =~= all.take(i - 1));
            if self.known[i - 1].0 == id {
                return Some(i - 1);
            }
            i = i - 1;
        }
        None
    }

    /// How long a source waits after its try number `count`.
    pub fn spacing_for(&self, count: u32) -> (r: u64)
        ensures
            r == spacing(self.policy, count),
    {
        if count <= self.policy.free {
            return 0;
        }
        let steps: u32 = count - self.policy.free - 1;
        let shift: u32 = if steps < 31 {
            steps
        } else {
            31
        };
        let mut factor: u128 = 1;
        let mut k: u32 = 0;
        assert(pow2(0) == 1 && pow2(31) == 0x8000_0000) by {
            vstd::arithmetic::power2::lemma2_to64();
        }
        while k < shift
            invariant
                k <= shift <= 31,
                factor == pow2(k as nat),
                factor <= 0x8000_0000,
                k <= 31 && factor * pow2((31 - k) as nat) == 0x8000_0000,
            decreases shift - k,
        {
            proof {
                lemma_pow2_unfold((k + 1) as nat);
                lemma_pow2_unfold((31 - k) as nat);
                lemma_pow2_pos((31 - (k + 1)) as nat);
                let rest = pow2((31 - (k + 1)) as nat);
                assert(factor * (2 * rest) == (2 * factor) * rest) by (nonlinear_arith);
                assert(2 * factor <= (2 * factor) * rest) by (nonlinear_arith)
                    requires
                        rest >= 1,
                        factor >= 0,
                ;
            }
            factor = factor * 2;
            k = k + 1;
        }
        let base: u128 = self.policy.base as u128;
        assert(base * factor <= 0xffff_ffff_ffff_ffff * 0x8000_0000) by (nonlinear_arith)
            requires
                base <= 0xffff_ffff_ffff_ffff,
                factor <= 0x8000_0000,
        ;
        let wait: u128 = base * factor;
        if wait < self.policy.cap as u128 {
            wait as u64
        } else {
            self.policy.cap
        }
    }

    /// Forgets the sources with the fewest tries if there are too many.
    fn evict_if_needed(&mut self)
        ensures
            final(self).known@ == pruned(old(self).known@),
            final(self).policy == old(self).policy,
    {
        while self.known.len() > PRUNE_THRESHOLD
            invariant
                pruned(self.known@) == pruned(old(self).known@),
                self.policy == old(self).policy,
            decreases self.known.len(),
        {
            let mut m: usize = 0;
            let mut n: usize = 1;
            while n < self.known.len()
                invariant
                    1 <= n <= self.known.len(),
                    m < n,
                    m == fewest(self.known@, n as int),
                decreases self.known.len() - n,
            {
                if self.known[n].1.count < self.known[m].1.count {
                    m = n;
                }
                n = n + 1;
            }
            let gone: (ClientId, Failures) = self.known.remove(m);
        }
    }

    /// Whether a source may try now. A try that is allowed is counted at once, before the
    /// credential is looked at; one that is refused changes nothing.
    pub fn check(&mut self, id: ClientId, now: u64) -> (r: Gate)
        ensures
            r == gate(old(self).policy, known_of(old(self).known@, id), now),
            final(self).known@ == asked(old(self).policy, old(self).known@, id, now),
            final(self).policy == old(self).policy,
            kept_small(old(self).known@) ==> kept_small(final(self).known@),
            distinct_sources(old(self).known@) && r == Gate::Allow ==> kept_small(
                final(self).known@,
            ),
    {
        let ghost before = self.known@;
        let ghost policy = self.policy;
        proof {
            if distinct_sources(before) {
                what_is_remembered_stays_small(policy, before, id, now);
            }
        }
        let at: Option<usize> = self.find(id);
        let blank: Failures = Failures { count: 0, first_at: now, next_at: now as u128 };
        let f: Failures = match at {
            Some(i) => {
                let f: Failures = self.known[i].1;
                if now >= f.first_at && now - f.first_at > self.policy.window {
                    blank
                } else {
                    f
                }
            },
            None => blank,
        };
        assert(f == current(policy, known_of(before, id), now));
        if (now as u128) < f.next_at {
            return Gate::Deny;
        }
        let count: u32 = if f.count < u32::MAX {
            f.count + 1
        } else {
            f.count
        };
        let wait: u64 = self.spacing_for(count);
        let counted: Failures = Failures {
            count,
            first_at: f.first_at,
            next_at: now as u128 + wait as u128,
        };
        assert(counted == after_try(policy, known_of(before, id), now));
        match at {
            Some(i) => {
                self.known.set(i, (id, counted));
            },
            None => {
                self.known.push((id, counted));
            },
        }
        assert(self.known@ =~= with_source(before, id, counted));
        self.evict_if_needed();
        Gate::Allow
    }

    /// Whether the try number `count` was the first to reach the longest interval.
    pub fn reached_cap(&self, count: u32) -> (r: bool)
        ensures
            r == (spacing(self.policy, count) == self.policy.cap && spacing(
                self.policy,
                if count > 0 {
                    (count - 1) as u32
                } else {
                    0
                },
            ) != self.policy.cap),
    {
        let before: u32 = if count > 0 {
            count - 1
        } else {
            0
        };
        self.spacing_for(count) == self.policy.cap && self.spacing_for(before) != self.policy.cap
    }

    /// Forgets a source whose try succeeded.
    pub fn record_success(&mut self, id: ClientId)
        ensures
            final(self).known@ == succeeded(old(self).known@, id),
            final(self).policy == old(self).policy,
            kept_small(old(self).known@) ==> kept_small(final(self).known@),
    {
        proof {
            if kept_small(self.known@) {
                what_is_remembered_stays_small(self.policy, self.known@, id, 0);
            }
        }
        match self.find(id) {
            Some(i) => {
                let gone: (ClientId, Failures) = self.known.remove(i);
            },
            None => {},
        }
    }
}

/// Every address of the newer kind that shares its first half with another counts against the same
/// source, and one that shares it not counts against another.
pub proof fn networks_share_a_source(a: u128, b: u128)
    requires
        canonical(Address::V6(a)) == Address::V6(a),
        canonical(Address::V6(b)) == Address::V6(b),
    ensures
        bucket(Address::V6(a)) == bucket(Address::V6(b)) <==> a / 0x1_0000_0000_0000_0000 == b
            / 0x1_0000_0000_0000_0000,
{
}

/// An older address counts the same however it is written.
pub proof fn both_spellings_share_a_source(n: u32)
    ensures
        bucket(Address::V6((0xffff_0000_0000 + n) as u128)) == bucket(Address::V4(n)),
{
}

/// What a client that is no trusted proxy writes into a forwarding chain is not looked at.
pub proof fn untrusted_peers_cannot_forge(
    peer: Address,
    lines: Seq<Option<Seq<char>>>,
    other: Seq<Option<Seq<char>>>,
    trusted: Seq<Network>,
)
    requires
        !trusts(trusted, peer),
    ensures
        client(Some(peer), lines, trusted) == client(Some(peer), other, trusted),
        client(Some(peer), lines, trusted) == ClientId::Addr(bucket(peer)),
{
}

/// Behind trusted proxies, the address that the last of them saw decides: what a client put in
/// front of it does not matter.
pub proof fn forged_prefixes_are_ignored(
    forged: Seq<Seq<char>>,
    entry: Seq<char>,
    address: Address,
    trusted: Seq<Network>,
    peer: Address,
)
    requires
        entry_address(entry) == Some(address),
        !trusts(trusted, address),
    ensures
        chain_client(forged.push(entry), (forged.len() + 1) as int, trusted, peer) == ClientId::Addr(
            bucket(address),
        ),
{
}

/// The waits grow with the tries and never pass the longest interval.
pub proof fn waits_grow_to_the_cap(policy: ThrottlePolicy, count: u32)
    requires
        count < u32::MAX,
    ensures
        0 <= spacing(policy, count) <= spacing(policy, (count + 1) as u32) <= policy.cap,
{
    if count > policy.free {
        let steps = (count - policy.free - 1) as nat;
        if steps < 31 {
            lemma_pow2_unfold(steps + 1);
            lemma_pow2_pos(steps);
            let p = pow2(steps);
            assert(policy.base * p <= policy.base * (2 * p)) by (nonlinear_arith);
        }
    }
    lemma_spacing_positive(policy, count);
    lemma_spacing_positive(policy, (count + 1) as u32);
}

/// No wait is negative.
proof fn lemma_spacing_positive(policy: ThrottlePolicy, count: u32)
    ensures
        0 <= spacing(policy, count) <= policy.cap,
{
    if count > policy.free {
        let steps = count - policy.free - 1;
        let shift = if steps < 31 {
            steps
        } else {
            31
        };
        lemma_pow2_pos(shift as nat);
        let p = pow2(shift as nat);
        assert(policy.base * p >= 0) by (nonlinear_arith);
    }
}

/// After the free tries, each wait is twice the one before, until the longest interval is reached.
pub proof fn waits_double(policy: ThrottlePolicy, count: u32)
    requires
        policy.free < count < u32::MAX,
        count - policy.free <= 31,
        2 * spacing(policy, count) < policy.cap,
    ensures
        spacing(policy, (count + 1) as u32) == 2 * spacing(policy, count),
{
    let steps = (count - policy.free - 1) as nat;
    lemma_pow2_unfold(steps + 1);
    lemma_pow2_pos(steps);
    let p = pow2(steps);
    assert(policy.base * (2 * p) == 2 * (policy.base * p)) by (nonlinear_arith);
}

/// The first wait is the first interval.
pub proof fn the_first_wait_is_the_base(policy: ThrottlePolicy)
    requires
        policy.free < u32::MAX,
        policy.base <= policy.cap,
    ensures
        spacing(policy, (policy.free + 1) as u32) == policy.base,
{
    vstd::arithmetic::power2::lemma2_to64();
    assert(policy.base * 1 == policy.base);
}

/// What is remembered of a source that tried `n` times at one moment.
pub open spec fn tried_at_once(policy: ThrottlePolicy, now: u64, n: nat) -> Option<Failures>
    decreases n,
{
    if n == 0 {
        None
    } else {
        Some(after_try(policy, tried_at_once(policy, now, (n - 1) as nat), now))
    }
}

/// Tries at one moment are counted one by one.
proof fn lemma_tried_at_once(policy: ThrottlePolicy, now: u64, n: nat)
    requires
        n <= policy.free + 1,
        policy.free < u32::MAX,
    ensures
        tried_at_once(policy, now, n) matches Some(f) ==> f == (Failures {
            count: n as u32,
            first_at: now,
            next_at: (now + spacing(policy, n as u32)) as u128,
        }),
    decreases n,
{
    if n > 0 {
        lemma_tried_at_once(policy, now, (n - 1) as nat);
    }
}

/// At one moment a source that is not known gets its free tries and one more, and then none,
/// however many ask at once.
pub proof fn one_moment_admits_the_free_tries_and_one(policy: ThrottlePolicy, now: u64, n: nat)
    requires
        policy.free < u32::MAX,
        policy.base > 0,
        policy.cap > 0,
        n <= policy.free + 1,
    ensures
        gate(policy, tried_at_once(policy, now, n), now) == Gate::Allow <==> n <= policy.free,
{
    lemma_tried_at_once(policy, now, n);
    if n == policy.free + 1 {
        vstd::arithmetic::power2::lemma2_to64();
        assert(policy.base * 1 == policy.base);
        assert(spacing(policy, n as u32) > 0);
    }
}

/// A policy without a first interval refuses no one at the moment of a try.
pub proof fn no_base_no_gate(policy: ThrottlePolicy, count: u32)
    requires
        policy.base == 0,
    ensures
        spacing(policy, count) == 0,
{
    if count > policy.free {
        let steps = count - policy.free - 1;
        let shift = if steps < 31 {
            steps
        } else {
            31
        };
        let p = pow2(shift as nat);
        assert(0 * p == 0) by (nonlinear_arith);
    }
}

/// A refused try changes nothing: it does not lengthen the wait.
pub proof fn refused_tries_change_nothing(
    policy: ThrottlePolicy,
    known: Seq<(ClientId, Failures)>,
    id: ClientId,
    now: u64,
)
    requires
        gate(policy, known_of(known, id), now) == Gate::Deny,
    ensures
        asked(policy, known, id, now) == known,
{
}

/// A shut gate opens again exactly when the wait is over, if the source is not forgotten before.
pub proof fn the_gate_opens_when_the_wait_is_over(policy: ThrottlePolicy, f: Failures, now: u64)
    requires
        now >= f.first_at,
    ensures
        gate(policy, Some(f), now) == Gate::Allow <==> now >= f.next_at || now - f.first_at
            > policy.window,
{
}

/// A source whose first try is longer ago than the window is treated as one that is not known.
pub proof fn the_window_forgets(policy: ThrottlePolicy, f: Failures, now: u64)
    requires
        now - f.first_at > policy.window,
    ensures
        gate(policy, Some(f), now) == Gate::Allow,
        after_try(policy, Some(f), now) == after_try(policy, None, now),
{
}

/// A success opens a shut gate at once.
pub proof fn success_reopens_the_gate(
    policy: ThrottlePolicy,
    known: Seq<(ClientId, Failures)>,
    id: ClientId,
    now: u64,
)
    requires
        kept_small(known),
    ensures
        known_of(succeeded(known, id), id) is None,
        gate(policy, known_of(succeeded(known, id), id), now) == Gate::Allow,
{
    lemma_source_at(known, id);
    let after = succeeded(known, id);
    lemma_source_at(after, id);
    let i = source_at(known, id);
    let j = source_at(after, id);
    if j >= 0 && i >= 0 {
        let k = if j < i {
            j
        } else {
            j + 1
        };
        assert(after[j] == known[k]);
        if k < i {
            assert(known[k].0 != known[i].0);
        } else {
            assert(known[i].0 != known[k].0);
        }
    }
}

/// Sources are gated apart: what one source does leaves another as it is remembered, unless that
/// one is forgotten because there are too many.
pub proof fn sources_are_gated_apart(
    policy: ThrottlePolicy,
    known: Seq<(ClientId, Failures)>,
    id: ClientId,
    other: ClientId,
    now: u64,
)
    requires
        distinct_sources(known),
        id != other,
    ensures
        known_of(asked(policy, known, id, now), other) == known_of(known, other) || known_of(
            asked(policy, known, id, now),
            other,
        ) is None,
        known.len() < PRUNE_THRESHOLD ==> known_of(asked(policy, known, id, now), other) == known_of(
            known,
            other,
        ),
{
    let f = after_try(policy, known_of(known, id), now);
    let after = with_source(known, id, f);
    lemma_with_source(known, id, f);
    lemma_others_stay(known, id, f, other);
    the_least_tried_are_forgotten(after);
    lemma_source_at(pruned(after), other);
    let k = source_at(pruned(after), other);
    if k >= 0 {
        assert(known_of(after, pruned(after)[k].0) == Some(pruned(after)[k].1));
    }
}

/// Where there are too many sources, as many are forgotten as there are too many. The others are
/// remembered as before, and none that is forgotten had more tries than one that is not.
pub proof fn the_least_tried_are_forgotten(known: Seq<(ClientId, Failures)>)
    requires
        distinct_sources(known),
    ensures
        pruned(known).len() == if known.len() > PRUNE_THRESHOLD {
            PRUNE_THRESHOLD as int
        } else {
            known.len() as int
        },
        distinct_sources(pruned(known)),
        forall|k: int|
            0 <= k < pruned(known).len() ==> known_of(known, (#[trigger] pruned(known)[k]).0)
                == Some(pruned(known)[k].1),
        forall|r: int, k: int|
            0 <= r < known.len() && known_of(pruned(known), (#[trigger] known[r]).0) is None && 0
                <= k < pruned(known).len() ==> known[r].1.count <= (#[trigger] pruned(
                known,
            )[k]).1.count,
    decreases known.len(),
{
    let kept = pruned(known);
    if known.len() > PRUNE_THRESHOLD {
        let m = fewest(known, known.len() as int);
        let less = known.remove(m);
        lemma_fewest(known, known.len() as int);
        lemma_removed(known, m);
        the_least_tried_are_forgotten(less);
        assert forall|k: int| 0 <= k < kept.len() implies known_of(known, (#[trigger] kept[k]).0)
            == Some(kept[k].1) by {
            lemma_source_at(less, kept[k].0);
            let i = source_at(less, kept[k].0);
            let j = if i < m {
                i
            } else {
                i + 1
            };
            assert(known_of(less, kept[k].0) == Some(kept[k].1));
            assert(less[i] == known[j]);
            lemma_source_place(known, j);
        }
        assert forall|r: int, k: int|
            0 <= r < known.len() && known_of(kept, (#[trigger] known[r]).0) is None && 0 <= k
                < kept.len() implies known[r].1.count <= (#[trigger] kept[k]).1.count by {
            if r == m {
                lemma_source_at(known, kept[k].0);
                assert(known_of(known, kept[k].0) == Some(kept[k].1));
            } else {
                let i = if r < m {
                    r
                } else {
                    r - 1
                };
                assert(less[i] == known[r]);
            }
        }
    } else {
        assert forall|k: int| 0 <= k < kept.len() implies known_of(known, (#[trigger] kept[k]).0)
            == Some(kept[k].1) by {
            lemma_source_place(known, k);
        }
        assert forall|r: int| 0 <= r < known.len() implies known_of(
            kept,
            (#[trigger] known[r]).0,
        ) is Some by {
            lemma_source_place(known, r);
        }
    }
}

/// Where there is one source too many, one is forgotten.
proof fn lemma_pruned_once(known: Seq<(ClientId, Failures)>)
    requires
        known.len() == PRUNE_THRESHOLD + 1,
    ensures
        pruned(known) == known.remove(fewest(known, known.len() as int)),
{
    lemma_fewest(known, known.len() as int);
    assert(known.remove(fewest(known, known.len() as int)).len() == PRUNE_THRESHOLD);
    reveal_with_fuel(pruned, 2);
}

/// A flood of new sources does not push out a busy one: where a source that is not known asks, one
/// that had more than one try is remembered as before.
pub proof fn busy_sources_are_not_pushed_out(
    policy: ThrottlePolicy,
    known: Seq<(ClientId, Failures)>,
    id: ClientId,
    busy: ClientId,
    now: u64,
)
    requires
        kept_small(known),
        known_of(known, id) is None,
        known_of(known, busy) matches Some(f) && f.count > 1,
    ensures
        known_of(asked(policy, known, id, now), busy) == known_of(known, busy),
{
    let after = with_source(known, id, after_try(policy, None, now));
    lemma_with_source(known, id, after_try(policy, None, now));
    lemma_source_at(known, id);
    lemma_source_at(known, busy);
    let i = source_at(known, busy);
    assert(after[i] == known[i]);
    assert(after.last().1.count == 1);
    lemma_source_place(after, i);
    sources_are_gated_apart(policy, known, id, busy, now);
    if known_of(pruned(after), busy) is None {
        let n = after.len() - 1;
        assert(after.len() > PRUNE_THRESHOLD);
        lemma_pruned_once(after);
        lemma_fewest(after, after.len() as int);
        let m = fewest(after, after.len() as int);
        assert(after[m].1.count <= after[n].1.count);
        let at = if i < m {
            i
        } else {
            i - 1
        };
        lemma_removed(after, m);
        assert(after.remove(m)[at] == after[i]);
        lemma_source_place(after.remove(m), at);
    }
}

/// What a throttle is told of a source.
pub enum Visit {
    /// It asks to try, at this time.
    Asked(ClientId, u64),
    /// Its try succeeded.
    Succeeded(ClientId),
}

/// What is remembered after visits to a throttle that no source had met.
pub open spec fn remembered_after(policy: ThrottlePolicy, visits: Seq<Visit>) -> Seq<
    (ClientId, Failures),
>
    decreases visits.len(),
{
    if visits.len() == 0 {
        Seq::empty()
    } else {
        let before = remembered_after(policy, visits.drop_last());
        match visits.last() {
            Visit::Asked(id, now) => asked(policy, before, id, now),
            Visit::Succeeded(id) => succeeded(before, id),
        }
    }
}

/// Whether there were never too many sources, so that none was forgotten for that.
pub open spec fn never_crowded(policy: ThrottlePolicy, visits: Seq<Visit>) -> bool
    decreases visits.len(),
{
    visits.len() == 0 || (never_crowded(policy, visits.drop_last()) && (visits.last() matches
        Visit::Asked(id, now) ==> {
        let before = remembered_after(policy, visits.drop_last());
        with_source(before, id, after_try(policy, known_of(before, id), now)).len()
            <= PRUNE_THRESHOLD
    }))
}

/// The tries that count against a source.
pub struct Streak {
    /// When it had the first one.
    pub first: u64,
    /// How many it had.
    pub count: nat,
    /// When it had the latest one.
    pub latest: u64,
}

/// How long a source waits after so many tries: not at all while tries are free, then the first
/// interval, doubled for every further try, up to the longest interval.
pub open spec fn wait_after(policy: ThrottlePolicy, count: nat) -> int {
    if count <= policy.free {
        0
    } else {
        let wait = policy.base * pow2((count - policy.free - 1) as nat);
        if wait < policy.cap {
            wait
        } else {
            policy.cap as int
        }
    }
}

/// Whether a source with these tries has to wait: its first try is within the window, and the wait
/// after its latest try is not over.
pub open spec fn has_to_wait(policy: ThrottlePolicy, streak: Option<Streak>, now: u64) -> bool {
    streak matches Some(s) && now - s.first <= policy.window && now < s.latest + wait_after(
        policy,
        s.count,
    )
}

/// The tries that count against a source after visits: those that were allowed since it was last
/// not known, cleared by a success, or forgotten with the window. Visits of others do not enter.
pub open spec fn streak_of(policy: ThrottlePolicy, visits: Seq<Visit>, id: ClientId) -> Option<
    Streak,
>
    decreases visits.len(),
{
    if visits.len() == 0 {
        None
    } else {
        let before = streak_of(policy, visits.drop_last(), id);
        match visits.last() {
            Visit::Asked(who, now) => if who != id || has_to_wait(policy, before, now) {
                before
            } else if before is Some && now - before->0.first <= policy.window {
                Some(Streak { first: before->0.first, count: before->0.count + 1, latest: now })
            } else {
                Some(Streak { first: now, count: 1, latest: now })
            },
            Visit::Succeeded(who) => if who == id {
                None
            } else {
                before
            },
        }
    }
}

/// What is remembered of a source with these tries.
spec fn failures_of(policy: ThrottlePolicy, streak: Option<Streak>) -> Option<Failures> {
    match streak {
        None => None,
        Some(s) => Some(
            Failures {
                count: s.count as u32,
                first_at: s.first,
                next_at: (s.latest + wait_after(policy, s.count)) as u128,
            },
        ),
    }
}

/// Where doubling reaches the longest interval before it ends, the waits are the doubled ones.
proof fn lemma_wait_after(policy: ThrottlePolicy, count: nat)
    requires
        policy.base == 0 || policy.base * pow2(31) >= policy.cap,
        count <= u32::MAX,
    ensures
        wait_after(policy, count) == spacing(policy, count as u32),
        0 <= wait_after(policy, count) <= policy.cap,
{
    lemma_spacing_positive(policy, count as u32);
    if count > policy.free {
        let steps = (count - policy.free - 1) as nat;
        if steps >= 31 {
            let low = pow2(31);
            let high = pow2(steps);
            if steps > 31 {
                vstd::arithmetic::power2::lemma_pow2_strictly_increases(31, steps);
            }
            if policy.base == 0 {
                assert(0 * low == 0 && 0 * high == 0) by (nonlinear_arith);
            } else {
                let base = policy.base as int;
                assert(base * high >= base * low) by (nonlinear_arith)
                    requires
                        high >= low,
                        base >= 0,
                ;
            }
        }
    }
}

/// What is remembered of a source is what its tries give.
proof fn lemma_streak(policy: ThrottlePolicy, visits: Seq<Visit>, id: ClientId)
    requires
        never_crowded(policy, visits),
        policy.base == 0 || policy.base * pow2(31) >= policy.cap,
        visits.len() <= u32::MAX,
    ensures
        distinct_sources(remembered_after(policy, visits)),
        known_of(remembered_after(policy, visits), id) == failures_of(
            policy,
            streak_of(policy, visits, id),
        ),
        streak_of(policy, visits, id) matches Some(s) ==> 1 <= s.count <= visits.len(),
    decreases visits.len(),
{
    if visits.len() > 0 {
        let before = remembered_after(policy, visits.drop_last());
        let streak = streak_of(policy, visits.drop_last(), id);
        lemma_streak(policy, visits.drop_last(), id);
        match streak {
            Some(s) => {
                lemma_wait_after(policy, s.count);
                lemma_wait_after(policy, s.count + 1);
            },
            None => {},
        }
        lemma_wait_after(policy, 1);
        match visits.last() {
            Visit::Asked(who, now) => {
                let f = after_try(policy, known_of(before, who), now);
                let after = with_source(before, who, f);
                lemma_with_source(before, who, f);
                lemma_source_at(before, who);
                if who == id {
                    let i = source_at(before, id);
                    lemma_source_place(
                        after,
                        if i >= 0 {
                            i
                        } else {
                            after.len() - 1
                        },
                    );
                } else {
                    lemma_others_stay(before, who, f, id);
                }
            },
            Visit::Succeeded(who) => {
                lemma_source_at(before, who);
                let i = source_at(before, who);
                let after = succeeded(before, who);
                lemma_source_at(after, id);
                lemma_source_at(before, id);
                if i >= 0 {
                    lemma_removed(before, i);
                    let j = source_at(after, id);
                    let k = source_at(before, id);
                    if j >= 0 {
                        let at = if j < i {
                            j
                        } else {
                            j + 1
                        };
                        assert(after[j] == before[at]);
                        lemma_source_place(before, at);
                    }
                    if k >= 0 && k != i {
                        let at = if k < i {
                            k
                        } else {
                            k - 1
                        };
                        assert(after[at] == before[k]);
                        lemma_source_place(after, at);
                    }
                }
            },
        }
    }
}

/// Remembering one source leaves another as it is remembered.
proof fn lemma_others_stay(
    known: Seq<(ClientId, Failures)>,
    id: ClientId,
    f: Failures,
    other: ClientId,
)
    requires
        distinct_sources(known),
        id != other,
    ensures
        known_of(with_source(known, id, f), other) == known_of(known, other),
{
    let after = with_source(known, id, f);
    lemma_source_at(known, id);
    lemma_source_at(known, other);
    lemma_with_source(known, id, f);
    lemma_source_at(after, other);
    let i = source_at(known, other);
    let j = source_at(after, other);
    if i >= 0 {
        assert(after[i] == known[i]);
        lemma_source_place(after, i);
    } else if j >= 0 && j < known.len() {
        assert(after[j].0 == known[j].0);
    }
}

/// Over a whole history of visits, a source is refused exactly while it has to wait: its first try
/// since it was last not known, cleared or forgotten is within the window, and the wait after its
/// latest allowed try, which only the number of its allowed tries decides, is not over. Visits of
/// other sources do not matter, as long as there are never too many sources.
pub proof fn the_history_of_a_source_decides(
    policy: ThrottlePolicy,
    visits: Seq<Visit>,
    id: ClientId,
    now: u64,
)
    requires
        never_crowded(policy, visits),
        policy.base == 0 || policy.base * pow2(31) >= policy.cap,
        visits.len() <= u32::MAX,
    ensures
        gate(policy, known_of(remembered_after(policy, visits), id), now) == Gate::Deny
            <==> has_to_wait(policy, streak_of(policy, visits, id), now),
{
    lemma_streak(policy, visits, id);
    match streak_of(policy, visits, id) {
        Some(s) => {
            lemma_wait_after(policy, s.count);
        },
        None => {},
    }
}

/// A proxy that is trusted is passed on the way to the client: the address that the last proxy of
/// another saw decides, however many trusted ones forwarded the request after that.
pub proof fn trusted_hops_are_passed(
    before: Seq<Seq<char>>,
    entry: Seq<char>,
    hops: Seq<Seq<char>>,
    address: Address,
    trusted: Seq<Network>,
    peer: Address,
)
    requires
        entry_address(entry) == Some(address),
        !trusts(trusted, address),
        forall|i: int|
            0 <= i < hops.len() ==> (entry_address(#[trigger] hops[i]) matches Some(a) && trusts(
                trusted,
                a,
            )),
    ensures
        ({
            let chain = before.push(entry) + hops;
            chain_client(chain, chain.len() as int, trusted, peer)
                == ClientId::Addr(bucket(address))
        }),
    decreases hops.len(),
{
    let chain = before.push(entry) + hops;
    lemma_hops(chain, before.len() as int, chain.len() as int, trusted, peer);
    assert(chain[before.len() as int] == entry);
}

/// Trusted entries at the end of a chain do not decide.
proof fn lemma_hops(chain: Seq<Seq<char>>, at: int, n: int, trusted: Seq<Network>, peer: Address)
    requires
        0 <= at < n <= chain.len(),
        forall|i: int|
            at < i < n ==> (entry_address(#[trigger] chain[i]) matches Some(a) && trusts(
                trusted,
                a,
            )),
    ensures
        chain_client(chain, n, trusted, peer) == chain_client(chain, at + 1, trusted, peer),
    decreases n,
{
    if at + 1 < n {
        assert(entry_address(chain[n - 1]) matches Some(a) && trusts(trusted, a));
        lemma_hops(chain, at, n - 1, trusted, peer);
    }
}

/// Where all of a chain are trusted, the one that speaks is the client; an entry that is no address
/// makes the chain one of no one, unless the client was found before it was read.
pub proof fn chains_end_with_the_peer(
    chain: Seq<Seq<char>>,
    trusted: Seq<Network>,
    peer: Address,
    lines: Seq<Option<Seq<char>>>,
)
    ensures
        (forall|i: int|
            0 <= i < chain.len() ==> (entry_address(#[trigger] chain[i]) matches Some(a) && trusts(
                trusted,
                a,
            ))) ==> chain_client(chain, chain.len() as int, trusted, peer) == ClientId::Addr(
            bucket(peer),
        ),
        chain.len() > 0 && entry_address(chain.last()) is None ==> chain_client(
            chain,
            chain.len() as int,
            trusted,
            peer,
        ) == ClientId::MalformedChain,
        client(None, lines, trusted) == ClientId::Unknown,
{
    if chain.len() > 0 && forall|i: int|
        0 <= i < chain.len() ==> (entry_address(#[trigger] chain[i]) matches Some(a) && trusts(
            trusted,
            a,
        )) {
        lemma_hops(chain, 0, chain.len() as int, trusted, peer);
        assert(entry_address(chain[0]) matches Some(a) && trusts(trusted, a));
        assert(chain_client(chain, 0, trusted, peer) == ClientId::Addr(bucket(peer)));
        assert(chain_client(chain, 1, trusted, peer) == chain_client(chain, 0, trusted, peer));
    }
}

/// The lines of a chain are read as one, in order, and one that cannot be read spoils it.
pub proof fn lines_make_one_chain(
    lines: Seq<Option<Seq<char>>>,
    more: Seq<Option<Seq<char>>>,
    line: Seq<char>,
)
    ensures
        chain_of(lines + more) == (match (chain_of(lines), chain_of(more)) {
            (Some(a), Some(b)) => Some(a + b),
            _ => None,
        }),
        chain_of(seq![Some(line)]) == Some(entries_of(line)),
        chain_of(seq![None]) is None,
    decreases more.len(),
{
    reveal_with_fuel(chain_of, 2);
    assert(seq![Some(line)].drop_last() =~= Seq::<Option<Seq<char>>>::empty());
    assert(seq![None::<Seq<char>>].drop_last() =~= Seq::<Option<Seq<char>>>::empty());
    assert(Seq::<Seq<char>>::empty() + entries_of(line) =~= entries_of(line));
    if more.len() == 0 {
        assert(lines + more =~= lines);
        if chain_of(lines) is Some {
            assert(chain_of(lines)->0 + Seq::<Seq<char>>::empty() =~= chain_of(lines)->0);
        }
    } else {
        let fewer = more.drop_last();
        lines_make_one_chain(lines, fewer, line);
        assert((lines + more).drop_last() =~= lines + fewer);
        assert((lines + more).last() == more.last());
        if chain_of(lines) is Some && chain_of(fewer) is Some && more.last() is Some {
            assert((chain_of(lines)->0 + chain_of(fewer)->0) + entries_of(more.last()->0)
                =~= chain_of(lines)->0 + (chain_of(fewer)->0 + entries_of(more.last()->0)));
        }
    }
}


/// A proxy is trusted where one of the ranges holds its address, in its canonical form.
pub proof fn proxies_are_trusted_by_range(nets: Seq<Network>, more: Seq<Network>, net: Network, a: Address)
    ensures
        trusts(seq![net], a) <==> in_network(net, canonical(a)),
        trusts(nets + more, a) <==> trusts(nets, a) || trusts(more, a),
        !trusts(Seq::empty(), a),
{
    let one = seq![net];
    if in_network(net, canonical(a)) {
        assert(in_network(one[0], canonical(a)));
    }
    let both = nets + more;
    if trusts(nets, a) {
        let i = choose|i: int| 0 <= i < nets.len() && in_network(#[trigger] nets[i], canonical(a));
        assert(both[i] == nets[i]);
    }
    if trusts(more, a) {
        let i = choose|i: int| 0 <= i < more.len() && in_network(#[trigger] more[i], canonical(a));
        assert(both[nets.len() + i] == more[i]);
    }
    if trusts(both, a) {
        let i = choose|i: int| 0 <= i < both.len() && in_network(#[trigger] both[i], canonical(a));
        if i < nets.len() {
            assert(nets[i] == both[i]);
        } else {
            assert(more[i - nets.len()] == both[i]);
        }
    }
}

/// The entries of a line stand between commas, white space aside; empty ones do not count.
pub proof fn entries_stand_between_commas(entry: Seq<char>, rest: Seq<char>)
    requires
        !entry.contains(','),
    ensures
        entries_of(entry) == (if trim(entry).len() > 0 {
            seq![trim(entry)]
        } else {
            Seq::empty()
        }),
        entries_of(entry.push(',') + rest) == entries_of(entry) + entries_of(rest),
{
    reveal(Seq::filter);
    texts_are_cut_at_separators(entry, ',', rest);
    let cut = |e: Seq<char>| trim(e);
    let keep = |e: Seq<char>| e.len() > 0;
    let one = seq![trim(entry)];
    assert(seq![entry].map_values(cut) =~= one);
    assert(one.drop_last() =~= Seq::<Seq<char>>::empty());
    assert(Seq::<Seq<char>>::empty().filter(keep) =~= Seq::<Seq<char>>::empty());
    assert(entries_of(entry) =~= if trim(entry).len() > 0 {
        one
    } else {
        Seq::<Seq<char>>::empty()
    });
    let tail = split(rest, ',').map_values(cut);
    assert((seq![entry] + split(rest, ',')).map_values(cut) =~= one + tail);
    Seq::filter_distributes_over_add(one, tail, keep);
}


} // verus!
