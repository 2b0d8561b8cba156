//! The membership table: the registry of known peers and their liveness
//! state.
//!
//! The table is a sequence of nodes with pairwise-distinct addresses.
//! Joins upsert a peer as alive, probe rounds sample peers at random, and
//! diagnostics take a snapshot. The runtime shell guards one table with a
//! reader-writer lock and shares it between the probing and serving
//! threads; every operation here is a single atomic step under that lock.

use vstd::prelude::*;
use crate::address::Address;
use crate::rng::random_below;

verus! {

/// A peer's liveness state. `Alive` is set on every (re-)join; the
/// transition logic that would move a peer to `Suspected` is a deliberate
/// extension point, not implemented here.
#[derive(Clone, Copy, Debug, PartialEq, Eq, Structural)]
pub enum State {
    Alive,
    Suspected,
}

impl State {
    /// A short human-readable name for the state.
    pub fn as_str(&self) -> (r: &'static str)
        ensures
            self is Alive ==> r@ == "alive"@,
            self is Suspected ==> r@ == "suspected"@,
    {
        match self {
            State::Alive => "alive",
            State::Suspected => "suspected",
        }
    }
}

/// One tracked peer: its address and its liveness state.
#[derive(Clone, Copy, Debug, PartialEq, Eq, Structural)]
pub struct Node {
    pub address: Address,
    pub state: State,
}

/// No two entries name the same address.
pub open spec fn distinct_addresses(s: Seq<Node>) -> bool {
    forall|i: int, j: int|
        0 <= i < j < s.len() ==> (#[trigger] s[i]).address != (#[trigger] s[j]).address
}

/// Some entry names `a`.
pub open spec fn has_address(s: Seq<Node>, a: Address) -> bool {
    exists|i: int| 0 <= i < s.len() && (#[trigger] s[i]).address == a
}

/// An index of an entry naming `a`; with distinct addresses, the index.
pub open spec fn address_index(s: Seq<Node>, a: Address) -> int {
    choose|i: int| 0 <= i < s.len() && (#[trigger] s[i]).address == a
}

/// The state recorded for `a`.
pub open spec fn state_at(s: Seq<Node>, a: Address) -> State {
    s[address_index(s, a)].state
}

/// How many entries name `a`.
pub open spec fn address_count(s: Seq<Node>, a: Address) -> nat
    decreases s.len(),
{
    if s.len() == 0 {
        0
    } else {
        address_count(s.drop_last(), a) + if s.last().address == a {
            1nat
        } else {
            0nat
        }
    }
}

/// The table after upserting `a` as alive: the existing entry reset to
/// alive if one names `a`, a fresh alive entry appended otherwise.
pub open spec fn upserted(s: Seq<Node>, a: Address) -> Seq<Node> {
    if has_address(s, a) {
        s.update(address_index(s, a), Node { address: a, state: State::Alive })
    } else {
        s.push(Node { address: a, state: State::Alive })
    }
}

/// With distinct addresses, the entry naming `a` is at exactly one index.
pub proof fn lemma_address_index_unique(s: Seq<Node>, a: Address, i: int)
    requires
        distinct_addresses(s),
        0 <= i < s.len(),
        s[i].address == a,
    ensures
        has_address(s, a),
        address_index(s, a) == i,
{
    assert(has_address(s, a));
    let j = address_index(s, a);
    assert(0 <= j < s.len() && s[j].address == a);
    if i < j {
        assert(s[i].address != s[j].address);
    } else if j < i {
        assert(s[j].address != s[i].address);
    }
}

/// With distinct addresses, an address is named by exactly one entry if
/// it is present and by none otherwise.
pub proof fn lemma_address_count_distinct(s: Seq<Node>, a: Address)
    requires
        distinct_addresses(s),
    ensures
        address_count(s, a) == if has_address(s, a) {
            1nat
        } else {
            0nat
        },
    decreases s.len(),
{
    if s.len() == 0 {
        assert(!has_address(s, a));
    } else {
        let prefix = s.drop_last();
        let last = s.last();
        assert(forall|i: int| 0 <= i < prefix.len() ==> prefix[i] == s[i]);
        assert(distinct_addresses(prefix));
        lemma_address_count_distinct(prefix, a);
        if last.address == a {
            assert forall|i: int| 0 <= i < prefix.len() implies (#[trigger] prefix[i]).address
                != a by {
                assert(s[i].address != s[s.len() - 1].address);
            }
            assert(!has_address(prefix, a));
            assert(has_address(s, a)) by {
                assert(s[s.len() - 1].address == a);
            }
        } else {
            if has_address(prefix, a) {
                let i = choose|i: int|
                    0 <= i < prefix.len() && (#[trigger] prefix[i]).address == a;
                assert(s[i].address == a);
                assert(has_address(s, a));
            }
            if has_address(s, a) {
                let i = choose|i: int| 0 <= i < s.len() && (#[trigger] s[i]).address == a;
                assert(i < s.len() - 1);
                assert(prefix[i].address == a);
                assert(has_address(prefix, a));
            }
        }
    }
}

/// The concurrently shared registry of known peers.
pub struct MembershipTable {
    entries: Vec<Node>,
}

impl MembershipTable {
    /// The table as the sequence of its entries, in insertion order.
    pub closed spec fn view(&self) -> Seq<Node> {
        self.entries@
    }

    /// Well-formedness: at most one entry per distinct address.
    pub open spec fn wf(&self) -> bool {
        distinct_addresses(self@)
    }

    /// A fresh, empty table.
    pub fn new() -> (r: MembershipTable)
        ensures
            r@ == Seq::<Node>::empty(),
            r.wf(),
    {
        MembershipTable { entries: Vec::new() }
    }

    /// How many peers are tracked.
    pub fn len(&self) -> (r: usize)
        ensures
            r == self@.len(),
    {
        self.entries.len()
    }

    /// Whether no peer is tracked.
    pub fn is_empty(&self) -> (r: bool)
        ensures
            r == (self@.len() == 0),
    {
        self.entries.len() == 0
    }

    /// An executable check of [`wf`](Self::wf), for unverified callers
    /// that must establish it before handing the table to operations
    /// that require it.
    pub fn is_well_formed(&self) -> (r: bool)
        ensures
            r == self.wf(),
    {
        let n = self.entries.len();
        let mut i: usize = 0;
        while i < n
            invariant
                i <= n,
                n == self.entries@.len(),
                forall|p: int, q: int|
                    0 <= p < q < i ==> (#[trigger] self.entries@[p]).address
                        != (#[trigger] self.entries@[q]).address,
            decreases n - i,
        {
            let mut j: usize = 0;
            while j < i
                invariant
                    j <= i,
                    i < n,
                    n == self.entries@.len(),
                    forall|p: int, q: int|
                        0 <= p < q < i ==> (#[trigger] self.entries@[p]).address
                            != (#[trigger] self.entries@[q]).address,
                    forall|p: int|
                        0 <= p < j ==> (#[trigger] self.entries@[p]).address
                            != self.entries@[i as int].address,
                decreases i - j,
            {
                if self.entries[j].address == self.entries[i].address {
                    return false;
                }
                j += 1;
            }
            i += 1;
        }
        true
    }

    /// Whether some entry names `address`.
    pub fn contains(&self, address: Address) -> (r: bool)
        requires
            self.wf(),
        ensures
            r == has_address(self@, address),
    {
        let n = self.entries.len();
        let mut i: usize = 0;
        while i < n
            invariant
                i <= n,
                n == self.entries@.len(),
                forall|j: int| 0 <= j < i ==> (#[trigger] self.entries@[j]).address != address,
            decreases n - i,
        {
            if self.entries[i].address == address {
                return true;
            }
            i += 1;
        }
        false
    }

    /// The state recorded for `address`, if it is tracked.
    pub fn state_of(&self, address: Address) -> (r: Option<State>)
        requires
            self.wf(),
        ensures
            has_address(self@, address) ==> r == Some(state_at(self@, address)),
            !has_address(self@, address) ==> r is None,
    {
        let n = self.entries.len();
        let mut i: usize = 0;
        while i < n
            invariant
                i <= n,
                n == self.entries@.len(),
                self.wf(),
                forall|j: int| 0 <= j < i ==> (#[trigger] self.entries@[j]).address != address,
            decreases n - i,
        {
            if self.entries[i].address == address {
                proof {
                    lemma_address_index_unique(self@, address, i as int);
                }
                return Some(self.entries[i].state);
            }
            i += 1;
        }
        None
    }

    /// Inserts `address` as a fresh alive peer, or resets the one entry
    /// already naming it to alive. Idempotent; never removes entries.
    pub fn upsert_alive(&mut self, address: Address)
        requires
            old(self).wf(),
        ensures
            final(self).wf(),
            final(self)@ == upserted(old(self)@, address),
            has_address(final(self)@, address),
            state_at(final(self)@, address) == State::Alive,
            address_count(final(self)@, address) == 1,
            forall|a: Address|
                a != address ==> has_address(final(self)@, a) == has_address(old(self)@, a),
            forall|a: Address|
                a != address && has_address(old(self)@, a) ==> state_at(final(self)@, a)
                    == state_at(old(self)@, a),
            final(self)@.len() == if has_address(old(self)@, address) {
                old(self)@.len()
            } else {
                old(self)@.len() + 1
            },
    {
        let n = self.entries.len();
        let mut i: usize = 0;
        while i < n
            invariant
                i <= n,
                n == self.entries@.len(),
                self == old(self),
                self.wf(),
                forall|j: int| 0 <= j < i ==> (#[trigger] self.entries@[j]).address != address,
            decreases n - i,
        {
            if self.entries[i].address == address {
                proof {
                    lemma_address_index_unique(old(self)@, address, i as int);
                }
                self.entries[i] = Node { address, state: State::Alive };
                proof {
                    lemma_upsert_shape(old(self)@, address, self@);
                }
                return ;
            }
            i += 1;
        }
        assert(!has_address(old(self)@, address));
        self.entries.push(Node { address, state: State::Alive });
        proof {
            lemma_upsert_shape(old(self)@, address, self@);
        }
    }
    /// Up to `count` distinct tracked peers, chosen uniformly at random
    /// by a partial shuffle of the entry indices. On an empty table the
    /// selection is empty; on a one-entry table it is that entry.
    pub fn sample_random(&self, count: usize) -> (r: Vec<Node>)
        requires
            self.wf(),
        ensures
            r@.len() == if count <= self@.len() {
                count as int
            } else {
                self@.len() as int
            },
            forall|q: int| 0 <= q < r@.len() ==> self@.contains(#[trigger] r@[q]),
            forall|q1: int, q2: int|
                0 <= q1 < q2 < r@.len() ==> r@[q1].address != r@[q2].address,
            self@.len() == 1 && count >= 1 ==> r@[0] == self@[0],
    {
        let n = self.entries.len();
        let k = if count < n {
            count
        } else {
            n
        };
        let mut idx: Vec<usize> = Vec::new();
        let mut i: usize = 0;
        while i < n
            invariant
                i <= n,
                idx@.len() == i,
                forall|p: int| 0 <= p < i ==> #[trigger] idx@[p] == p,
            decreases n - i,
        {
            idx.push(i);
            i += 1;
        }
        let mut j: usize = 0;
        while j < k
            invariant
                j <= k,
                k <= n,
                idx@.len() == n,
                forall|p: int| 0 <= p < n ==> #[trigger] idx@[p] < n,
                forall|p: int, q: int| 0 <= p < q < n ==> idx@[p] != idx@[q],
            decreases k - j,
        {
            let draw = random_below(n - j);
            let pick = j + draw;
            let at_j = idx[j];
            let at_pick = idx[pick];
            idx[j] = at_pick;
            idx[pick] = at_j;
            j += 1;
        }
        let mut out: Vec<Node> = Vec::new();
        let mut t: usize = 0;
        while t < k
            invariant
                t <= k,
                k <= n,
                n == self.entries@.len(),
                self.wf(),
                idx@.len() == n,
                forall|p: int| 0 <= p < n ==> #[trigger] idx@[p] < n,
                forall|p: int, q: int| 0 <= p < q < n ==> idx@[p] != idx@[q],
                out@.len() == t,
                forall|q: int| 0 <= q < t ==> #[trigger] out@[q] == self.entries@[idx@[q] as int],
            decreases k - t,
        {
            out.push(self.entries[idx[t]]);
            t += 1;
        }
        assert forall|q1: int, q2: int| 0 <= q1 < q2 < out@.len() implies out@[q1].address
            != out@[q2].address by {
            let i1 = idx@[q1] as int;
            let i2 = idx@[q2] as int;
            assert(idx@[q1] != idx@[q2]);
            if i1 < i2 {
                assert(self.entries@[i1].address != self.entries@[i2].address);
            } else {
                assert(self.entries@[i2].address != self.entries@[i1].address);
            }
        }
        assert forall|q: int| 0 <= q < out@.len() implies self@.contains(#[trigger] out@[q]) by {
            let w = idx@[q] as int;
            assert(0 <= w < self@.len() && out@[q] == self@[w]);
        }
        out
    }

    /// A read-only rendering of every entry, in table order, for
    /// diagnostics.
    pub fn snapshot(&self) -> (r: Vec<Node>)
        ensures
            r@ == self@,
    {
        let n = self.entries.len();
        let mut out: Vec<Node> = Vec::new();
        let mut i: usize = 0;
        while i < n
            invariant
                i <= n,
                n == self.entries@.len(),
                out@.len() == i,
                forall|j: int| 0 <= j < i ==> #[trigger] out@[j] == self.entries@[j],
            decreases n - i,
        {
            out.push(self.entries[i]);
            i += 1;
        }
        assert(out@ =~= self@);
        out
    }
}

/// From the shape of an upsert result (update-in-place or push), every
/// observable clause of `upsert_alive`'s contract follows.
pub proof fn lemma_upsert_shape(s: Seq<Node>, address: Address, t: Seq<Node>)
    requires
        distinct_addresses(s),
        t == upserted(s, address),
    ensures
        distinct_addresses(t),
        has_address(t, address),
        state_at(t, address) == State::Alive,
        address_count(t, address) == 1,
        forall|a: Address| a != address ==> has_address(t, a) == has_address(s, a),
        forall|a: Address|
            a != address && has_address(s, a) ==> state_at(t, a) == state_at(s, a),
        t.len() == if has_address(s, address) {
            s.len()
        } else {
            s.len() + 1
        },
{
    let node = Node { address, state: State::Alive };
    let k: int = if has_address(s, address) {
        address_index(s, address)
    } else {
        s.len() as int
    };
    if has_address(s, address) {
        assert(0 <= k < s.len() && s[k].address == address);
    }
    // In both shapes: t agrees with s everywhere but index k, where the
    // entry is `node`; and t's addresses agree with s's on 0..s.len().
    assert(t.len() == if has_address(s, address) { s.len() as int } else { s.len() + 1 as int });
    assert(forall|i: int| 0 <= i < t.len() && i != k ==> t[i] == s[i]);
    assert(t[k] == node);
    assert(forall|i: int| 0 <= i < t.len() ==> (#[trigger] t[i]).address == if i < s.len() {
        s[i].address
    } else {
        address
    });
    assert forall|i: int, j: int| 0 <= i < j < t.len() implies (#[trigger] t[i]).address
        != (#[trigger] t[j]).address by {
        if j < s.len() {
            assert(s[i].address != s[j].address);
        } else {
            // j is a pushed fresh entry: address occurs nowhere in s
            assert(!has_address(s, address));
            assert(t[j].address == address);
            if s[i].address == address {
                assert(has_address(s, address));
            }
        }
    }
    lemma_address_index_unique(t, address, k);
    lemma_address_count_distinct(t, address);
    assert forall|a: Address| a != address implies has_address(t, a) == has_address(s, a) by {
        if has_address(s, a) {
            let i = choose|i: int| 0 <= i < s.len() && (#[trigger] s[i]).address == a;
            assert(i != k);
            assert(t[i] == s[i]);
            assert(has_address(t, a));
        }
        if has_address(t, a) {
            let i = choose|i: int| 0 <= i < t.len() && (#[trigger] t[i]).address == a;
            assert(i != k);
            assert(i < s.len());
            assert(s[i].address == a);
            assert(has_address(s, a));
        }
    }
    assert forall|a: Address| a != address && has_address(s, a) implies state_at(t, a)
        == state_at(s, a) by {
        let i = address_index(s, a);
        assert(0 <= i < s.len() && s[i].address == a);
        assert(i != k);
        assert(t[i] == s[i]);
        lemma_address_index_unique(t, a, i);
    }
}

/// The table after upserting each address in `addrs`, in order.
pub open spec fn upserted_all(s: Seq<Node>, addrs: Seq<Address>) -> Seq<Node>
    decreases addrs.len(),
{
    if addrs.len() == 0 {
        s
    } else {
        upserted_all(upserted(s, addrs[0]), addrs.skip(1))
    }
}

/// A batch of upserts of pairwise-distinct, not-yet-tracked addresses
/// leaves every prior and every new address tracked, with one entry
/// each: the table grows by exactly one entry per address, however the
/// upserts are ordered among reads. (Concurrent runs interleave to some
/// such order, each operation being one atomic step under the table's
/// lock.)
pub proof fn lemma_upserts_distinct_fresh(s: Seq<Node>, addrs: Seq<Address>)
    requires
        distinct_addresses(s),
        forall|p: int, q: int| 0 <= p < q < addrs.len() ==> addrs[p] != addrs[q],
        forall|p: int| 0 <= p < addrs.len() ==> !has_address(s, #[trigger] addrs[p]),
    ensures
        distinct_addresses(upserted_all(s, addrs)),
        upserted_all(s, addrs).len() == s.len() + addrs.len(),
        forall|a: Address|
            #[trigger] has_address(upserted_all(s, addrs), a) == (has_address(s, a)
                || addrs.contains(a)),
    decreases addrs.len(),
{
    if addrs.len() == 0 {
        assert(forall|a: Address| !addrs.contains(a));
    } else {
        let a0 = addrs[0];
        let s1 = upserted(s, a0);
        let tail = addrs.skip(1);
        lemma_upsert_shape(s, a0, s1);
        assert(s1.len() == s.len() + 1);
        assert forall|p: int| 0 <= p < tail.len() implies !has_address(s1, #[trigger] tail[p]) by {
            assert(tail[p] == addrs[p + 1]);
            assert(addrs[0] != addrs[p + 1]);
            assert(!has_address(s, addrs[p + 1]));
        }
        lemma_upserts_distinct_fresh(s1, tail);
        assert forall|a: Address|
            #[trigger] has_address(upserted_all(s, addrs), a) == (has_address(s, a)
                || addrs.contains(a)) by {
            assert(upserted_all(s, addrs) == upserted_all(s1, tail));
            assert(has_address(upserted_all(s1, tail), a) == (has_address(s1, a)
                || tail.contains(a)));
            if a == a0 {
                assert(addrs.contains(a)) by {
                    assert(addrs[0] == a);
                }
                assert(has_address(s1, a));
            } else {
                assert(has_address(s1, a) == has_address(s, a));
                assert(tail.contains(a) == addrs.contains(a)) by {
                    if tail.contains(a) {
                        let p = choose|p: int| 0 <= p < tail.len() && tail[p] == a;
                        assert(addrs[p + 1] == a);
                    }
                    if addrs.contains(a) {
                        let p = choose|p: int| 0 <= p < addrs.len() && addrs[p] == a;
                        assert(p != 0);
                        assert(tail[p - 1] == a);
                    }
                }
            }
        }
    }
}

/// Upserting the same address twice leaves exactly the table the first
/// upsert left: the second pass finds the entry alive and rewrites it
/// unchanged.
pub proof fn lemma_upsert_idempotent(s: Seq<Node>, a: Address)
    requires
        distinct_addresses(s),
    ensures
        upserted(upserted(s, a), a) == upserted(s, a),
        address_count(upserted(s, a), a) == 1,
        state_at(upserted(s, a), a) == State::Alive,
{
    let t = upserted(s, a);
    lemma_upsert_shape(s, a, t);
    let node = Node { address: a, state: State::Alive };
    let k = address_index(t, a);
    assert(t[k] == node);
    assert(upserted(t, a) == t.update(k, node));
    assert(t.update(k, node) =~= t);
}

} // verus!
