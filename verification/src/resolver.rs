//! The resolver's verified core: the wire messages of the read and write
//! roles, the path store, the per-writer session table with its TTL
//! cleanup, the write batch handler with its `Clear` splitting, and the
//! listener ownership check.

use vstd::prelude::*;
use vstd::string::*;
use crate::pack::get_u64_be;

verus! {

/// The wire protocol version both sides exchange before any hello.
/// Future extensions must negotiate here.
pub const PROTO_VERSION: u64 = 1;

/// A network endpoint: a numeric host address and a port.
#[derive(Debug, Clone, Copy, PartialEq, Eq, Structural, Hash)]
pub struct Addr {
    pub ip: u128,
    pub port: u16,
}

/// A request on the write half of a resolver connection.
#[derive(Debug, Clone, PartialEq)]
pub enum ToWrite {
    Publish(String),
    PublishDefault(String),
    PublishWithFlags(String, u32),
    PublishDefaultWithFlags(String, u32),
    Unpublish(String),
    UnpublishDefault(String),
    Clear,
    Heartbeat,
}

/// An acknowledgement on the write half.
#[derive(Debug, Clone, Copy, PartialEq, Eq, Structural)]
pub enum FromWrite {
    Published,
    Unpublished,
}

/// The ack one write request earns, if any: publications are
/// acknowledged `Published`, removals and `Clear` are acknowledged
/// `Unpublished`, and a heartbeat earns nothing.
pub open spec fn ack_of(m: ToWrite) -> Option<FromWrite> {
    match m {
        ToWrite::Heartbeat => None,
        ToWrite::Publish(_) => Some(FromWrite::Published),
        ToWrite::PublishDefault(_) => Some(FromWrite::Published),
        ToWrite::PublishWithFlags(_, _) => Some(FromWrite::Published),
        ToWrite::PublishDefaultWithFlags(_, _) => Some(FromWrite::Published),
        ToWrite::Unpublish(_) => Some(FromWrite::Unpublished),
        ToWrite::UnpublishDefault(_) => Some(FromWrite::Unpublished),
        ToWrite::Clear => Some(FromWrite::Unpublished),
    }
}

/// The acks a whole batch earns, in arrival order.
pub open spec fn acks_of(batch: Seq<ToWrite>) -> Seq<FromWrite>
    decreases batch.len(),
{
    if batch.len() == 0 {
        Seq::empty()
    } else {
        acks_of(batch.drop_last()) + match ack_of(batch.last()) {
            Some(a) => seq![a],
            None => Seq::empty(),
        }
    }
}

/// One registration at the store: a path owned by a writer address.
pub type StoreEntry = (Seq<char>, Addr);

/// The path store: which writer address registered which path. The
/// in-memory index behind it is out of scope; this carries exactly the
/// ownership facts the session layer needs.
pub struct Store {
    pub entries: Vec<(String, Addr)>,
}

impl Store {
    pub open spec fn view_entries(self) -> Seq<StoreEntry> {
        self.entries@.map_values(|e: (String, Addr)| (e.0@, e.1))
    }

    pub open spec fn holds(self, path: Seq<char>, addr: Addr) -> bool {
        self.view_entries().contains((path, addr))
    }

    pub fn new() -> (r: Store)
        ensures
            r.view_entries() == Seq::<StoreEntry>::empty(),
    {
        let r = Store { entries: Vec::new() };
        proof {
            assert(r.view_entries() =~= Seq::<StoreEntry>::empty());
        }
        r
    }

    /// Register `path` as owned by `addr`.
    pub fn publish(&mut self, path: &String, addr: Addr)
        ensures
            final(self).view_entries() == old(self).view_entries().push((path@, addr)),
    {
        self.entries.push((path.clone(), addr));
        proof {
            assert(self.view_entries() =~= old(self).view_entries().push((path@, addr)));
        }
    }

    /// Remove every registration of `path` by `addr`.
    pub fn unpublish(&mut self, path: &String, addr: Addr)
        ensures
            final(self).view_entries() == without_entry(
                old(self).view_entries(),
                path@,
                addr,
            ),
    {
        let n = self.entries.len();
        let mut out: Vec<(String, Addr)> = Vec::new();
        let mut i: usize = 0;
        proof {
            assert(old(self).view_entries().take(0) =~= Seq::<StoreEntry>::empty());
            assert(out@.map_values(|e: (String, Addr)| (e.0@, e.1)) =~= without_entry(
                old(self).view_entries().take(0),
                path@,
                addr,
            ));
        }
        while i < n
            invariant
                0 <= i <= n,
                n == self.entries@.len(),
                *self == *old(self),
                out@.map_values(|e: (String, Addr)| (e.0@, e.1)) == without_entry(
                    old(self).view_entries().take(i as int),
                    path@,
                    addr,
                ),
            decreases n - i,
        {
            let e = &self.entries[i];
            let keep = !(crate::text::str_eq_str(e.0.as_str(), path.as_str())
                && e.1 == addr);
            let ghost before = out@;
            if keep {
                let c = (e.0.clone(), e.1);
                out.push(c);
            }
            proof {
                assert(old(self).view_entries().take(i + 1).drop_last() =~= old(
                    self,
                ).view_entries().take(i as int));
                assert(old(self).view_entries().take(i + 1).last() == (
                    self.entries@[i as int].0@,
                    self.entries@[i as int].1,
                ));
                if keep {
                    assert(out@.map_values(|e: (String, Addr)| (e.0@, e.1))
                        =~= before.map_values(|e: (String, Addr)| (e.0@, e.1)).push(
                        (self.entries@[i as int].0@, self.entries@[i as int].1),
                    ));
                }
            }
            i += 1;
        }
        proof {
            assert(old(self).view_entries().take(n as int) =~= old(self).view_entries());
        }
        self.entries = out;
    }

    /// Remove every registration held by `addr`: the `Clear` and TTL
    /// cleanup path. Afterwards the store reports no path owned by the
    /// writer.
    pub fn handle_clear(&mut self, addr: Addr)
        ensures
            final(self).view_entries() == without_addr(old(self).view_entries(), addr),
            forall|p: Seq<char>| !final(self).holds(p, addr),
    {
        let n = self.entries.len();
        let mut out: Vec<(String, Addr)> = Vec::new();
        let mut i: usize = 0;
        proof {
            assert(old(self).view_entries().take(0) =~= Seq::<StoreEntry>::empty());
            assert(out@.map_values(|e: (String, Addr)| (e.0@, e.1)) =~= without_addr(
                old(self).view_entries().take(0),
                addr,
            ));
        }
        while i < n
            invariant
                0 <= i <= n,
                n == self.entries@.len(),
                *self == *old(self),
                out@.map_values(|e: (String, Addr)| (e.0@, e.1)) == without_addr(
                    old(self).view_entries().take(i as int),
                    addr,
                ),
            decreases n - i,
        {
            let e = &self.entries[i];
            let ghost before = out@;
            if !(e.1 == addr) {
                let c = (e.0.clone(), e.1);
                out.push(c);
            }
            proof {
                assert(old(self).view_entries().take(i + 1).drop_last() =~= old(
                    self,
                ).view_entries().take(i as int));
                assert(old(self).view_entries().take(i + 1).last() == (
                    self.entries@[i as int].0@,
                    self.entries@[i as int].1,
                ));
                if self.entries@[i as int].1 != addr {
                    assert(out@.map_values(|e: (String, Addr)| (e.0@, e.1))
                        =~= before.map_values(|e: (String, Addr)| (e.0@, e.1)).push(
                        (self.entries@[i as int].0@, self.entries@[i as int].1),
                    ));
                }
            }
            i += 1;
        }
        proof {
            assert(old(self).view_entries().take(n as int) =~= old(self).view_entries());
        }
        self.entries = out;
        proof {
            lemma_without_addr_clean(old(self).view_entries(), addr);
        }
    }

    /// The addresses that registered `path`, in registration order.
    pub fn resolve(&self, path: &String) -> (r: Vec<Addr>)
        ensures
            r@ == addrs_of(self.view_entries(), path@),
    {
        let n = self.entries.len();
        let mut out: Vec<Addr> = Vec::new();
        let mut i: usize = 0;
        proof {
            assert(self.view_entries().take(0) =~= Seq::<StoreEntry>::empty());
            assert(out@ =~= addrs_of(self.view_entries().take(0), path@));
        }
        while i < n
            invariant
                0 <= i <= n,
                n == self.entries@.len(),
                out@ == addrs_of(self.view_entries().take(i as int), path@),
            decreases n - i,
        {
            let e = &self.entries[i];
            if crate::text::str_eq_str(e.0.as_str(), path.as_str()) {
                out.push(e.1);
            }
            proof {
                assert(self.view_entries().take(i + 1).drop_last()
                    =~= self.view_entries().take(i as int));
                assert(self.view_entries().take(i + 1).last() == (
                    self.entries@[i as int].0@,
                    self.entries@[i as int].1,
                ));
            }
            i += 1;
        }
        proof {
            assert(self.view_entries().take(n as int) =~= self.view_entries());
        }
        out
    }
}

/// `s` with every registration of `path` by `addr` removed.
pub open spec fn without_entry(s: Seq<StoreEntry>, path: Seq<char>, addr: Addr) -> Seq<
    StoreEntry,
>
    decreases s.len(),
{
    if s.len() == 0 {
        Seq::empty()
    } else {
        without_entry(s.drop_last(), path, addr) + if s.last() == (path, addr) {
            Seq::empty()
        } else {
            seq![s.last()]
        }
    }
}

/// `s` with every registration by `addr` removed.
pub open spec fn without_addr(s: Seq<StoreEntry>, addr: Addr) -> Seq<StoreEntry>
    decreases s.len(),
{
    if s.len() == 0 {
        Seq::empty()
    } else {
        without_addr(s.drop_last(), addr) + if s.last().1 == addr {
            Seq::empty()
        } else {
            seq![s.last()]
        }
    }
}

/// The addresses registered for `path`, in order.
pub open spec fn addrs_of(s: Seq<StoreEntry>, path: Seq<char>) -> Seq<Addr>
    decreases s.len(),
{
    if s.len() == 0 {
        Seq::empty()
    } else {
        addrs_of(s.drop_last(), path) + if s.last().0 == path {
            seq![s.last().1]
        } else {
            Seq::empty()
        }
    }
}

/// The server's record of one writer session.
#[derive(Debug, Clone, Copy, PartialEq, Eq, Structural)]
pub enum ClientInfo {
    /// a live session, with the handle that cancels it
    Running { session: u64 },
    /// cleanup in progress, with how many arrivals wait for it to finish
    CleaningUp { waiters: u64 },
}

/// The writer-address table: exactly one state per writer address.
pub struct Clinfos {
    pub entries: Vec<(Addr, ClientInfo)>,
}

/// What greeting a writer finds in the table.
#[derive(Debug, Clone, Copy, PartialEq, Eq, Structural)]
pub enum WriterGreeting {
    /// no live session: previous publications were reclaimed
    Fresh,
    /// a live session exists: its publications are still current
    Current { prev_session: u64 },
    /// cleanup is running: the writer must wait and retry
    MustWait,
}

impl Clinfos {
    pub open spec fn wf(self) -> bool {
        forall|i: int, j: int|
            0 <= i < j < self.entries@.len() ==> (#[trigger] self.entries@[i]).0 != (
            #[trigger] self.entries@[j]).0
    }

    pub open spec fn state_of(self, addr: Addr) -> Option<ClientInfo> {
        if exists|i: int| 0 <= i < self.entries@.len() && (#[trigger] self.entries@[i]).0
            == addr {
            let i = choose|i: int|
                0 <= i < self.entries@.len() && (#[trigger] self.entries@[i]).0 == addr;
            Some(self.entries@[i].1)
        } else {
            None
        }
    }

    pub fn new() -> (r: Clinfos)
        ensures
            r.wf(),
            forall|a: Addr| r.state_of(a) is None,
    {
        Clinfos { entries: Vec::new() }
    }

    fn find(&self, addr: Addr) -> (r: Option<usize>)
        requires
            self.wf(),
        ensures
            r matches Some(i) ==> i < self.entries@.len() && self.entries@[i as int].0
                == addr && self.state_of(addr) == Some(self.entries@[i as int].1),
            r is None ==> self.state_of(addr) is None,
    {
        let n = self.entries.len();
        let mut i: usize = 0;
        while i < n
            invariant
                0 <= i <= n,
                n == self.entries@.len(),
                self.wf(),
                forall|k: int| 0 <= k < i ==> (#[trigger] self.entries@[k]).0 != addr,
            decreases n - i,
        {
            if self.entries[i].0 == addr {
                return Some(i);
            }
            i += 1;
        }
        None
    }

    /// What greets a writer claiming `addr`: its previous publications
    /// are reported expired exactly when no live session holds the
    /// address, and cleanup in progress means wait and retry.
    pub fn greet_writer(&self, addr: Addr) -> (r: WriterGreeting)
        requires
            self.wf(),
        ensures
            r == (match self.state_of(addr) {
                Option::<ClientInfo>::None => WriterGreeting::Fresh,
                Some(ClientInfo::Running { session }) => WriterGreeting::Current {
                    prev_session: session,
                },
                Some(ClientInfo::CleaningUp { .. }) => WriterGreeting::MustWait,
            }),
    {
        match self.find(addr) {
            None => WriterGreeting::Fresh,
            Some(i) => match self.entries[i].1 {
                ClientInfo::Running { session } => WriterGreeting::Current {
                    prev_session: session,
                },
                ClientInfo::CleaningUp { .. } => WriterGreeting::MustWait,
            },
        }
    }

    /// Register a new running session for `addr`, cancelling the previous
    /// one where it exists. Returns the session to cancel. Exactly one
    /// session per address remains.
    pub fn register_writer(&mut self, addr: Addr, session: u64) -> (r: Result<
        Option<u64>,
        (),
    >)
        requires
            old(self).wf(),
        ensures
            final(self).wf(),
            r matches Ok(prev) ==> final(self).state_of(addr) == Some(
                ClientInfo::Running { session },
            ) && (match old(self).state_of(addr) {
                Option::<ClientInfo>::None => prev is None,
                Some(ClientInfo::Running { session: p }) => prev == Some(p),
                Some(ClientInfo::CleaningUp { .. }) => false,
            }) && (forall|a: Addr|
                a != addr ==> final(self).state_of(a) == old(self).state_of(a)),
            r is Err ==> (old(self).state_of(addr) matches Some(
                ClientInfo::CleaningUp { .. },
            )) && *final(self) == *old(self),
    {
        match self.find(addr) {
            None => {
                self.entries.push((addr, ClientInfo::Running { session }));
                proof {
                    lemma_state_after_push(*old(self), *self, addr, session);
                }
                Ok(None)
            }
            Some(i) => match self.entries[i].1 {
                ClientInfo::CleaningUp { .. } => Err(()),
                ClientInfo::Running { session: p } => {
                    self.entries.set(i, (addr, ClientInfo::Running { session }));
                    proof {
                        lemma_state_after_set(*old(self), *self, i as int, addr);
                    }
                    Ok(Some(p))
                }
            },
        }
    }

    /// Mark `addr` as cleaning up, whatever was there.
    pub fn begin_cleanup(&mut self, addr: Addr)
        requires
            old(self).wf(),
        ensures
            final(self).wf(),
            final(self).state_of(addr) == Some(ClientInfo::CleaningUp { waiters: 0 }),
            forall|a: Addr| a != addr ==> final(self).state_of(a) == old(self).state_of(a),
    {
        match self.find(addr) {
            None => {
                self.entries.push((addr, ClientInfo::CleaningUp { waiters: 0 }));
                proof {
                    lemma_state_after_push_ci(
                        *old(self),
                        *self,
                        addr,
                        ClientInfo::CleaningUp { waiters: 0 },
                    );
                }
            }
            Some(i) => {
                self.entries.set(i, (addr, ClientInfo::CleaningUp { waiters: 0 }));
                proof {
                    lemma_state_after_set(*old(self), *self, i as int, addr);
                }
            }
        }
    }

    /// Drop the entry for `addr` entirely.
    pub fn remove(&mut self, addr: Addr)
        requires
            old(self).wf(),
        ensures
            final(self).wf(),
            final(self).state_of(addr) is None,
            forall|a: Addr| a != addr ==> final(self).state_of(a) == old(self).state_of(a),
    {
        match self.find(addr) {
            None => {}
            Some(i) => {
                self.entries.remove(i);
                proof {
                    assert forall|a: Addr| #![auto] true implies (a == addr
                        ==> self.state_of(a) is None) && (a != addr ==> self.state_of(a)
                        == old(self).state_of(a)) by {
                        lemma_state_after_remove(*old(self), *self, i as int, a, addr);
                    }
                }
            }
        }
    }
}

proof fn lemma_state_lookup(c: Clinfos, i: int)
    requires
        c.wf(),
        0 <= i < c.entries@.len(),
    ensures
        c.state_of(c.entries@[i].0) == Some(c.entries@[i].1),
{
    let addr = c.entries@[i].0;
    assert(exists|k: int| 0 <= k < c.entries@.len() && (#[trigger] c.entries@[k]).0
        == addr);
    let k = choose|k: int| 0 <= k < c.entries@.len() && (#[trigger] c.entries@[k]).0
        == addr;
    if k != i {
        assert(false);
    }
}

proof fn lemma_state_none(c: Clinfos, addr: Addr)
    requires
        forall|i: int| 0 <= i < c.entries@.len() ==> (#[trigger] c.entries@[i]).0 != addr,
    ensures
        c.state_of(addr) is None,
{
}

proof fn lemma_state_after_push(old_c: Clinfos, new_c: Clinfos, addr: Addr, session: u64)
    requires
        old_c.wf(),
        old_c.state_of(addr) is None,
        new_c.entries@ == old_c.entries@.push((addr, ClientInfo::Running { session })),
    ensures
        new_c.wf(),
        new_c.state_of(addr) == Some(ClientInfo::Running { session }),
        forall|a: Addr| a != addr ==> new_c.state_of(a) == old_c.state_of(a),
{
    lemma_state_after_push_ci(old_c, new_c, addr, ClientInfo::Running { session });
}

proof fn lemma_state_after_push_ci(
    old_c: Clinfos,
    new_c: Clinfos,
    addr: Addr,
    ci: ClientInfo,
)
    requires
        old_c.wf(),
        old_c.state_of(addr) is None,
        new_c.entries@ == old_c.entries@.push((addr, ci)),
    ensures
        new_c.wf(),
        new_c.state_of(addr) == Some(ci),
        forall|a: Addr| a != addr ==> new_c.state_of(a) == old_c.state_of(a),
{
    let n = old_c.entries@.len();
    assert forall|i: int| 0 <= i < n implies (#[trigger] old_c.entries@[i]).0 != addr by {
        if old_c.entries@[i].0 == addr {
            lemma_state_lookup(old_c, i);
        }
    }
    assert(new_c.wf());
    lemma_state_lookup(new_c, n as int);
    assert forall|a: Addr| a != addr implies new_c.state_of(a) == old_c.state_of(a) by {
        lemma_state_same(old_c, new_c, a, n as int);
    }
}

proof fn lemma_state_same(old_c: Clinfos, new_c: Clinfos, a: Addr, except: int)
    requires
        old_c.wf(),
        new_c.wf(),
        0 <= except < new_c.entries@.len(),
        new_c.entries@[except].0 != a,
        except < old_c.entries@.len() ==> old_c.entries@[except].0 != a,
        forall|i: int|
            0 <= i < new_c.entries@.len() && i != except ==> i < old_c.entries@.len()
                && #[trigger] new_c.entries@[i] == old_c.entries@[i],
        forall|i: int|
            0 <= i < old_c.entries@.len() && i != except ==> i < new_c.entries@.len()
                && #[trigger] old_c.entries@[i] == new_c.entries@[i],
    ensures
        new_c.state_of(a) == old_c.state_of(a),
{
    if exists|i: int| 0 <= i < old_c.entries@.len() && (#[trigger] old_c.entries@[i]).0
        == a {
        let i = choose|i: int|
            0 <= i < old_c.entries@.len() && (#[trigger] old_c.entries@[i]).0 == a;
        lemma_state_lookup(old_c, i);
        assert(i != except);
        lemma_state_lookup(new_c, i);
    } else {
        assert forall|i: int| 0 <= i < new_c.entries@.len() implies (
        #[trigger] new_c.entries@[i]).0 != a by {
            if i != except {
                assert(new_c.entries@[i] == old_c.entries@[i]);
                assert((#[trigger] old_c.entries@[i]).0 != a);
            }
        }
        lemma_state_none(new_c, a);
        lemma_state_none(old_c, a);
    }
}

proof fn lemma_state_after_set(old_c: Clinfos, new_c: Clinfos, i: int, addr: Addr)
    requires
        old_c.wf(),
        0 <= i < old_c.entries@.len(),
        old_c.entries@[i].0 == addr,
        new_c.entries@ == old_c.entries@.update(i, (addr, new_c.entries@[i].1)),
        new_c.entries@[i].0 == addr,
    ensures
        new_c.wf(),
        new_c.state_of(addr) == Some(new_c.entries@[i].1),
        forall|a: Addr| a != addr ==> new_c.state_of(a) == old_c.state_of(a),
{
    assert(new_c.wf());
    lemma_state_lookup(new_c, i);
    assert forall|a: Addr| a != addr implies new_c.state_of(a) == old_c.state_of(a) by {
        lemma_state_same(old_c, new_c, a, i);
    }
}

proof fn lemma_state_after_remove(
    old_c: Clinfos,
    new_c: Clinfos,
    i: int,
    a: Addr,
    addr: Addr,
)
    requires
        old_c.wf(),
        0 <= i < old_c.entries@.len(),
        old_c.entries@[i].0 == addr,
        new_c.entries@ == old_c.entries@.remove(i),
    ensures
        new_c.wf(),
        a == addr ==> new_c.state_of(a) is None,
        a != addr ==> new_c.state_of(a) == old_c.state_of(a),
{
    assert forall|p: int, q: int|
        0 <= p < q < new_c.entries@.len() implies (#[trigger] new_c.entries@[p]).0 != (
    #[trigger] new_c.entries@[q]).0 by {
        let p0 = if p < i {
            p
        } else {
            p + 1
        };
        let q0 = if q < i {
            q
        } else {
            q + 1
        };
        assert(new_c.entries@[p] == old_c.entries@[p0]);
        assert(new_c.entries@[q] == old_c.entries@[q0]);
    }
    if a == addr {
        assert forall|k: int| 0 <= k < new_c.entries@.len() implies (
        #[trigger] new_c.entries@[k]).0 != addr by {
            let k0 = if k < i {
                k
            } else {
                k + 1
            };
            assert(new_c.entries@[k] == old_c.entries@[k0]);
            if old_c.entries@[k0].0 == addr {
                lemma_state_lookup(old_c, k0);
                lemma_state_lookup(old_c, i);
            }
        }
        lemma_state_none(new_c, a);
    } else {
        if exists|k: int| 0 <= k < old_c.entries@.len() && (#[trigger] old_c.entries@[k]).0
            == a {
            let k = choose|k: int|
                0 <= k < old_c.entries@.len() && (#[trigger] old_c.entries@[k]).0 == a;
            lemma_state_lookup(old_c, k);
            assert(k != i);
            let k1 = if k < i {
                k
            } else {
                k - 1
            };
            assert(new_c.entries@[k1] == old_c.entries@[k]);
            lemma_state_lookup(new_c, k1);
        } else {
            assert forall|k: int| 0 <= k < new_c.entries@.len() implies (
            #[trigger] new_c.entries@[k]).0 != a by {
                let k0 = if k < i {
                    k
                } else {
                    k + 1
                };
                assert(new_c.entries@[k] == old_c.entries@[k0]);
            }
            lemma_state_none(new_c, a);
            lemma_state_none(old_c, a);
        }
    }
}

proof fn lemma_without_addr_clean(s: Seq<StoreEntry>, addr: Addr)
    ensures
        forall|e: StoreEntry| without_addr(s, addr).contains(e) ==> e.1 != addr,
    decreases s.len(),
{
    if s.len() > 0 {
        lemma_without_addr_clean(s.drop_last(), addr);
        assert forall|e: StoreEntry| without_addr(s, addr).contains(e) implies e.1
            != addr by {
            let w = without_addr(s, addr);
            let p = without_addr(s.drop_last(), addr);
            let i = choose|i: int| 0 <= i < w.len() && w[i] == e;
            if i < p.len() {
                assert(p.contains(e));
            } else {
                assert(s.last().1 != addr && e == s.last());
            }
        }
    }
}

/// Where `Clear` cuts the ack stream: after each clear's own ack the
/// acks so far are flushed to the client before the rest of the batch
/// continues.
pub open spec fn clear_cuts(batch: Seq<ToWrite>) -> Seq<int>
    decreases batch.len(),
{
    if batch.len() == 0 {
        Seq::empty()
    } else {
        let pre = clear_cuts(batch.drop_last());
        if batch.last() is Clear {
            pre.push(acks_of(batch).len() as int)
        } else {
            pre
        }
    }
}

/// The store after one write request from `addr` is applied.
pub open spec fn apply_write(s: Seq<StoreEntry>, m: ToWrite, addr: Addr) -> Seq<
    StoreEntry,
> {
    match m {
        ToWrite::Publish(p) => s.push((p@, addr)),
        ToWrite::PublishDefault(p) => s.push((p@, addr)),
        ToWrite::PublishWithFlags(p, _) => s.push((p@, addr)),
        ToWrite::PublishDefaultWithFlags(p, _) => s.push((p@, addr)),
        ToWrite::Unpublish(p) => without_entry(s, p@, addr),
        ToWrite::UnpublishDefault(p) => without_entry(s, p@, addr),
        ToWrite::Clear => without_addr(s, addr),
        ToWrite::Heartbeat => s,
    }
}

/// The store after a whole batch from `addr` is applied, in order.
pub open spec fn apply_batch(s: Seq<StoreEntry>, batch: Seq<ToWrite>, addr: Addr) -> Seq<
    StoreEntry,
>
    decreases batch.len(),
{
    if batch.len() == 0 {
        s
    } else {
        apply_write(apply_batch(s, batch.drop_last(), addr), batch.last(), addr)
    }
}

/// Process one write batch in arrival order: publications and removals
/// earn their acks, heartbeats earn none, and every `Clear` wipes the
/// writer's registrations before the rest of the batch continues. The
/// returned cut positions say after how many acks each clear forced a
/// flush, splitting the batch.
pub fn handle_write_batch(store: &mut Store, addr: Addr, batch: &Vec<ToWrite>) -> (r: (
    Vec<FromWrite>,
    Vec<usize>,
))
    ensures
        r.0@ == acks_of(batch@),
        r.1@.map_values(|u: usize| u as int) == clear_cuts(batch@),
        final(store).view_entries() == apply_batch(
            old(store).view_entries(),
            batch@,
            addr,
        ),
{
    let n = batch.len();
    let mut acks: Vec<FromWrite> = Vec::new();
    let mut cuts: Vec<usize> = Vec::new();
    let mut i: usize = 0;
    proof {
        assert(batch@.take(0) =~= Seq::<ToWrite>::empty());
        assert(acks@ =~= acks_of(batch@.take(0)));
        assert(cuts@.map_values(|u: usize| u as int) =~= clear_cuts(batch@.take(0)));
    }
    while i < n
        invariant
            0 <= i <= n,
            n == batch@.len(),
            acks@ == acks_of(batch@.take(i as int)),
            cuts@.map_values(|u: usize| u as int) == clear_cuts(batch@.take(i as int)),
            store.view_entries() == apply_batch(
                old(store).view_entries(),
                batch@.take(i as int),
                addr,
            ),
        decreases n - i,
    {
        proof {
            assert(batch@.take(i + 1).drop_last() =~= batch@.take(i as int));
            assert(batch@.take(i + 1).last() == batch@[i as int]);
        }
        let ghost acks0 = acks@;
        let ghost cuts0 = cuts@;
        match &batch[i] {
            ToWrite::Publish(p) => {
                store.publish(p, addr);
                acks.push(FromWrite::Published);
            }
            ToWrite::PublishDefault(p) => {
                store.publish(p, addr);
                acks.push(FromWrite::Published);
            }
            ToWrite::PublishWithFlags(p, _) => {
                store.publish(p, addr);
                acks.push(FromWrite::Published);
            }
            ToWrite::PublishDefaultWithFlags(p, _) => {
                store.publish(p, addr);
                acks.push(FromWrite::Published);
            }
            ToWrite::Unpublish(p) => {
                store.unpublish(p, addr);
                acks.push(FromWrite::Unpublished);
            }
            ToWrite::UnpublishDefault(p) => {
                store.unpublish(p, addr);
                acks.push(FromWrite::Unpublished);
            }
            ToWrite::Clear => {
                store.handle_clear(addr);
                acks.push(FromWrite::Unpublished);
                let c = acks.len();
                cuts.push(c);
            }
            ToWrite::Heartbeat => {}
        }
        proof {
            assert(acks@ =~= acks_of(batch@.take(i + 1)));
            if batch@[i as int] is Clear {
                assert(cuts@.map_values(|u: usize| u as int) =~= cuts0.map_values(
                    |u: usize| u as int,
                ).push(acks_of(batch@.take(i + 1)).len() as int));
            }
            assert(cuts@.map_values(|u: usize| u as int) =~= clear_cuts(
                batch@.take(i + 1),
            ));
        }
        i += 1;
    }
    proof {
        assert(batch@.take(n as int) =~= batch@);
    }
    (acks, cuts)
}

/// A batch that is nothing but one heartbeat is ignored by the main loop.
pub fn is_heartbeat_singleton(batch: &Vec<ToWrite>) -> (r: bool)
    ensures
        r == (batch@.len() == 1 && batch@[0] is Heartbeat),
{
    batch.len() == 1 && match &batch[0] {
        ToWrite::Heartbeat => true,
        _ => false,
    }
}

/// The connection counter behind the accept loop's admission control.
pub struct CTracker {
    pub ids: Vec<u64>,
    pub next: u64,
}

impl CTracker {
    /// Every open connection id is distinct and below the next id.
    pub open spec fn wf(self) -> bool {
        &&& forall|i: int, j: int|
            0 <= i < j < self.ids@.len() ==> (#[trigger] self.ids@[i]) != (
            #[trigger] self.ids@[j])
        &&& forall|i: int| 0 <= i < self.ids@.len() ==> (#[trigger] self.ids@[i])
            < self.next
    }

    pub fn new() -> (r: CTracker)
        ensures
            r.wf(),
            r.ids@.len() == 0,
    {
        CTracker { ids: Vec::new(), next: 0 }
    }

    /// Open a connection: a fresh id joins the set.
    pub fn open(&mut self) -> (r: u64)
        requires
            old(self).wf(),
            old(self).next < u64::MAX,
        ensures
            final(self).wf(),
            !old(self).ids@.contains(r),
            final(self).ids@ == old(self).ids@.push(r),
    {
        let id = self.next;
        self.next = self.next + 1;
        self.ids.push(id);
        proof {
            if old(self).ids@.contains(id) {
                let i = choose|i: int|
                    0 <= i < old(self).ids@.len() && old(self).ids@[i] == id;
                assert(old(self).ids@[i] < id);
            }
        }
        id
    }

    /// Close a connection: its id leaves the set; every other id stays.
    #[verifier::loop_isolation(false)]
    pub fn close(&mut self, id: u64)
        requires
            old(self).wf(),
        ensures
            final(self).wf(),
            !final(self).ids@.contains(id),
            forall|x: u64|
                x != id ==> (final(self).ids@.contains(x) == old(self).ids@.contains(x)),
            final(self).next == old(self).next,
    {
        let n = self.ids.len();
        let mut i: usize = 0;
        while i < n
            invariant
                0 <= i <= n,
                n == self.ids@.len(),
                *self == *old(self),
                forall|k: int| 0 <= k < i ==> self.ids@[k] != id,
            decreases n - i,
        {
            if self.ids[i] == id {
                self.ids.remove(i);
                proof {
                    let oldids = old(self).ids@;
                    assert(oldids[i as int] == id);
                    assert(self.ids@ =~= oldids.take(i as int) + oldids.skip(
                        i as int + 1,
                    ));
                    assert forall|x: u64| x != id implies (self.ids@.contains(x)
                        == oldids.contains(x)) by {
                        if oldids.contains(x) {
                            let k = choose|k: int|
                                0 <= k < oldids.len() && oldids[k] == x;
                            if k < i {
                                assert(self.ids@[k] == x);
                            } else {
                                assert(oldids[k] == x && oldids[i as int] == id);
                                assert(k != i);
                                assert(self.ids@[k - 1] == x);
                            }
                        }
                        if self.ids@.contains(x) {
                            let k = choose|k: int|
                                0 <= k < self.ids@.len() && self.ids@[k] == x;
                            if k < i {
                                assert(oldids[k] == x);
                            } else {
                                assert(oldids[k + 1] == x);
                            }
                        }
                    }
                    assert(!self.ids@.contains(id)) by {
                        if self.ids@.contains(id) {
                            let k = choose|k: int|
                                0 <= k < self.ids@.len() && self.ids@[k] == id;
                            if k < i {
                                assert(oldids[k] != id);
                            } else {
                                assert(self.ids@[k] == oldids[k + 1]);
                                assert((i as int) < k + 1);
                                assert(k + 1 < oldids.len());
                                assert(old(self).wf());
                                assert(old(self).ids@[i as int] != old(self).ids@[k
                                    + 1]);
                            }
                        }
                    }
                    assert forall|k: int| 0 <= k < self.ids@.len() implies self.ids@[k]
                        != id by {
                        if k < i {
                            assert(oldids[k] != id);
                        } else {
                            assert(self.ids@[k] == oldids[k + 1]);
                            assert((i as int) < k + 1);
                            assert(k + 1 < oldids.len());
                            assert(old(self).wf());
                            assert(old(self).ids@[i as int] != old(self).ids@[k + 1]);
                        }
                    }
                }
                return ;
            }
            i += 1;
        }
        proof {
            if self.ids@.contains(id) {
                let k = choose|k: int| 0 <= k < self.ids@.len() && self.ids@[k] == id;
                assert(self.ids@[k] != id);
            }
        }
    }

    /// How many connections are open.
    pub fn num_open(&self) -> (r: usize)
        ensures
            r == self.ids@.len(),
    {
        self.ids.len()
    }
}

/// One security-store record: the writer's principal name and the shared
/// secret minted at its hello.
pub type SecEntry = (Addr, (Seq<char>, u64));

/// The in-memory security store: per writer address, the principal it
/// authenticated as and the shared secret for its ownership proof.
pub struct SecStore {
    pub entries: Vec<(Addr, (String, u64))>,
}

/// The newest record for `addr`, if one is held.
pub open spec fn sec_lookup(s: Seq<SecEntry>, addr: Addr) -> Option<(Seq<char>, u64)>
    decreases s.len(),
{
    if s.len() == 0 {
        None
    } else if s.last().0 == addr {
        Some(s.last().1)
    } else {
        sec_lookup(s.drop_last(), addr)
    }
}

/// `s` with every record for `addr` removed.
pub open spec fn sec_without(s: Seq<SecEntry>, addr: Addr) -> Seq<SecEntry>
    decreases s.len(),
{
    if s.len() == 0 {
        Seq::empty()
    } else {
        sec_without(s.drop_last(), addr) + if s.last().0 == addr {
            Seq::empty()
        } else {
            seq![s.last()]
        }
    }
}

impl SecStore {
    pub open spec fn view_entries(self) -> Seq<SecEntry> {
        self.entries@.map_values(|e: (Addr, (String, u64))| (e.0, (e.1.0@, e.1.1)))
    }

    pub fn new() -> (r: SecStore)
        ensures
            r.view_entries() == Seq::<SecEntry>::empty(),
    {
        let r = SecStore { entries: Vec::new() };
        proof {
            assert(r.view_entries() =~= Seq::<SecEntry>::empty());
        }
        r
    }

    /// The principal and secret of `addr`, where the hello stored them.
    pub fn get(&self, addr: Addr) -> (r: Option<(String, u64)>)
        ensures
            (match r {
                Some(p) => sec_lookup(self.view_entries(), addr) == Some((p.0@, p.1)),
                None => sec_lookup(self.view_entries(), addr) is None,
            }),
    {
        let n = self.entries.len();
        let mut i: usize = n;
        proof {
            assert(self.view_entries().take(n as int) =~= self.view_entries());
        }
        while i > 0
            invariant
                0 <= i <= n,
                n == self.entries@.len(),
                sec_lookup(self.view_entries(), addr) == sec_lookup(
                    self.view_entries().take(i as int),
                    addr,
                ),
            decreases i,
        {
            proof {
                assert(self.view_entries().take(i as int).drop_last()
                    =~= self.view_entries().take(i - 1));
                assert(self.view_entries().take(i as int).last() == (
                    self.entries@[i - 1].0,
                    (self.entries@[i - 1].1.0@, self.entries@[i - 1].1.1),
                ));
            }
            if self.entries[i - 1].0 == addr {
                let e = &self.entries[i - 1];
                return Some((e.1.0.clone(), e.1.1));
            }
            i -= 1;
        }
        proof {
            assert(self.view_entries().take(0) =~= Seq::<SecEntry>::empty());
        }
        None
    }

    /// Record the writer's principal and secret, replacing any older
    /// record for the address.
    pub fn store(&mut self, addr: Addr, spn: &String, secret: u64)
        ensures
            final(self).view_entries() == sec_without(old(self).view_entries(), addr).push(
                (addr, (spn@, secret)),
            ),
            sec_lookup(final(self).view_entries(), addr) == Some((spn@, secret)),
    {
        self.remove(addr);
        let ghost mid = self.view_entries();
        self.entries.push((addr, (spn.clone(), secret)));
        proof {
            assert(self.view_entries() =~= mid.push((addr, (spn@, secret))));
        }
    }

    /// Forget everything held for `addr`: afterwards no record for it can
    /// be retrieved.
    pub fn remove(&mut self, addr: Addr)
        ensures
            final(self).view_entries() == sec_without(old(self).view_entries(), addr),
            sec_lookup(final(self).view_entries(), addr) is None,
    {
        let n = self.entries.len();
        let mut out: Vec<(Addr, (String, u64))> = Vec::new();
        let mut i: usize = 0;
        proof {
            assert(old(self).view_entries().take(0) =~= Seq::<SecEntry>::empty());
            assert(out@.map_values(|e: (Addr, (String, u64))| (e.0, (e.1.0@, e.1.1)))
                =~= sec_without(old(self).view_entries().take(0), addr));
        }
        while i < n
            invariant
                0 <= i <= n,
                n == self.entries@.len(),
                *self == *old(self),
                out@.map_values(|e: (Addr, (String, u64))| (e.0, (e.1.0@, e.1.1)))
                    == sec_without(old(self).view_entries().take(i as int), addr),
            decreases n - i,
        {
            let e = &self.entries[i];
            let ghost before = out@;
            if !(e.0 == addr) {
                let c = (e.0, (e.1.0.clone(), e.1.1));
                out.push(c);
            }
            proof {
                assert(old(self).view_entries().take(i + 1).drop_last() =~= old(
                    self,
                ).view_entries().take(i as int));
                assert(old(self).view_entries().take(i + 1).last() == (
                    self.entries@[i as int].0,
                    (self.entries@[i as int].1.0@, self.entries@[i as int].1.1),
                ));
                if self.entries@[i as int].0 != addr {
                    assert(out@.map_values(
                        |e: (Addr, (String, u64))| (e.0, (e.1.0@, e.1.1)),
                    ) =~= before.map_values(
                        |e: (Addr, (String, u64))| (e.0, (e.1.0@, e.1.1)),
                    ).push(
                        (
                            self.entries@[i as int].0,
                            (self.entries@[i as int].1.0@, self.entries@[i as int].1.1),
                        ),
                    ));
                }
            }
            i += 1;
        }
        proof {
            assert(old(self).view_entries().take(n as int) =~= old(self).view_entries());
        }
        self.entries = out;
        proof {
            lemma_sec_without_clean(old(self).view_entries(), addr);
        }
    }
}

proof fn lemma_sec_without_clean(s: Seq<SecEntry>, addr: Addr)
    ensures
        sec_lookup(sec_without(s, addr), addr) is None,
    decreases s.len(),
{
    if s.len() > 0 {
        lemma_sec_without_clean(s.drop_last(), addr);
        if s.last().0 != addr {
            let w = sec_without(s, addr);
            assert(w.drop_last() =~= sec_without(s.drop_last(), addr));
            assert(w.last() == s.last());
        } else {
            assert(sec_without(s, addr) =~= sec_without(s.drop_last(), addr));
        }
    }
}

/// The TTL expiry path for an idle writer: the session is marked as
/// cleaning up, its registrations are cleared from the store, its
/// security record is purged, and the table entry is removed. Afterwards
/// the store reports no path owned by the writer, its security context is
/// no longer retrievable, and no session exists for its address.
pub fn ttl_cleanup(clinfos: &mut Clinfos, store: &mut Store, secstore: &mut SecStore, addr: Addr)
    requires
        old(clinfos).wf(),
    ensures
        final(clinfos).wf(),
        forall|p: Seq<char>| !final(store).holds(p, addr),
        sec_lookup(final(secstore).view_entries(), addr) is None,
        final(clinfos).state_of(addr) is None,
        forall|a: Addr|
            a != addr ==> final(clinfos).state_of(a) == old(clinfos).state_of(a),
        final(store).view_entries() == without_addr(old(store).view_entries(), addr),
        final(secstore).view_entries() == sec_without(
            old(secstore).view_entries(),
            addr,
        ),
{
    clinfos.begin_cleanup(addr);
    store.handle_clear(addr);
    secstore.remove(addr);
    clinfos.remove(addr);
}

/// How a writer authenticates its hello.
#[derive(Debug, Clone, PartialEq)]
pub enum ClientAuthWrite {
    Anonymous,
    Reuse,
    Initiate { spn: Option<String>, token: Vec<u8> },
}

/// How a reader authenticates its hello.
#[derive(Debug, Clone, PartialEq)]
pub enum ClientAuthRead {
    Anonymous,
    Reuse(u64),
    Initiate(Vec<u8>),
}

/// A writer's hello: the address it claims to publish from, and its
/// authentication.
#[derive(Debug, Clone, PartialEq)]
pub struct ClientHelloWrite {
    pub write_addr: Addr,
    pub auth: ClientAuthWrite,
}

/// The first application message from a client.
#[derive(Debug, Clone, PartialEq)]
pub enum ClientHello {
    ReadOnly(ClientAuthRead),
    WriteOnly(ClientHelloWrite),
}

/// How the server answers a writer's authentication.
#[derive(Debug, Clone, PartialEq)]
pub enum ServerAuthWrite {
    Anonymous,
    Reused,
    Accepted(Vec<u8>),
}

/// The server's answer to a writer's hello.
#[derive(Debug, Clone, PartialEq)]
pub struct ServerHelloWrite {
    pub ttl: u64,
    pub ttl_expired: bool,
    pub resolver_id: Addr,
    pub auth: ServerAuthWrite,
}

/// The server's answer to a reader's hello.
#[derive(Debug, Clone, PartialEq)]
pub enum ServerHelloRead {
    Anonymous,
    Accepted(Vec<u8>, u64),
}

/// What the server decides to do with a writer's authentication.
#[derive(Debug, Clone, Copy, PartialEq, Eq, Structural)]
pub enum HelloWritePlan {
    /// accept anonymously
    Anonymous,
    /// install the stored context and reply `Reused`
    Reused,
    /// mint a context and a secret, then run the ownership check
    Initiate,
    /// refuse the connection
    Deny,
}

/// Decide a writer's authentication: anonymous always passes, reuse needs
/// a security store holding a context for the address, and a new context
/// needs a security store at all.
pub fn plan_hello_write(auth: &ClientAuthWrite, has_secstore: bool, have_ctx: bool) -> (r:
    HelloWritePlan)
    ensures
        r == (match auth {
            ClientAuthWrite::Anonymous => HelloWritePlan::Anonymous,
            ClientAuthWrite::Reuse => if has_secstore && have_ctx {
                HelloWritePlan::Reused
            } else {
                HelloWritePlan::Deny
            },
            ClientAuthWrite::Initiate { .. } => if has_secstore {
                HelloWritePlan::Initiate
            } else {
                HelloWritePlan::Deny
            },
        }),
{
    match auth {
        ClientAuthWrite::Anonymous => HelloWritePlan::Anonymous,
        ClientAuthWrite::Reuse => if has_secstore && have_ctx {
            HelloWritePlan::Reused
        } else {
            HelloWritePlan::Deny
        },
        ClientAuthWrite::Initiate { .. } => if has_secstore {
            HelloWritePlan::Initiate
        } else {
            HelloWritePlan::Deny
        },
    }
}

/// What the server decides to do with a reader's authentication. Reuse on
/// the read side is always refused.
#[derive(Debug, Clone, Copy, PartialEq, Eq, Structural)]
pub enum HelloReadPlan {
    Anonymous,
    Initiate,
    Deny,
}

/// Decide a reader's authentication.
pub fn plan_hello_read(auth: &ClientAuthRead, has_secstore: bool) -> (r: HelloReadPlan)
    ensures
        r == (match auth {
            ClientAuthRead::Anonymous => HelloReadPlan::Anonymous,
            ClientAuthRead::Reuse(_) => HelloReadPlan::Deny,
            ClientAuthRead::Initiate(_) => if has_secstore {
                HelloReadPlan::Initiate
            } else {
                HelloReadPlan::Deny
            },
        }),
{
    match auth {
        ClientAuthRead::Anonymous => HelloReadPlan::Anonymous,
        ClientAuthRead::Reuse(_) => HelloReadPlan::Deny,
        ClientAuthRead::Initiate(_) => if has_secstore {
            HelloReadPlan::Initiate
        } else {
            HelloReadPlan::Deny
        },
    }
}

/// The challenge at the front of an ownership-check token: its first
/// eight bytes, big endian. A shorter token has none and fails the check.
pub fn ownership_challenge(tok: &[u8]) -> (r: Option<u64>)
    ensures
        tok@.len() >= 8 ==> r == Some(
            crate::pack::u64_of_be(
                tok@[0], tok@[1], tok@[2], tok@[3], tok@[4], tok@[5], tok@[6], tok@[7],
            ),
        ),
        tok@.len() < 8 ==> r is None,
{
    if tok.len() < 8 {
        None
    } else {
        Some(get_u64_be(tok, 0))
    }
}

/// Judge the listener ownership token: it passes exactly when it is
/// long enough and everything after its challenge matches the expected
/// digest past its own first eight bytes.
pub fn ownership_token_valid(tok: &[u8], expected: &[u8]) -> (r: bool)
    ensures
        r == (tok@.len() >= 8 && expected@.len() >= 8 && tok@.skip(8) == expected@.skip(
            8,
        )),
{
    let tn = tok.len();
    let en = expected.len();
    if tn < 8 || en < 8 {
        return false;
    }
    if tn != en {
        proof {
            if tok@.skip(8) == expected@.skip(8) {
                assert(tok@.skip(8).len() == expected@.skip(8).len());
            }
        }
        return false;
    }
    let mut i: usize = 8;
    while i < tn
        invariant
            8 <= i <= tn,
            tn == tok@.len(),
            tn == expected@.len(),
            forall|k: int| 8 <= k < i ==> tok@[k] == expected@[k],
        decreases tn - i,
    {
        if *vstd::slice::slice_index_get(tok, i) != *vstd::slice::slice_index_get(
            expected,
            i,
        ) {
            proof {
                assert(tok@.skip(8)[i - 8] != expected@.skip(8)[i - 8]);
            }
            return false;
        }
        i += 1;
    }
    proof {
        assert(tok@.skip(8) =~= expected@.skip(8));
    }
    true
}

/// How the command-line front ends authenticate against a cluster.
#[derive(Debug, Clone, PartialEq)]
pub enum CfgAuth {
    Anonymous,
    Krb5(Vec<(Addr, String)>),
}

/// A client's chosen authentication.
#[derive(Debug, Clone, PartialEq)]
pub enum Auth {
    Anonymous,
    Krb5 { upn: Option<String>, spn: Option<String> },
}

/// Choose how to authenticate: anonymity when asked for or when the
/// cluster runs anonymously, else the principal names given.
pub fn auth(anon: bool, cfg_auth: &CfgAuth, upn: Option<String>, spn: Option<String>) -> (r:
    Auth)
    ensures
        anon ==> r == Auth::Anonymous,
        !anon && cfg_auth is Anonymous ==> r == Auth::Anonymous,
        !anon && cfg_auth is Krb5 ==> r == (Auth::Krb5 { upn, spn }),
{
    if anon {
        Auth::Anonymous
    } else {
        match cfg_auth {
            CfgAuth::Anonymous => Auth::Anonymous,
            CfgAuth::Krb5(_) => Auth::Krb5 { upn, spn },
        }
    }
}

/// A request on the read half of a resolver connection.
#[derive(Debug, Clone, PartialEq)]
pub enum ToRead {
    /// look the paths up and answer with their publishers
    Resolve(Vec<String>),
    /// list the children of a path
    List(String),
    /// list everything matching a set of glob patterns
    ListMatching(Vec<String>),
    /// describe the table rooted at a path
    Table(String),
    /// has anything changed below the tracked path?
    CheckChanged(String),
}

/// One resolution: where a path's publishers listen, and for
/// authenticated sessions the principal of each listener.
#[derive(Debug, Clone, PartialEq)]
pub struct Resolved {
    pub resolver: Addr,
    pub krb5_spns: Vec<(Addr, String)>,
    pub addrs: Vec<Addr>,
}

/// An answer on the read half.
#[derive(Debug, Clone, PartialEq)]
pub enum FromRead {
    Resolved(Resolved),
    List(Vec<String>),
    Table { rows: Vec<String>, cols: Vec<(String, u64)> },
    Changed(bool),
    Denied,
}

/// The publisher's hello: anonymous, a client token, or the resolver
/// authenticating itself for the listener ownership check.
#[derive(Debug, Clone, PartialEq)]
pub enum PHello {
    Anonymous,
    Token(Vec<u8>),
    ResolverAuthenticate(Addr, Vec<u8>),
}

/// A resolver command from the command line.
#[derive(Debug, Clone, PartialEq)]
pub enum ResolverCmd {
    Resolve { path: String },
    List { watch: bool, no_structure: bool, path: Option<String> },
    Table { path: Option<String> },
    Add { path: String, addr: Addr },
    Remove { path: String, addr: Addr },
}

/// One batch of answers from the resolver for a command.
#[derive(Debug, Clone, PartialEq)]
pub enum CmdReply {
    /// addresses and principal names for a resolved path
    Resolved { krb5_spns: Vec<String>, addrs: Vec<String> },
    /// paths matching a list query
    Listed { paths: Vec<String> },
    /// a table descriptor: column names with counts, and rows
    TableDesc { cols: Vec<(String, u64)>, rows: Vec<String> },
    /// an add or remove completed
    Done,
}

/// Drive one step of a resolver command: turn one batch of answers into
/// the lines to print, remember which paths were already shown, and say
/// whether the command polls again. A watched list prints each path once.
pub fn run(cmd: &ResolverCmd, reply: &CmdReply, seen: &mut Vec<String>) -> (r: (
    Vec<String>,
    bool,
))
    ensures
        r.1 == (cmd matches ResolverCmd::List { watch: true, .. }),
        (match reply {
            CmdReply::Listed { paths } => {
                &&& r.0@.map_values(|s: String| s@) == new_paths(
                    paths@.map_values(|s: String| s@),
                    old(seen)@.map_values(|s: String| s@),
                )
                &&& final(seen)@.map_values(|s: String| s@) == old(seen)@.map_values(
                    |s: String| s@,
                ) + r.0@.map_values(|s: String| s@)
            },
            CmdReply::Resolved { krb5_spns, addrs } => r.0@ == krb5_spns@ + addrs@
                && final(seen)@ == old(seen)@,
            CmdReply::TableDesc { cols, rows } => r.0@.map_values(|s: String| s@)
                == table_lines(
                cols@.map_values(|c: (String, u64)| (c.0@, c.1)),
                rows@.map_values(|s: String| s@),
            ) && final(seen)@ == old(seen)@,
            CmdReply::Done => r.0@.len() == 0 && final(seen)@ == old(seen)@,
        }),
{
    let again = match cmd {
        ResolverCmd::List { watch, .. } => *watch,
        _ => false,
    };
    match reply {
        CmdReply::Done => (Vec::new(), again),
        CmdReply::Resolved { krb5_spns, addrs } => {
            let mut out: Vec<String> = Vec::new();
            let mut i: usize = 0;
            let n = krb5_spns.len();
            while i < n
                invariant
                    0 <= i <= n,
                    n == krb5_spns@.len(),
                    out@ == krb5_spns@.take(i as int),
                decreases n - i,
            {
                out.push(krb5_spns[i].clone());
                proof {
                    assert(out@ =~= krb5_spns@.take(i + 1));
                }
                i += 1;
            }
            let m = addrs.len();
            let mut j: usize = 0;
            proof {
                assert(krb5_spns@.take(n as int) =~= krb5_spns@);
                assert(out@ =~= krb5_spns@ + addrs@.take(0));
            }
            while j < m
                invariant
                    0 <= j <= m,
                    m == addrs@.len(),
                    out@ == krb5_spns@ + addrs@.take(j as int),
                decreases m - j,
            {
                out.push(addrs[j].clone());
                proof {
                    assert(out@ =~= krb5_spns@ + addrs@.take(j + 1));
                }
                j += 1;
            }
            proof {
                assert(addrs@.take(m as int) =~= addrs@);
            }
            (out, again)
        }
        CmdReply::TableDesc { cols, rows } => {
            let ghost cv = cols@.map_values(|c: (String, u64)| (c.0@, c.1));
            let ghost rv = rows@.map_values(|s: String| s@);
            let mut out: Vec<String> = Vec::new();
            let mut i: usize = 0;
            let n = cols.len();
            proof {
                assert(out@.map_values(|s: String| s@) =~= table_lines(
                    cv.take(0),
                    Seq::empty(),
                ));
            }
            while i < n
                invariant
                    0 <= i <= n,
                    n == cols@.len(),
                    cv == cols@.map_values(|c: (String, u64)| (c.0@, c.1)),
                    out@.map_values(|s: String| s@) == table_lines(
                        cv.take(i as int),
                        Seq::empty(),
                    ),
                decreases n - i,
            {
                proof {
                    reveal_strlit(": ");
                }
                let ghost out0 = out@;
                let mut line = cols[i].0.clone();
                line.append(": ");
                line.append(crate::numstr::fmt_u64(cols[i].1).as_str());
                proof {
                    assert(line@ =~= col_text(cv[i as int]));
                }
                let ghost lv = line@;
                out.push(line);
                proof {
                    assert(out@ =~= out0.push(out@[out@.len() - 1]));
                    assert(out@.map_values(|s: String| s@) =~= out0.map_values(
                        |s: String| s@,
                    ).push(lv));
                    assert(cv.take(i + 1) =~= cv.take(i as int).push(cv[i as int]));
                    assert(out@.map_values(|s: String| s@) =~= table_lines(
                        cv.take(i + 1),
                        Seq::empty(),
                    ));
                }
                i += 1;
            }
            let m = rows.len();
            let mut j: usize = 0;
            proof {
                assert(cv.take(n as int) =~= cv);
                assert(out@.map_values(|s: String| s@) =~= table_lines(cv, rv.take(0)));
            }
            while j < m
                invariant
                    0 <= j <= m,
                    m == rows@.len(),
                    cv == cols@.map_values(|c: (String, u64)| (c.0@, c.1)),
                    rv == rows@.map_values(|s: String| s@),
                    out@.map_values(|s: String| s@) == table_lines(cv, rv.take(j as int)),
                decreases m - j,
            {
                let ghost out1 = out@;
                out.push(rows[j].clone());
                proof {
                    assert(out@.map_values(|s: String| s@) =~= out1.map_values(
                        |s: String| s@,
                    ).push(rv[j as int]));
                    assert(rv.take(j + 1) =~= rv.take(j as int).push(rv[j as int]));
                    assert(out@.map_values(|s: String| s@) =~= table_lines(
                        cv,
                        rv.take(j + 1),
                    ));
                }
                j += 1;
            }
            proof {
                assert(rv.take(m as int) =~= rv);
            }
            (out, again)
        }
        CmdReply::Listed { paths } => {
            let mut out: Vec<String> = Vec::new();
            let mut i: usize = 0;
            let n = paths.len();
            proof {
                assert(paths@.map_values(|s: String| s@).take(0) =~= Seq::<
                    Seq<char>,
                >::empty());
                assert(out@.map_values(|s: String| s@) =~= new_paths(
                    paths@.map_values(|s: String| s@).take(0),
                    old(seen)@.map_values(|s: String| s@),
                ));
                assert(seen@.map_values(|s: String| s@) =~= old(seen)@.map_values(
                    |s: String| s@,
                ) + out@.map_values(|s: String| s@));
            }
            while i < n
                invariant
                    0 <= i <= n,
                    n == paths@.len(),
                    out@.map_values(|s: String| s@) == new_paths(
                        paths@.map_values(|s: String| s@).take(i as int),
                        old(seen)@.map_values(|s: String| s@),
                    ),
                    seen@.map_values(|s: String| s@) == old(seen)@.map_values(
                        |s: String| s@,
                    ) + out@.map_values(|s: String| s@),
                decreases n - i,
            {
                proof {
                    assert(paths@.map_values(|s: String| s@).take(i + 1).drop_last()
                        =~= paths@.map_values(|s: String| s@).take(i as int));
                    assert(paths@.map_values(|s: String| s@).take(i + 1).last()
                        == paths@[i as int]@);
                }
                let p = &paths[i];
                let ghost out0 = out@;
                let ghost seen0 = seen@;
                if !contains_str(seen, p) {
                    seen.push(p.clone());
                    out.push(p.clone());
                    proof {
                        assert(out@.map_values(|s: String| s@) =~= out0.map_values(
                            |s: String| s@,
                        ).push(p@));
                        assert(seen@.map_values(|s: String| s@) =~= seen0.map_values(
                            |s: String| s@,
                        ).push(p@));
                        assert(old(seen)@.map_values(|s: String| s@) + out@.map_values(
                            |s: String| s@,
                        ) =~= (old(seen)@.map_values(|s: String| s@) + out0.map_values(
                            |s: String| s@,
                        )).push(p@));
                    }
                } else {
                    proof {
                        assert((seen0.map_values(|s: String| s@)).contains(p@));
                        lemma_seen_superset(
                            old(seen)@.map_values(|s: String| s@),
                            out0.map_values(|s: String| s@),
                            p@,
                        );
                    }
                }
                i += 1;
            }
            proof {
                assert(paths@.map_values(|s: String| s@).take(n as int) =~= paths@.map_values(
                    |s: String| s@,
                ));
            }
            (out, again)
        }
    }
}

/// One column line of a table description: the column's name and count.
pub open spec fn col_text(c: (Seq<char>, u64)) -> Seq<char> {
    c.0 + ": "@ + crate::numstr::dec_digits(c.1 as nat)
}

/// The lines a table description prints: each column as name and count,
/// then every row.
pub open spec fn table_lines(cols: Seq<(Seq<char>, u64)>, rows: Seq<Seq<char>>) -> Seq<
    Seq<char>,
> {
    cols.map_values(|c: (Seq<char>, u64)| col_text(c)) + rows
}

/// The paths of `ps` not yet in `seen`, in order, each admitted once the
/// earlier new ones are remembered too.
pub open spec fn new_paths(ps: Seq<Seq<char>>, seen: Seq<Seq<char>>) -> Seq<Seq<char>>
    decreases ps.len(),
{
    if ps.len() == 0 {
        Seq::empty()
    } else {
        let before = new_paths(ps.drop_last(), seen);
        if (seen + before).contains(ps.last()) {
            before
        } else {
            before.push(ps.last())
        }
    }
}

proof fn lemma_seen_superset(seen0: Seq<Seq<char>>, out0: Seq<Seq<char>>, p: Seq<char>)
    requires
        (seen0 + out0).contains(p),
    ensures
        seen0.contains(p) || out0.contains(p),
{
    let i = choose|i: int| 0 <= i < (seen0 + out0).len() && (seen0 + out0)[i] == p;
    if i < seen0.len() {
        assert(seen0[i] == p);
    } else {
        assert(out0[i - seen0.len()] == p);
    }
}

/// Is `p` one of the strings of `v`?
pub fn contains_str(v: &Vec<String>, p: &String) -> (r: bool)
    ensures
        r == v@.map_values(|s: String| s@).contains(p@),
{
    let n = v.len();
    let mut i: usize = 0;
    while i < n
        invariant
            0 <= i <= n,
            n == v@.len(),
            forall|k: int| 0 <= k < i ==> (#[trigger] v@[k])@ != p@,
        decreases n - i,
    {
        if crate::text::str_eq_str(v[i].as_str(), p.as_str()) {
            proof {
                assert(v@.map_values(|s: String| s@)[i as int] == p@);
            }
            return true;
        }
        i += 1;
    }
    proof {
        let mv = v@.map_values(|s: String| s@);
        if mv.contains(p@) {
            let k = choose|k: int| 0 <= k < mv.len() && mv[k] == p@;
            assert(v@[k]@ == p@);
            assert(false);
        }
    }
    false
}

} // verus!
