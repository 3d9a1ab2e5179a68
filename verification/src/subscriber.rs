//! The subscriber's verified core: the path table that deduplicates
//! concurrent subscriptions, the publisher pick, and the per-connection
//! state machine that multiplexes subscriptions and fans values out in
//! order.

use vstd::prelude::*;
use vstd::string::*;
use crate::resolver::Addr;

verus! {

/// Where a path stands in the subscriber's table.
#[derive(Debug, Clone, Copy, PartialEq, Eq, Structural)]
pub enum SubStatus {
    /// a subscribe attempt is in flight; this many later callers wait on
    /// its outcome
    Pending { waiters: u64 },
    /// a live subscription exists at this publisher
    Subscribed { id: u64, addr: Addr },
}

/// What a new subscribe call for a path should do.
#[derive(Debug, Clone, Copy, PartialEq, Eq, Structural)]
pub enum SubPlan {
    /// nobody is on it: resolve the path and send one subscribe request
    StartResolve,
    /// an attempt is in flight: wait for its outcome
    Wait,
    /// a live subscription exists: share it
    Reuse { id: u64, addr: Addr },
}

pub type SubEntry = (Seq<char>, SubStatus);

/// The newest status of a path, if the table holds one.
pub open spec fn sub_lookup(s: Seq<SubEntry>, p: Seq<char>) -> Option<SubStatus>
    decreases s.len(),
{
    if s.len() == 0 {
        None
    } else if s.last().0 == p {
        Some(s.last().1)
    } else {
        sub_lookup(s.drop_last(), p)
    }
}

/// `s` with every entry for `p` removed.
pub open spec fn sub_without(s: Seq<SubEntry>, p: Seq<char>) -> Seq<SubEntry>
    decreases s.len(),
{
    if s.len() == 0 {
        Seq::empty()
    } else {
        sub_without(s.drop_last(), p) + if s.last().0 == p {
            Seq::empty()
        } else {
            seq![s.last()]
        }
    }
}

proof fn lemma_sub_without_clean(s: Seq<SubEntry>, p: Seq<char>)
    ensures
        sub_lookup(sub_without(s, p), p) is None,
    decreases s.len(),
{
    if s.len() > 0 {
        lemma_sub_without_clean(s.drop_last(), p);
        if s.last().0 != p {
            let w = sub_without(s, p);
            assert(w.drop_last() =~= sub_without(s.drop_last(), p));
            assert(w.last() == s.last());
        } else {
            assert(sub_without(s, p) =~= sub_without(s.drop_last(), p));
        }
    }
}

proof fn lemma_sub_without_other(s: Seq<SubEntry>, p: Seq<char>, q: Seq<char>)
    requires
        p != q,
    ensures
        sub_lookup(sub_without(s, p), q) == sub_lookup(s, q),
    decreases s.len(),
{
    if s.len() > 0 {
        lemma_sub_without_other(s.drop_last(), p, q);
        if s.last().0 != p {
            let w = sub_without(s, p);
            assert(w.drop_last() =~= sub_without(s.drop_last(), p));
            assert(w.last() == s.last());
        } else {
            assert(sub_without(s, p) =~= sub_without(s.drop_last(), p));
        }
    }
}

/// The subscriber's path table.
pub struct SubMap {
    pub entries: Vec<(String, SubStatus)>,
}

impl SubMap {
    pub open spec fn view_entries(self) -> Seq<SubEntry> {
        self.entries@.map_values(|e: (String, SubStatus)| (e.0@, e.1))
    }

    pub open spec fn status_model(self, p: Seq<char>) -> Option<SubStatus> {
        sub_lookup(self.view_entries(), p)
    }

    pub fn new() -> (r: SubMap)
        ensures
            r.view_entries() == Seq::<SubEntry>::empty(),
    {
        let r = SubMap { entries: Vec::new() };
        proof {
            assert(r.view_entries() =~= Seq::<SubEntry>::empty());
        }
        r
    }

    /// The current status of `path`.
    pub fn status(&self, path: &String) -> (r: Option<SubStatus>)
        ensures
            r == self.status_model(path@),
    {
        let n = self.entries.len();
        let mut i: usize = n;
        proof {
            assert(self.view_entries().take(n as int) =~= self.view_entries());
        }
        while i > 0
            invariant
                0 <= i <= n,
                n == self.entries@.len(),
                self.status_model(path@) == sub_lookup(
                    self.view_entries().take(i as int),
                    path@,
                ),
            decreases i,
        {
            proof {
                assert(self.view_entries().take(i as int).drop_last()
                    =~= self.view_entries().take(i - 1));
                assert(self.view_entries().take(i as int).last() == (
                    self.entries@[i - 1].0@,
                    self.entries@[i - 1].1,
                ));
            }
            if crate::text::str_eq_str(self.entries[i - 1].0.as_str(), path.as_str()) {
                return Some(self.entries[i - 1].1);
            }
            i -= 1;
        }
        proof {
            assert(self.view_entries().take(0) =~= Seq::<SubEntry>::empty());
        }
        None
    }

    /// Put `path` in state `st`, replacing whatever was there; every
    /// other path keeps its state.
    pub fn set_status(&mut self, path: &String, st: SubStatus)
        ensures
            final(self).status_model(path@) == Some(st),
            forall|q: Seq<char>|
                q != path@ ==> final(self).status_model(q) == old(self).status_model(q),
    {
        self.remove_path(path);
        let ghost mid = self.view_entries();
        self.entries.push((path.clone(), st));
        proof {
            assert(self.view_entries() =~= mid.push((path@, st)));
            assert forall|q: Seq<char>| q != path@ implies self.status_model(q) == old(
                self,
            ).status_model(q) by {
                assert(self.view_entries().drop_last() =~= mid);
                lemma_sub_without_other(old(self).view_entries(), path@, q);
            }
        }
    }

    /// Drop `path` from the table; every other path keeps its state.
    pub fn remove_path(&mut self, path: &String)
        ensures
            final(self).view_entries() == sub_without(old(self).view_entries(), path@),
            final(self).status_model(path@) is None,
            forall|q: Seq<char>|
                q != path@ ==> final(self).status_model(q) == old(self).status_model(q),
    {
        let n = self.entries.len();
        let mut out: Vec<(String, SubStatus)> = Vec::new();
        let mut i: usize = 0;
        proof {
            assert(old(self).view_entries().take(0) =~= Seq::<SubEntry>::empty());
            assert(out@.map_values(|e: (String, SubStatus)| (e.0@, e.1)) =~= sub_without(
                old(self).view_entries().take(0),
                path@,
            ));
        }
        while i < n
            invariant
                0 <= i <= n,
                n == self.entries@.len(),
                *self == *old(self),
                out@.map_values(|e: (String, SubStatus)| (e.0@, e.1)) == sub_without(
                    old(self).view_entries().take(i as int),
                    path@,
                ),
            decreases n - i,
        {
            let e = &self.entries[i];
            let ghost before = out@;
            if !crate::text::str_eq_str(e.0.as_str(), path.as_str()) {
                let c = (e.0.clone(), e.1);
                out.push(c);
            }
            proof {
                assert(old(self).view_entries().take(i + 1).drop_last() =~= old(
                    self,
                ).view_entries().take(i as int));
                assert(old(self).view_entries().take(i + 1).last() == (
                    self.entries@[i as int].0@,
                    self.entries@[i as int].1,
                ));
                if self.entries@[i as int].0@ != path@ {
                    assert(out@.map_values(|e: (String, SubStatus)| (e.0@, e.1))
                        =~= before.map_values(|e: (String, SubStatus)| (e.0@, e.1)).push(
                        (self.entries@[i as int].0@, self.entries@[i as int].1),
                    ));
                }
            }
            i += 1;
        }
        proof {
            assert(old(self).view_entries().take(n as int) =~= old(self).view_entries());
        }
        self.entries = out;
        proof {
            lemma_sub_without_clean(old(self).view_entries(), path@);
            assert forall|q: Seq<char>| q != path@ implies self.status_model(q) == old(
                self,
            ).status_model(q) by {
                lemma_sub_without_other(old(self).view_entries(), path@, q);
            }
        }
    }
}

/// What one subscribe call does to a path's entry: the first caller
/// starts the one resolution, later callers join its waiter list, and a
/// live subscription is shared unless its handle has died.
pub open spec fn plan_model(st: Option<SubStatus>, alive: bool) -> (SubStatus, SubPlan) {
    match st {
        None => (SubStatus::Pending { waiters: 0 }, SubPlan::StartResolve),
        Some(SubStatus::Pending { waiters }) => (
            SubStatus::Pending {
                waiters: if waiters < u64::MAX {
                    (waiters + 1) as u64
                } else {
                    waiters
                },
            },
            SubPlan::Wait,
        ),
        Some(SubStatus::Subscribed { id, addr }) => if alive {
            (SubStatus::Subscribed { id, addr }, SubPlan::Reuse { id, addr })
        } else {
            (SubStatus::Pending { waiters: 0 }, SubPlan::StartResolve)
        },
    }
}

/// Begin one subscribe call for `path`. `alive` says whether the weak
/// handle of an existing subscription still upgrades.
pub fn plan_path(map: &mut SubMap, path: &String, alive: bool) -> (r: SubPlan)
    ensures
        r == plan_model(old(map).status_model(path@), alive).1,
        final(map).status_model(path@) == Some(
            plan_model(old(map).status_model(path@), alive).0,
        ),
        forall|q: Seq<char>|
            q != path@ ==> final(map).status_model(q) == old(map).status_model(q),
{
    match map.status(path) {
        None => {
            map.set_status(path, SubStatus::Pending { waiters: 0 });
            SubPlan::StartResolve
        }
        Some(SubStatus::Pending { waiters }) => {
            let w = if waiters < u64::MAX {
                waiters + 1
            } else {
                waiters
            };
            map.set_status(path, SubStatus::Pending { waiters: w });
            SubPlan::Wait
        }
        Some(SubStatus::Subscribed { id, addr }) => {
            if alive {
                SubPlan::Reuse { id, addr }
            } else {
                map.set_status(path, SubStatus::Pending { waiters: 0 });
                SubPlan::StartResolve
            }
        }
    }
}

/// Only one subscribe request is ever in flight per path: once a call
/// has started the resolution, every further call for the path, whatever
/// it finds alive, is told to wait for that one outcome.
pub proof fn lemma_single_inflight(st: Option<SubStatus>, alive: bool, alive2: bool)
    ensures
        plan_model(st, alive).1 == SubPlan::StartResolve ==> plan_model(
            Some(plan_model(st, alive).0),
            alive2,
        ).1 == SubPlan::Wait,
{
}

/// A subscribe attempt for `path` succeeded at `(id, addr)`: record the
/// live subscription and hand back how many callers waited on it.
pub fn complete_ok(map: &mut SubMap, path: &String, id: u64, addr: Addr) -> (waiters:
    u64)
    ensures
        final(map).status_model(path@) == Some(SubStatus::Subscribed { id, addr }),
        (match old(map).status_model(path@) {
            Some(SubStatus::Pending { waiters: w }) => waiters == w,
            _ => waiters == 0,
        }),
        forall|q: Seq<char>|
            q != path@ ==> final(map).status_model(q) == old(map).status_model(q),
{
    let w = match map.status(path) {
        Some(SubStatus::Pending { waiters }) => waiters,
        _ => 0,
    };
    map.set_status(path, SubStatus::Subscribed { id, addr });
    w
}

/// A subscribe attempt for `path` failed: forget the entry and hand back
/// how many callers waited, so each hears the error.
pub fn complete_err(map: &mut SubMap, path: &String) -> (waiters: u64)
    ensures
        final(map).status_model(path@) is None,
        (match old(map).status_model(path@) {
            Some(SubStatus::Pending { waiters: w }) => waiters == w,
            _ => waiters == 0,
        }),
        forall|q: Seq<char>|
            q != path@ ==> final(map).status_model(q) == old(map).status_model(q),
{
    let w = match map.status(path) {
        Some(SubStatus::Pending { waiters }) => waiters,
        _ => 0,
    };
    map.remove_path(path);
    w
}

/// A subscription at `(id, addr)` went away: drop the path's entry, but
/// only while it still names exactly this subscription; a dead weak
/// handle is dropped too.
pub fn unsubscribe_path(map: &mut SubMap, path: &String, id: u64, addr: Addr, alive: bool)
    ensures
        (match old(map).status_model(path@) {
            Some(SubStatus::Subscribed { id: i2, addr: a2 }) => if !alive || (i2 == id
                && a2 == addr) {
                final(map).status_model(path@) is None
            } else {
                final(map).status_model(path@) == old(map).status_model(path@)
            },
            _ => final(map).status_model(path@) == old(map).status_model(path@),
        }),
        forall|q: Seq<char>|
            q != path@ ==> final(map).status_model(q) == old(map).status_model(q),
{
    match map.status(path) {
        Some(SubStatus::Subscribed { id: i2, addr: a2 }) => {
            if !alive || (i2 == id && a2 == addr) {
                map.remove_path(path);
            }
        }
        _ => {}
    }
}

/// Relies on rand's thread_rng and Rng::gen_range: whatever is drawn, the
/// index is within bounds.
#[verifier::external_body]
fn random_index(n: usize) -> (r: usize)
    requires
        n > 0,
    ensures
        r < n,
{
    rand::Rng::gen_range(&mut rand::thread_rng(), 0..n)
}

/// Choose the publisher to subscribe at: a lone address is taken, one of
/// several is chosen arbitrarily, and no address at all is the
/// "path not found" case.
pub fn pick_publisher(addrs: &Vec<Addr>) -> (r: Option<Addr>)
    ensures
        r is Some <==> addrs@.len() > 0,
        r matches Some(a) ==> addrs@.contains(a),
        addrs@.len() == 1 ==> r == Some(addrs@[0]),
{
    if addrs.len() == 0 {
        None
    } else if addrs.len() == 1 {
        Some(addrs[0])
    } else {
        let i = random_index(addrs.len());
        Some(addrs[i])
    }
}

/// One multiplexed subscription at a publisher connection.
#[derive(Debug, Clone, PartialEq)]
pub struct Sub {
    pub path: String,
    pub last: Vec<u8>,
    pub dead: bool,
}

/// The mathematical shape of a subscription record.
pub struct SubModel {
    pub path: Seq<char>,
    pub last: Seq<u8>,
    pub dead: bool,
}

impl View for Sub {
    type V = SubModel;

    open spec fn view(&self) -> SubModel {
        SubModel { path: self.path@, last: self.last@, dead: self.dead }
    }
}

/// A field-for-field copy of a subscription record.
pub fn clone_sub(s: &Sub) -> (r: Sub)
    ensures
        r@ == s@,
{
    Sub { path: s.path.clone(), last: s.last.clone(), dead: s.dead }
}

/// A control message to the publisher.
#[derive(Debug, Clone, PartialEq)]
pub enum ToPublisher {
    /// subscribe to a path
    Subscribe(String),
    /// end the subscription with this id
    Unsubscribe(u64),
}

/// A control message from the publisher.
#[derive(Debug, Clone, PartialEq)]
pub enum FromPublisher {
    /// the next data frame carries a value for this subscription
    Message(u64),
    /// the path cannot be subscribed
    NoSuchValue(String),
    /// the subscription was accepted under this id
    Subscribed(String, u64),
    /// the subscription ended
    Unsubscribed(u64),
}

/// The mathematical shape of a publisher message.
pub enum PubMsgModel {
    Message(u64),
    NoSuchValue(Seq<char>),
    Subscribed(Seq<char>, u64),
    Unsubscribed(u64),
}

impl View for FromPublisher {
    type V = PubMsgModel;

    open spec fn view(&self) -> PubMsgModel {
        match self {
            FromPublisher::Message(id) => PubMsgModel::Message(*id),
            FromPublisher::NoSuchValue(p) => PubMsgModel::NoSuchValue(p@),
            FromPublisher::Subscribed(p, id) => PubMsgModel::Subscribed(p@, *id),
            FromPublisher::Unsubscribed(id) => PubMsgModel::Unsubscribed(*id),
        }
    }
}

pub type PendEntry = (Seq<char>, u64);

pub type IdEntry = (u64, SubModel);

/// The newest pending request for a path.
pub open spec fn pend_lookup(s: Seq<PendEntry>, p: Seq<char>) -> Option<u64>
    decreases s.len(),
{
    if s.len() == 0 {
        None
    } else if s.last().0 == p {
        Some(s.last().1)
    } else {
        pend_lookup(s.drop_last(), p)
    }
}

pub open spec fn pend_without(s: Seq<PendEntry>, p: Seq<char>) -> Seq<PendEntry>
    decreases s.len(),
{
    if s.len() == 0 {
        Seq::empty()
    } else {
        pend_without(s.drop_last(), p) + if s.last().0 == p {
            Seq::empty()
        } else {
            seq![s.last()]
        }
    }
}

/// The newest subscription record under an id.
pub open spec fn id_lookup(s: Seq<IdEntry>, id: u64) -> Option<SubModel>
    decreases s.len(),
{
    if s.len() == 0 {
        None
    } else if s.last().0 == id {
        Some(s.last().1)
    } else {
        id_lookup(s.drop_last(), id)
    }
}

pub open spec fn id_without(s: Seq<IdEntry>, id: u64) -> Seq<IdEntry>
    decreases s.len(),
{
    if s.len() == 0 {
        Seq::empty()
    } else {
        id_without(s.drop_last(), id) + if s.last().0 == id {
            Seq::empty()
        } else {
            seq![s.last()]
        }
    }
}

/// A publisher connection's state: requests awaiting acceptance, the
/// subscriptions multiplexed over it, and the header of the data frame
/// that comes next.
pub struct ConState {
    pub pending: Vec<(String, u64)>,
    pub subs: Vec<(u64, Sub)>,
    pub next_val: Option<u64>,
    pub next_sub: Option<(String, u64)>,
}

/// The mathematical shape of a connection's state.
pub struct ConModel {
    pub pending: Seq<PendEntry>,
    pub subs: Seq<IdEntry>,
    pub next_val: Option<u64>,
    pub next_sub: Option<PendEntry>,
}

impl View for ConState {
    type V = ConModel;

    open spec fn view(&self) -> ConModel {
        ConModel {
            pending: self.pending@.map_values(|e: (String, u64)| (e.0@, e.1)),
            subs: self.subs@.map_values(|e: (u64, Sub)| (e.0, e.1@)),
            next_val: self.next_val,
            next_sub: match self.next_sub {
                Some((ref p, r)) => Some((p@, r)),
                None => None,
            },
        }
    }
}

/// One frame from the publisher: a control message or a data payload.
pub enum ConFrameModel {
    Ctl(PubMsgModel),
    Val(Seq<u8>),
}

/// What one frame does to a connection: the new state and the values it
/// delivers, each to the subscription named by the preceding header.
pub open spec fn con_step(m: ConModel, f: ConFrameModel) -> (ConModel, Seq<(u64, Seq<u8>)>) {
    match f {
        ConFrameModel::Ctl(pm) => (
            match pm {
                PubMsgModel::Message(id) => ConModel { next_val: Some(id), ..m },
                PubMsgModel::NoSuchValue(p) => ConModel {
                    pending: pend_without(m.pending, p),
                    ..m
                },
                PubMsgModel::Subscribed(p, id) => match pend_lookup(m.pending, p) {
                    Some(req) => ConModel {
                        pending: pend_without(m.pending, p),
                        next_val: Some(id),
                        next_sub: Some((p, req)),
                        ..m
                    },
                    None => m,
                },
                PubMsgModel::Unsubscribed(id) => ConModel {
                    subs: id_without(m.subs, id),
                    ..m
                },
            },
            Seq::empty(),
        ),
        ConFrameModel::Val(v) => match m.next_val {
            Some(id) => {
                let cleared = ConModel { next_val: None, ..m };
                match id_lookup(m.subs, id) {
                    Some(sub) => (
                        ConModel {
                            subs: id_without(m.subs, id).push(
                                (id, SubModel { last: v, ..sub }),
                            ),
                            ..cleared
                        },
                        seq![(id, v)],
                    ),
                    None => match m.next_sub {
                        Some((p, req)) => (
                            ConModel {
                                subs: m.subs.push(
                                    (id, SubModel { path: p, last: v, dead: false }),
                                ),
                                next_sub: None,
                                ..cleared
                            },
                            Seq::empty(),
                        ),
                        None => (cleared, Seq::empty()),
                    },
                }
            }
            None => (m, Seq::empty()),
        },
    }
}

proof fn lemma_id_without_absent(s: Seq<IdEntry>, id: u64)
    requires
        id_lookup(s, id) is None,
    ensures
        id_without(s, id) == s,
    decreases s.len(),
{
    if s.len() > 0 {
        assert(s.last().0 != id);
        lemma_id_without_absent(s.drop_last(), id);
        assert(id_without(s, id) =~= s);
    }
}

proof fn lemma_pend_without_absent(s: Seq<PendEntry>, p: Seq<char>)
    requires
        pend_lookup(s, p) is None,
    ensures
        pend_without(s, p) == s,
    decreases s.len(),
{
    if s.len() > 0 {
        assert(s.last().0 != p);
        lemma_pend_without_absent(s.drop_last(), p);
        assert(pend_without(s, p) =~= s);
    }
}

/// What a control message asks the surrounding loop to do.
#[derive(Debug, Clone, PartialEq)]
pub enum ControlOutcome {
    /// nothing beyond the state change
    Nothing,
    /// tell this waiting request that the path has no value
    NoSuch { req: u64 },
    /// the publisher ended this subscription: release the path
    Dropped { id: u64, path: String },
}

impl ConState {
    pub fn new() -> (r: ConState)
        ensures
            r@.pending == Seq::<PendEntry>::empty(),
            r@.subs == Seq::<IdEntry>::empty(),
            r@.next_val is None,
            r@.next_sub is None,
    {
        let r = ConState {
            pending: Vec::new(),
            subs: Vec::new(),
            next_val: None,
            next_sub: None,
        };
        proof {
            assert(r@.pending =~= Seq::<PendEntry>::empty());
            assert(r@.subs =~= Seq::<IdEntry>::empty());
        }
        r
    }

    /// Record a subscribe request awaiting the publisher's answer.
    pub fn add_pending(&mut self, path: &String, req: u64)
        ensures
            final(self)@.pending == old(self)@.pending.push((path@, req)),
            final(self)@.subs == old(self)@.subs,
            final(self)@.next_val == old(self)@.next_val,
            final(self)@.next_sub == old(self)@.next_sub,
    {
        self.pending.push((path.clone(), req));
        proof {
            assert(self@.pending =~= old(self)@.pending.push((path@, req)));
        }
    }

    fn pend_take(&mut self, path: &String) -> (r: Option<u64>)
        ensures
            r == pend_lookup(old(self)@.pending, path@),
            final(self)@.pending == pend_without(old(self)@.pending, path@),
            final(self)@.subs == old(self)@.subs,
            final(self)@.next_val == old(self)@.next_val,
            final(self)@.next_sub == old(self)@.next_sub,
    {
        let n = self.pending.len();
        let mut found: Option<u64> = None;
        let mut out: Vec<(String, u64)> = Vec::new();
        let mut i: usize = 0;
        proof {
            assert(old(self)@.pending.take(0) =~= Seq::<PendEntry>::empty());
            assert(out@.map_values(|e: (String, u64)| (e.0@, e.1)) =~= pend_without(
                old(self)@.pending.take(0),
                path@,
            ));
        }
        while i < n
            invariant
                0 <= i <= n,
                n == self.pending@.len(),
                *self == *old(self),
                found == pend_lookup(old(self)@.pending.take(i as int), path@),
                out@.map_values(|e: (String, u64)| (e.0@, e.1)) == pend_without(
                    old(self)@.pending.take(i as int),
                    path@,
                ),
            decreases n - i,
        {
            let e = &self.pending[i];
            let ghost before = out@;
            proof {
                assert(old(self)@.pending.take(i + 1).drop_last() =~= old(
                    self,
                )@.pending.take(i as int));
                assert(old(self)@.pending.take(i + 1).last() == (
                    self.pending@[i as int].0@,
                    self.pending@[i as int].1,
                ));
            }
            if crate::text::str_eq_str(e.0.as_str(), path.as_str()) {
                found = Some(e.1);
            } else {
                let c = (e.0.clone(), e.1);
                out.push(c);
                proof {
                    assert(out@.map_values(|e: (String, u64)| (e.0@, e.1))
                        =~= before.map_values(|e: (String, u64)| (e.0@, e.1)).push(
                        (self.pending@[i as int].0@, self.pending@[i as int].1),
                    ));
                }
            }
            i += 1;
        }
        proof {
            assert(old(self)@.pending.take(n as int) =~= old(self)@.pending);
        }
        self.pending = out;
        found
    }

    fn subs_take(&mut self, id: u64) -> (r: Option<Sub>)
        ensures
            (match r {
                Some(s) => id_lookup(old(self)@.subs, id) == Some(s@),
                None => id_lookup(old(self)@.subs, id) is None,
            }),
            final(self)@.subs == id_without(old(self)@.subs, id),
            final(self)@.pending == old(self)@.pending,
            final(self)@.next_val == old(self)@.next_val,
            final(self)@.next_sub == old(self)@.next_sub,
    {
        let n = self.subs.len();
        let mut found: Option<Sub> = None;
        let mut out: Vec<(u64, Sub)> = Vec::new();
        let mut i: usize = 0;
        proof {
            assert(old(self)@.subs.take(0) =~= Seq::<IdEntry>::empty());
            assert(out@.map_values(|e: (u64, Sub)| (e.0, e.1@)) =~= id_without(
                old(self)@.subs.take(0),
                id,
            ));
            assert(id_lookup(old(self)@.subs.take(0), id) is None);
        }
        while i < n
            invariant
                0 <= i <= n,
                n == self.subs@.len(),
                *self == *old(self),
                (match found {
                    Some(s) => id_lookup(old(self)@.subs.take(i as int), id) == Some(
                        s@,
                    ),
                    None => id_lookup(old(self)@.subs.take(i as int), id) is None,
                }),
                out@.map_values(|e: (u64, Sub)| (e.0, e.1@)) == id_without(
                    old(self)@.subs.take(i as int),
                    id,
                ),
            decreases n - i,
        {
            let ghost before = out@;
            proof {
                assert(old(self)@.subs.take(i + 1).drop_last() =~= old(
                    self,
                )@.subs.take(i as int));
                assert(old(self)@.subs.take(i + 1).last() == (
                    self.subs@[i as int].0,
                    self.subs@[i as int].1@,
                ));
            }
            if self.subs[i].0 == id {
                found = Some(clone_sub(&self.subs[i].1));
            } else {
                let c = (self.subs[i].0, clone_sub(&self.subs[i].1));
                out.push(c);
                proof {
                    assert(c.1@ == self.subs@[i as int].1@);
                    assert(out@.map_values(|e: (u64, Sub)| (e.0, e.1@))
                        =~= before.map_values(|e: (u64, Sub)| (e.0, e.1@)).push(
                        (self.subs@[i as int].0, self.subs@[i as int].1@),
                    ));
                }
            }
            i += 1;
        }
        proof {
            assert(old(self)@.subs.take(n as int) =~= old(self)@.subs);
        }
        self.subs = out;
        found
    }

    /// Apply one control message from the publisher. An acceptance for a
    /// path never asked for fails the connection.
    pub fn handle_control(&mut self, msg: &FromPublisher) -> (r: Result<ControlOutcome, ()>)
        ensures
            r is Ok ==> final(self)@ == con_step(old(self)@, ConFrameModel::Ctl(msg@)).0,
            r is Err ==> (msg@ matches PubMsgModel::Subscribed(p, _) && pend_lookup(
                old(self)@.pending,
                p,
            ) is None) && final(self)@ == old(self)@,
            (msg@ matches PubMsgModel::Subscribed(p, _) && pend_lookup(
                old(self)@.pending,
                p,
            ) is None) ==> r is Err,
            r matches Ok(ControlOutcome::NoSuch { req }) ==> (
            msg@ matches PubMsgModel::NoSuchValue(p) && pend_lookup(
                old(self)@.pending,
                p,
            ) == Some(req)),
            r matches Ok(ControlOutcome::Dropped { id, path }) ==> (
            msg@ matches PubMsgModel::Unsubscribed(i2) && i2 == id && (match id_lookup(
                old(self)@.subs,
                id,
            ) {
                Some(s) => s.path == path@,
                None => false,
            })),
    {
        match msg {
            FromPublisher::Message(id) => {
                self.next_val = Some(*id);
                Ok(ControlOutcome::Nothing)
            }
            FromPublisher::NoSuchValue(p) => {
                match self.pend_take(p) {
                    Some(req) => Ok(ControlOutcome::NoSuch { req }),
                    None => Ok(ControlOutcome::Nothing),
                }
            }
            FromPublisher::Subscribed(p, id) => {
                let ghost pre = *self;
                match self.pend_take(p) {
                    Some(req) => {
                        self.next_val = Some(*id);
                        self.next_sub = Some((p.clone(), req));
                        Ok(ControlOutcome::Nothing)
                    }
                    None => {
                        proof {
                            lemma_pend_without_absent(pre@.pending, p@);
                            assert(self@ == pre@);
                        }
                        Err(())
                    }
                }
            }
            FromPublisher::Unsubscribed(id) => {
                match self.subs_take(*id) {
                    Some(s) => Ok(ControlOutcome::Dropped { id: *id, path: s.path }),
                    None => Ok(ControlOutcome::Nothing),
                }
            }
        }
    }
}

impl ConState {
    /// The last value delivered on a subscription, where it is live on
    /// this connection.
    pub fn last_value(&self, id: u64) -> (r: Option<Vec<u8>>)
        ensures
            (match id_lookup(self@.subs, id) {
                Some(s) => r matches Some(v) && v@ == s.last,
                None => r is None,
            }),
    {
        let n = self.subs.len();
        let mut i: usize = n;
        proof {
            assert(self@.subs.take(n as int) =~= self@.subs);
        }
        while i > 0
            invariant
                0 <= i <= n,
                n == self.subs@.len(),
                id_lookup(self@.subs, id) == id_lookup(self@.subs.take(i as int), id),
            decreases i,
        {
            proof {
                assert(self@.subs.take(i as int).drop_last() =~= self@.subs.take(i - 1));
                assert(self@.subs.take(i as int).last() == (
                    self.subs@[i - 1].0,
                    self.subs@[i - 1].1@,
                ));
            }
            if self.subs[i - 1].0 == id {
                return Some(self.subs[i - 1].1.last.clone());
            }
            i -= 1;
        }
        proof {
            assert(self@.subs.take(0) =~= Seq::<IdEntry>::empty());
        }
        None
    }
}

/// What a data frame did.
#[derive(Debug, Clone, Copy, PartialEq, Eq, Structural)]
pub enum ValOutcome {
    /// the value went to this live subscription's streams, in order
    Delivered { id: u64 },
    /// the value is the initial value of a newly accepted subscription
    Started { id: u64, req: u64 },
    /// no header preceded the frame: nothing to do with it
    Ignored,
}

impl ConState {
    /// Apply one data frame: it carries the value of the subscription the
    /// preceding header named, which is delivered in arrival order, or
    /// the initial value of a just-accepted subscription.
    pub fn handle_val(&mut self, msg: &Vec<u8>) -> (r: ValOutcome)
        ensures
            final(self)@ == con_step(old(self)@, ConFrameModel::Val(msg@)).0,
            con_step(old(self)@, ConFrameModel::Val(msg@)).1 == (match r {
                ValOutcome::Delivered { id } => seq![(id, msg@)],
                _ => Seq::<(u64, Seq<u8>)>::empty(),
            }),
            r matches ValOutcome::Delivered { id } ==> old(self)@.next_val == Some(id),
    {
        let id = match self.next_val {
            None => {
                return ValOutcome::Ignored;
            }
            Some(id) => id,
        };
        self.next_val = None;
        match self.subs_take(id) {
            Some(s) => {
                let s2 = Sub { path: s.path, last: msg.clone(), dead: s.dead };
                self.subs.push((id, s2));
                proof {
                    assert(self@.subs =~= id_without(old(self)@.subs, id).push(
                        (
                            id,
                            SubModel {
                                last: msg@,
                                ..id_lookup(old(self)@.subs, id).unwrap()
                            },
                        ),
                    ));
                }
                ValOutcome::Delivered { id }
            }
            None => {
                proof {
                    lemma_id_without_absent(old(self)@.subs, id);
                }
                let mut ns: Option<(String, u64)> = None;
                core::mem::swap(&mut ns, &mut self.next_sub);
                match ns {
                    Some((p, req)) => {
                        self.subs.push((id, Sub { path: p, last: msg.clone(), dead: false }));
                        proof {
                            assert(self@.subs =~= old(self)@.subs.push(
                                (
                                    id,
                                    SubModel {
                                        path: old(self)@.next_sub.unwrap().0,
                                        last: msg@,
                                        dead: false,
                                    },
                                ),
                            ));
                        }
                        ValOutcome::Started { id, req }
                    }
                    None => ValOutcome::Ignored,
                }
            }
        }
    }
}

/// The wire shape of one subscription's updates: each value frame is
/// announced by a header naming the subscription.
pub open spec fn msg_frames(id: u64, vals: Seq<Seq<u8>>) -> Seq<ConFrameModel>
    decreases vals.len(),
{
    if vals.len() == 0 {
        Seq::empty()
    } else {
        seq![
            ConFrameModel::Ctl(PubMsgModel::Message(id)),
            ConFrameModel::Val(vals[0]),
        ] + msg_frames(id, vals.skip(1))
    }
}

/// A whole frame sequence folded through the connection: the final state
/// and every delivery, in order.
pub open spec fn con_run(m: ConModel, fs: Seq<ConFrameModel>) -> (
    ConModel,
    Seq<(u64, Seq<u8>)>,
)
    decreases fs.len(),
{
    if fs.len() == 0 {
        (m, Seq::empty())
    } else {
        let s1 = con_step(m, fs[0]);
        let rest = con_run(s1.0, fs.skip(1));
        (rest.0, s1.1 + rest.1)
    }
}

/// The ordered lossless stream: a publisher that emits a sequence of
/// values on one live subscription has exactly that sequence delivered,
/// in order, with nothing lost, and the subscription's last value is the
/// final one emitted.
pub proof fn lemma_ordered_stream(m: ConModel, id: u64, vals: Seq<Seq<u8>>)
    requires
        id_lookup(m.subs, id) is Some,
    ensures
        con_run(m, msg_frames(id, vals)).1 == vals.map_values(|v: Seq<u8>| (id, v)),
        id_lookup(con_run(m, msg_frames(id, vals)).0.subs, id) is Some,
        vals.len() > 0 ==> id_lookup(con_run(m, msg_frames(id, vals)).0.subs, id).unwrap().last
            == vals.last(),
    decreases vals.len(),
{
    let fs = msg_frames(id, vals);
    if vals.len() == 0 {
        assert(vals.map_values(|v: Seq<u8>| (id, v)) =~= Seq::<(u64, Seq<u8>)>::empty());
    } else {
        let v0 = vals[0];
        let m1 = con_step(m, ConFrameModel::Ctl(PubMsgModel::Message(id))).0;
        assert(m1.next_val == Some(id));
        assert(m1.subs == m.subs);
        let st2 = con_step(m1, ConFrameModel::Val(v0));
        let m2 = st2.0;
        let sub0 = id_lookup(m.subs, id).unwrap();
        assert(m2.subs == id_without(m.subs, id).push(
            (id, SubModel { last: v0, ..sub0 }),
        ));
        assert(st2.1 == seq![(id, v0)]);
        assert(id_lookup(m2.subs, id) == Some(SubModel { last: v0, ..sub0 }));
        lemma_ordered_stream(m2, id, vals.skip(1));
        assert(fs[0] == ConFrameModel::Ctl(PubMsgModel::Message(id)));
        assert(fs.skip(1) =~= seq![ConFrameModel::Val(v0)] + msg_frames(
            id,
            vals.skip(1),
        ));
        let tail = fs.skip(1);
        assert(tail[0] == ConFrameModel::Val(v0));
        assert(tail.skip(1) =~= msg_frames(id, vals.skip(1)));
        let r2 = con_run(m2, msg_frames(id, vals.skip(1)));
        assert(con_run(m1, tail) == (r2.0, st2.1 + r2.1));
        assert(con_run(m, fs) == (r2.0, Seq::<(u64, Seq<u8>)>::empty() + (st2.1
            + r2.1)));
        assert(Seq::<(u64, Seq<u8>)>::empty() + (st2.1 + r2.1) =~= seq![(id, v0)]
            + r2.1);
        assert(vals.map_values(|v: Seq<u8>| (id, v)) =~= seq![(id, v0)] + vals.skip(
            1,
        ).map_values(|v: Seq<u8>| (id, v)));
        if vals.skip(1).len() > 0 {
            assert(vals.skip(1).last() == vals.last());
        } else {
            assert(con_run(m2, msg_frames(id, vals.skip(1))).0 == m2);
            assert(vals.last() == v0);
        }
    }
}

} // verus!
