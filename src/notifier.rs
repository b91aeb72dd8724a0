//! The event notifier: pending one-shot subscriptions, matched against block
//! events and delivered at most once, with a bounded cache of account states.
use vstd::prelude::*;

use crate::types::ActionType;

verus! {

/// What a subscription watches: a transaction (by hash key), a priority
/// operation (by serial id), or an account (by address key).
#[derive(PartialEq, Eq, Structural, Clone, Copy, Debug)]
pub enum Subject {
    Tx(u64),
    PriorityOp(u64),
    Account(u64),
}

#[derive(PartialEq, Eq, Structural, Clone, Copy, Debug)]
pub struct Subscription {
    pub id: u64,
    pub subject: Subject,
    pub action: ActionType,
}

/// A block, or a finalized part of a block still being built, reaching
/// `action`, with what it contains.
#[derive(Clone, Debug)]
pub struct BlockEvent {
    pub block: u64,
    pub action: ActionType,
    pub txs: Vec<u64>,
    pub priority_ops: Vec<u64>,
    pub accounts: Vec<u64>,
}

/// One delivery to one subscriber.
#[derive(PartialEq, Eq, Structural, Clone, Copy, Debug)]
pub struct Notification {
    pub sub_id: u64,
    pub subject: Subject,
    pub action: ActionType,
    pub block: u64,
}

pub open spec fn subject_in(subject: Subject, ev: BlockEvent) -> bool {
    match subject {
        Subject::Tx(h) => ev.txs@.contains(h),
        Subject::PriorityOp(s) => ev.priority_ops@.contains(s),
        Subject::Account(a) => ev.accounts@.contains(a),
    }
}

/// Subscription `s` is due on event `ev`.
pub open spec fn fires_on(s: Subscription, ev: BlockEvent) -> bool {
    s.action == ev.action && subject_in(s.subject, ev)
}

pub open spec fn notification_for(s: Subscription, block: u64) -> Notification {
    Notification { sub_id: s.id, subject: s.subject, action: s.action, block }
}

/// The subscriptions of `pending` that stay pending after `ev`, in order.
pub open spec fn remaining(pending: Seq<Subscription>, ev: BlockEvent) -> Seq<Subscription>
    decreases pending.len(),
{
    if pending.len() == 0 {
        pending
    } else {
        let rest = remaining(pending.drop_last(), ev);
        if fires_on(pending.last(), ev) {
            rest
        } else {
            rest.push(pending.last())
        }
    }
}

/// The deliveries that `ev` causes among `pending`, in order.
pub open spec fn fired(pending: Seq<Subscription>, ev: BlockEvent) -> Seq<Notification>
    decreases pending.len(),
{
    if pending.len() == 0 {
        Seq::empty()
    } else {
        let rest = fired(pending.drop_last(), ev);
        if fires_on(pending.last(), ev) {
            rest.push(notification_for(pending.last(), ev.block))
        } else {
            rest
        }
    }
}

/// The subscriptions of `pending` whose id is not `id`.
pub open spec fn without_id(pending: Seq<Subscription>, id: u64) -> Seq<Subscription>
    decreases pending.len(),
{
    if pending.len() == 0 {
        pending
    } else {
        let rest = without_id(pending.drop_last(), id);
        if pending.last().id == id {
            rest
        } else {
            rest.push(pending.last())
        }
    }
}

pub open spec fn ids_distinct(pending: Seq<Subscription>) -> bool {
    forall|i: int, k: int|
        0 <= i < pending.len() && 0 <= k < pending.len() && i != k ==> #[trigger] pending[i].id
            != #[trigger] pending[k].id
}

pub open spec fn ids_below(pending: Seq<Subscription>, next: u64) -> bool {
    forall|i: int| 0 <= i < pending.len() ==> #[trigger] pending[i].id < next
}

/// Whether `v` holds `k`.
fn holds(v: &Vec<u64>, k: u64) -> (r: bool)
    ensures
        r == v@.contains(k),
{
    let mut i: usize = 0;
    while i < v.len()
        invariant
            i <= v@.len(),
            forall|j: int| 0 <= j < i ==> v@[j] != k,
        decreases v@.len() - i,
    {
        if v[i] == k {
            return true;
        }
        i += 1;
    }
    false
}

/// Whether subscription `s` is due on `ev`.
pub fn is_due(s: &Subscription, ev: &BlockEvent) -> (r: bool)
    ensures
        r == fires_on(*s, *ev),
{
    if s.action != ev.action {
        return false;
    }
    match s.subject {
        Subject::Tx(h) => holds(&ev.txs, h),
        Subject::PriorityOp(n) => holds(&ev.priority_ops, n),
        Subject::Account(a) => holds(&ev.accounts, a),
    }
}

proof fn lemma_remaining_sub(pending: Seq<Subscription>, ev: BlockEvent)
    ensures
        forall|i: int|
            0 <= i < remaining(pending, ev).len() ==> {
                &&& !fires_on(#[trigger] remaining(pending, ev)[i], ev)
                &&& pending.contains(remaining(pending, ev)[i])
            },
        forall|i: int|
            0 <= i < fired(pending, ev).len() ==> exists|k: int|
                0 <= k < pending.len() && fires_on(pending[k], ev) && #[trigger] fired(pending, ev)[i]
                    == notification_for(pending[k], ev.block),
        remaining(pending, ev).len() + fired(pending, ev).len() == pending.len(),
    decreases pending.len(),
{
    if pending.len() > 0 {
        let p = pending.drop_last();
        lemma_remaining_sub(p, ev);
        assert forall|i: int| 0 <= i < remaining(pending, ev).len() implies pending.contains(
            #[trigger] remaining(pending, ev)[i],
        ) && !fires_on(remaining(pending, ev)[i], ev) by {
            if i < remaining(p, ev).len() {
                let k = choose|k: int| 0 <= k < p.len() && p[k] == remaining(p, ev)[i];
                assert(pending[k] == p[k]);
            } else {
                assert(pending[pending.len() - 1] == pending.last());
            }
        }
        assert forall|i: int| 0 <= i < fired(pending, ev).len() implies exists|k: int|
            0 <= k < pending.len() && fires_on(pending[k], ev) && #[trigger] fired(pending, ev)[i]
                == notification_for(pending[k], ev.block) by {
            if i < fired(p, ev).len() {
                let k = choose|k: int|
                    0 <= k < p.len() && fires_on(p[k], ev) && fired(p, ev)[i] == notification_for(
                        p[k],
                        ev.block,
                    );
                assert(pending[k] == p[k]);
            } else {
                assert(pending[pending.len() - 1] == pending.last());
            }
        }
    }
}

/// Pending subscriptions and the id counter. Ids are unique among the pending
/// subscriptions and below the counter, so an id is never handed out twice.
pub struct EventNotifier {
    pending: Vec<Subscription>,
    next_sub_id: u64,
}

impl EventNotifier {
    pub closed spec fn pending_seq(&self) -> Seq<Subscription> {
        self.pending@
    }

    pub closed spec fn next_id(&self) -> u64 {
        self.next_sub_id
    }

    pub open spec fn wf(&self) -> bool {
        ids_distinct(self.pending_seq()) && ids_below(self.pending_seq(), self.next_id())
    }

    pub fn new() -> (r: Self)
        ensures
            r.wf(),
            r.pending_seq().len() == 0,
            r.next_id() == 0,
    {
        EventNotifier { pending: Vec::new(), next_sub_id: 0 }
    }

    /// Whether another subscription id can be allocated.
    pub fn has_room_left(&self) -> (r: bool)
        ensures
            r == (self.next_id() < u64::MAX),
    {
        self.next_sub_id < u64::MAX
    }

    /// The pending subscriptions, oldest first.
    pub fn pending(&self) -> (r: &Vec<Subscription>)
        ensures
            r@ == self.pending_seq(),
    {
        &self.pending
    }

    /// Registers interest in `subject` reaching `action` under a fresh id.
    /// `reached` is what a storage lookup found: the block in which the event
    /// already happened, if it did. Then the subscription fires at once and is
    /// not kept; otherwise it joins the pending set.
    pub fn subscribe(&mut self, subject: Subject, action: ActionType, reached: Option<u64>) -> (r: (
        u64,
        Option<Notification>,
    ))
        requires
            old(self).wf(),
            old(self).next_id() < u64::MAX,
        ensures
            final(self).wf(),
            r.0 == old(self).next_id(),
            final(self).next_id() == old(self).next_id() + 1,
            match reached {
                Some(b) => r.1 == Some(
                    (Notification { sub_id: r.0, subject, action, block: b }),
                ) && final(self).pending_seq() == old(self).pending_seq(),
                None => r.1 is None && final(self).pending_seq() == old(self).pending_seq().push(
                    (Subscription { id: r.0, subject, action }),
                ),
            },
    {
        let id = self.next_sub_id;
        self.next_sub_id = id + 1;
        match reached {
            Some(b) => (id, Some(Notification { sub_id: id, subject, action, block: b })),
            None => {
                self.pending.push(Subscription { id, subject, action });
                (id, None)
            },
        }
    }

    /// Drops the pending subscription `id`. Returns whether one was pending.
    pub fn unsubscribe(&mut self, id: u64) -> (r: bool)
        requires
            old(self).wf(),
        ensures
            final(self).wf(),
            final(self).next_id() == old(self).next_id(),
            final(self).pending_seq() == without_id(old(self).pending_seq(), id),
            r == exists|i: int|
                0 <= i < old(self).pending_seq().len() && #[trigger] old(self).pending_seq()[i].id == id,
    {
        let mut i: usize = 0;
        while i < self.pending.len()
            invariant
                i <= self.pending@.len(),
                self.pending@ == old(self).pending@,
                self.next_sub_id == old(self).next_sub_id,
                ids_distinct(self.pending@),
                ids_below(self.pending@, self.next_sub_id),
                forall|k: int| 0 <= k < i ==> #[trigger] self.pending@[k].id != id,
            decreases self.pending@.len() - i,
        {
            if self.pending[i].id == id {
                let ghost before = self.pending@;
                self.pending.remove(i);
                proof {
                    lemma_without_id_unique(before, i as int, id);
                    assert forall|a: int, b: int|
                        0 <= a < self.pending@.len() && 0 <= b < self.pending@.len() && a != b implies
                        #[trigger] self.pending@[a].id != #[trigger] self.pending@[b].id by {
                        let a2 = if a < i { a } else { a + 1 };
                        let b2 = if b < i { b } else { b + 1 };
                        assert(self.pending@[a] == before[a2]);
                        assert(self.pending@[b] == before[b2]);
                    }
                    assert forall|a: int| 0 <= a < self.pending@.len() implies #[trigger] self.pending@[a].id
                        < self.next_sub_id by {
                        let a2 = if a < i { a } else { a + 1 };
                        assert(self.pending@[a] == before[a2]);
                    }
                }
                return true;
            }
            i += 1;
        }
        proof {
            lemma_without_absent(self.pending@, id);
        }
        false
    }

    /// Delivers `ev` to every pending subscription due on it, in subscription
    /// order, and drops those subscriptions from the pending set.
    pub fn handle_event(&mut self, ev: &BlockEvent) -> (r: Vec<Notification>)
        requires
            old(self).wf(),
        ensures
            final(self).wf(),
            final(self).next_id() == old(self).next_id(),
            final(self).pending_seq() == remaining(old(self).pending_seq(), *ev),
            r@ == fired(old(self).pending_seq(), *ev),
    {
        let mut kept: Vec<Subscription> = Vec::new();
        let mut out: Vec<Notification> = Vec::new();
        let mut i: usize = 0;
        while i < self.pending.len()
            invariant
                i <= self.pending@.len(),
                self.pending@ == old(self).pending@,
                self.next_sub_id == old(self).next_sub_id,
                ids_distinct(self.pending@),
                ids_below(self.pending@, self.next_sub_id),
                kept@ == remaining(self.pending@.subrange(0, i as int), *ev),
                out@ == fired(self.pending@.subrange(0, i as int), *ev),
            decreases self.pending@.len() - i,
        {
            let s = self.pending[i];
            proof {
                let sub = self.pending@.subrange(0, i as int + 1);
                assert(sub.drop_last() =~= self.pending@.subrange(0, i as int));
                assert(sub.last() == s);
            }
            if is_due(&s, ev) {
                out.push(Notification { sub_id: s.id, subject: s.subject, action: s.action, block: ev.block });
            } else {
                kept.push(s);
            }
            i += 1;
        }
        proof {
            assert(self.pending@.subrange(0, i as int) =~= self.pending@);
            lemma_remaining_sub(self.pending@, *ev);
            let p = self.pending@;
            assert forall|a: int, b: int|
                0 <= a < kept@.len() && 0 <= b < kept@.len() && a != b implies #[trigger] kept@[a].id
                != #[trigger] kept@[b].id by {
                lemma_remaining_order(p, *ev, a, b);
            }
            assert forall|a: int| 0 <= a < kept@.len() implies #[trigger] kept@[a].id < self.next_sub_id by {
                assert(p.contains(kept@[a]));
            }
        }
        self.pending = kept;
        out
    }
}

/// Entries of `remaining` come from distinct positions of `pending`, in order.
proof fn lemma_remaining_order(pending: Seq<Subscription>, ev: BlockEvent, a: int, b: int)
    requires
        ids_distinct(pending),
        0 <= a < remaining(pending, ev).len(),
        0 <= b < remaining(pending, ev).len(),
        a != b,
    ensures
        remaining(pending, ev)[a].id != remaining(pending, ev)[b].id,
    decreases pending.len(),
{
    let p = pending.drop_last();
    assert(ids_distinct(p)) by {
        assert forall|x: int, y: int| 0 <= x < p.len() && 0 <= y < p.len() && x != y implies #[trigger] p[x].id
            != #[trigger] p[y].id by {
            assert(p[x] == pending[x] && p[y] == pending[y]);
        }
    }
    lemma_remaining_sub(p, ev);
    let r = remaining(p, ev);
    if a < r.len() && b < r.len() {
        lemma_remaining_order(p, ev, a, b);
    } else {
        let x = if a < r.len() { a } else { b };
        assert(p.contains(r[x]));
        let k = choose|k: int| 0 <= k < p.len() && p[k] == r[x];
        assert(pending[k] == p[k]);
        assert(pending[pending.len() - 1] == pending.last());
    }
}

proof fn lemma_without_absent(pending: Seq<Subscription>, id: u64)
    requires
        forall|k: int| 0 <= k < pending.len() ==> #[trigger] pending[k].id != id,
    ensures
        without_id(pending, id) == pending,
    decreases pending.len(),
{
    if pending.len() > 0 {
        let p = pending.drop_last();
        assert forall|k: int| 0 <= k < p.len() implies #[trigger] p[k].id != id by {
            assert(p[k] == pending[k]);
        }
        lemma_without_absent(p, id);
        assert(pending[pending.len() - 1] == pending.last());
        assert(p.push(pending.last()) =~= pending);
    }
}

/// With unique ids, dropping `id` found at `i` removes exactly position `i`.
proof fn lemma_without_id_unique(pending: Seq<Subscription>, i: int, id: u64)
    requires
        ids_distinct(pending),
        0 <= i < pending.len(),
        pending[i].id == id,
    ensures
        without_id(pending, id) == pending.remove(i),
    decreases pending.len(),
{
    let p = pending.drop_last();
    assert(ids_distinct(p)) by {
        assert forall|x: int, y: int| 0 <= x < p.len() && 0 <= y < p.len() && x != y implies #[trigger] p[x].id
            != #[trigger] p[y].id by {
            assert(p[x] == pending[x] && p[y] == pending[y]);
        }
    }
    assert(pending[pending.len() - 1] == pending.last());
    if i == pending.len() - 1 {
        assert forall|k: int| 0 <= k < p.len() implies #[trigger] p[k].id != id by {
            assert(p[k] == pending[k]);
        }
        lemma_without_absent(p, id);
        assert(pending.remove(i) =~= p);
    } else {
        lemma_without_id_unique(p, i, id);
        assert(pending.last().id != id);
        assert(p.remove(i).push(pending.last()) =~= pending.remove(i));
    }
}

/// Deliveries of `fired` come from distinct pending subscriptions, in order.
proof fn lemma_fired_order(pending: Seq<Subscription>, ev: BlockEvent, a: int, b: int)
    requires
        ids_distinct(pending),
        0 <= a < fired(pending, ev).len(),
        0 <= b < fired(pending, ev).len(),
        a != b,
    ensures
        fired(pending, ev)[a].sub_id != fired(pending, ev)[b].sub_id,
    decreases pending.len(),
{
    let p = pending.drop_last();
    assert(ids_distinct(p)) by {
        assert forall|x: int, y: int| 0 <= x < p.len() && 0 <= y < p.len() && x != y implies #[trigger] p[x].id
            != #[trigger] p[y].id by {
            assert(p[x] == pending[x] && p[y] == pending[y]);
        }
    }
    lemma_remaining_sub(p, ev);
    let f = fired(p, ev);
    if a < f.len() && b < f.len() {
        lemma_fired_order(p, ev, a, b);
    } else {
        let x = if a < f.len() { a } else { b };
        let k = choose|k: int| 0 <= k < p.len() && fires_on(p[k], ev) && #[trigger] f[x] == notification_for(p[k], ev.block);
        assert(pending[k] == p[k]);
        assert(pending[pending.len() - 1] == pending.last());
    }
}

/// Single fire: an event delivers each pending subscription at most once,
/// and none it delivered stays pending. Delivered ids lie below the id
/// counter, and later subscriptions get ids from the counter upwards, so no
/// subscription is ever delivered twice.
pub proof fn lemma_single_fire(n: &EventNotifier, ev: BlockEvent)
    requires
        n.wf(),
    ensures
        forall|a: int, b: int|
            0 <= a < fired(n.pending_seq(), ev).len() && 0 <= b < fired(n.pending_seq(), ev).len() && a != b
                ==> #[trigger] fired(n.pending_seq(), ev)[a].sub_id != #[trigger] fired(
                n.pending_seq(),
                ev,
            )[b].sub_id,
        forall|a: int, k: int|
            0 <= a < fired(n.pending_seq(), ev).len() && 0 <= k < remaining(n.pending_seq(), ev).len()
                ==> #[trigger] fired(n.pending_seq(), ev)[a].sub_id != #[trigger] remaining(
                n.pending_seq(),
                ev,
            )[k].id,
        forall|a: int|
            0 <= a < fired(n.pending_seq(), ev).len() ==> #[trigger] fired(n.pending_seq(), ev)[a].sub_id
                < n.next_id(),
{
    let p = n.pending_seq();
    lemma_remaining_sub(p, ev);
    assert forall|a: int, b: int|
        0 <= a < fired(p, ev).len() && 0 <= b < fired(p, ev).len() && a != b implies #[trigger] fired(p, ev)[a].sub_id
        != #[trigger] fired(p, ev)[b].sub_id by {
        lemma_fired_order(p, ev, a, b);
    }
    assert forall|a: int, k: int|
        0 <= a < fired(p, ev).len() && 0 <= k < remaining(p, ev).len() implies #[trigger] fired(p, ev)[a].sub_id
        != #[trigger] remaining(p, ev)[k].id by {
        let x = choose|x: int| 0 <= x < p.len() && fires_on(p[x], ev) && #[trigger] fired(p, ev)[a] == notification_for(p[x], ev.block);
        assert(p.contains(remaining(p, ev)[k]));
        let y = choose|y: int| 0 <= y < p.len() && p[y] == remaining(p, ev)[k];
        assert(!fires_on(remaining(p, ev)[k], ev));
        assert(x != y);
    }
    assert forall|a: int| 0 <= a < fired(p, ev).len() implies #[trigger] fired(p, ev)[a].sub_id < n.next_id() by {
        let x = choose|x: int| 0 <= x < p.len() && fires_on(p[x], ev) && #[trigger] fired(p, ev)[a] == notification_for(p[x], ev.block);
        assert(p[x].id < n.next_id());
    }
}

/// Ordering: a `Commit` event delivers only `Commit` subscriptions and leaves
/// none of the `Commit` subscriptions it covers pending, so when the `Verify`
/// event for the same contents follows, every matching `Commit` subscription
/// has already been delivered, and that event delivers only `Verify` ones.
pub proof fn lemma_commit_fires_before_verify(pending: Seq<Subscription>, commit: BlockEvent, verify: BlockEvent)
    requires
        commit.action == ActionType::Commit,
        verify.action == ActionType::Verify,
        verify.txs@ == commit.txs@,
        verify.priority_ops@ == commit.priority_ops@,
        verify.accounts@ == commit.accounts@,
    ensures
        forall|i: int|
            0 <= i < fired(pending, commit).len() ==> #[trigger] fired(pending, commit)[i].action
                == ActionType::Commit,
        forall|i: int|
            0 <= i < remaining(pending, commit).len() ==> !(#[trigger] remaining(pending, commit)[i].action
                == ActionType::Commit && subject_in(remaining(pending, commit)[i].subject, verify)),
        forall|i: int|
            0 <= i < fired(remaining(pending, commit), verify).len() ==> #[trigger] fired(
                remaining(pending, commit),
                verify,
            )[i].action == ActionType::Verify,
{
    lemma_remaining_sub(pending, commit);
    let r = remaining(pending, commit);
    lemma_remaining_sub(r, verify);
    assert forall|i: int| 0 <= i < fired(pending, commit).len() implies #[trigger] fired(pending, commit)[i].action
        == ActionType::Commit by {
        let x = choose|x: int| 0 <= x < pending.len() && fires_on(pending[x], commit) && #[trigger] fired(pending, commit)[i] == notification_for(pending[x], commit.block);
    }
    assert forall|i: int| 0 <= i < r.len() implies !(#[trigger] r[i].action == ActionType::Commit && subject_in(
        r[i].subject,
        verify,
    )) by {
        assert(!fires_on(r[i], commit));
    }
    assert forall|i: int| 0 <= i < fired(r, verify).len() implies #[trigger] fired(r, verify)[i].action
        == ActionType::Verify by {
        let x = choose|x: int| 0 <= x < r.len() && fires_on(r[x], verify) && #[trigger] fired(r, verify)[i] == notification_for(r[x], verify.block);
    }
}

/// Subscribing under a fresh id and unsubscribing that id leaves the pending
/// set as it was.
pub proof fn lemma_subscribe_then_unsubscribe(pending: Seq<Subscription>, s: Subscription)
    requires
        forall|k: int| 0 <= k < pending.len() ==> #[trigger] pending[k].id != s.id,
    ensures
        without_id(pending.push(s), s.id) == pending,
{
    assert(pending.push(s).drop_last() =~= pending);
    lemma_without_absent(pending, s.id);
}

} // verus!
