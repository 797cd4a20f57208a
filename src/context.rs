//! The bounded memory buffer: an ordered history of records under a weight
//! budget, evicting the oldest unprotected records when new content needs room.
use std::collections::VecDeque;
use vstd::prelude::*;
use vstd::utf8::encode_utf8;
use crate::text::{dec_nat, push_nat};

verus! {

/// Origin of a record; `System` records are protected from eviction.
#[derive(Debug, Clone, Copy, PartialEq, Eq, Structural)]
pub enum Role {
    System,
    User,
    Assistant,
    Tool,
}

pub open spec fn role_name(r: Role) -> Seq<char> {
    match r {
        Role::System => "system"@,
        Role::User => "user"@,
        Role::Assistant => "assistant"@,
        Role::Tool => "tool"@,
    }
}

impl Role {
    pub fn as_str(&self) -> (r: &str)
        ensures
            r@ == role_name(*self),
    {
        match self {
            Role::System => "system",
            Role::User => "user",
            Role::Assistant => "assistant",
            Role::Tool => "tool",
        }
    }
}

/// One entry of the history.
#[derive(Debug, Clone)]
pub struct Message {
    pub role: Role,
    pub content: String,
    pub token_count: usize,
}

/// What a message is, as the buffer's contracts see it.
pub ghost struct Record {
    pub origin: Role,
    pub text: Seq<char>,
    pub weight: nat,
}

pub open spec fn record_of(m: Message) -> Record {
    Record { origin: m.role, text: m.content@, weight: m.token_count as nat }
}

/// Length in bytes of the UTF-8 encoding of `text`, as `str::len` reports it.
pub open spec fn utf8_len(text: Seq<char>) -> nat {
    (encode_utf8(text).len() as usize) as nat
}

/// Weight of a text: a quarter of its UTF-8 length, and at least one.
pub open spec fn estimate(text: Seq<char>) -> nat {
    let n = utf8_len(text) / 4;
    if n == 0 {
        1
    } else {
        n
    }
}

/// Sum of the weights of `rs`.
pub open spec fn total_weight(rs: Seq<Record>) -> nat
    decreases rs.len(),
{
    if rs.len() == 0 {
        0
    } else {
        total_weight(rs.drop_last()) + rs.last().weight
    }
}

/// Index of the first unprotected record at or after `i`, or the length.
pub open spec fn evictable_from(rs: Seq<Record>, i: nat) -> nat
    decreases rs.len() - i,
{
    if i >= rs.len() {
        rs.len()
    } else if rs[i as int].origin != Role::System {
        i
    } else {
        evictable_from(rs, i + 1)
    }
}

/// Index of the oldest unprotected record, or the length when every record is protected.
pub open spec fn first_evictable(rs: Seq<Record>) -> nat {
    evictable_from(rs, 0)
}

/// The records left once the oldest unprotected ones have gone, one at a time,
/// until `w` more fits within `cap` or nothing unprotected is left.
pub open spec fn settle(rs: Seq<Record>, w: nat, cap: nat) -> Seq<Record>
    decreases rs.len(),
{
    if total_weight(rs) + w > cap && first_evictable(rs) < rs.len() {
        settle(rs.remove(first_evictable(rs) as int), w, cap)
    } else {
        rs
    }
}

/// The records after `text` is appended with origin `origin`.
pub open spec fn appended(rs: Seq<Record>, origin: Role, text: Seq<char>, cap: nat) -> Seq<Record> {
    settle(rs, estimate(text), cap).push(Record { origin, text, weight: estimate(text) })
}

pub proof fn lemma_evictable_from(rs: Seq<Record>, i: nat)
    requires
        i <= rs.len(),
    ensures
        i <= evictable_from(rs, i) <= rs.len(),
        forall|j: int| i <= j < evictable_from(rs, i) ==> rs[j].origin == Role::System,
        evictable_from(rs, i) < rs.len() ==> rs[evictable_from(rs, i) as int].origin
            != Role::System,
    decreases rs.len() - i,
{
    if i < rs.len() && rs[i as int].origin == Role::System {
        lemma_evictable_from(rs, i + 1);
    }
}

pub proof fn lemma_total_weight_remove(rs: Seq<Record>, k: int)
    requires
        0 <= k < rs.len(),
    ensures
        total_weight(rs.remove(k)) + rs[k].weight == total_weight(rs),
    decreases rs.len(),
{
    if k == rs.len() - 1 {
        assert(rs.remove(k) =~= rs.drop_last());
    } else {
        let r = rs.remove(k);
        assert(r.drop_last() =~= rs.drop_last().remove(k));
        assert(r.last() == rs.last());
        lemma_total_weight_remove(rs.drop_last(), k);
    }
}

pub proof fn lemma_total_weight_push(rs: Seq<Record>, x: Record)
    ensures
        total_weight(rs.push(x)) == total_weight(rs) + x.weight,
{
    assert(rs.push(x).drop_last() =~= rs);
}

/// Share of the capacity in use, in tenths of a percent, rounded half up.
pub open spec fn permille(used: nat, cap: nat) -> nat {
    ((used * 1000 + cap / 2) / cap) as nat
}

/// The status report: weight against capacity with the share in use, the
/// number of records, and the number evicted so far.
pub open spec fn status_text(used: nat, cap: nat, count: nat, evicted: nat) -> Seq<char> {
    let t = permille(used, cap);
    "Context Window Status:\nTokens: "@ + dec_nat(used) + "/"@ + dec_nat(cap) + " ("@ + dec_nat(
        t / 10,
    ) + "."@ + dec_nat(t % 10) + "% full)\nMessages: "@ + dec_nat(count) + "\nEvicted: "@
        + dec_nat(evicted)
}

/// Eviction never adds weight.
pub proof fn lemma_settle_weight(rs: Seq<Record>, w: nat, cap: nat)
    ensures
        total_weight(settle(rs, w, cap)) <= total_weight(rs),
    decreases rs.len(),
{
    if total_weight(rs) + w > cap && first_evictable(rs) < rs.len() {
        let k = first_evictable(rs) as int;
        lemma_total_weight_remove(rs, k);
        lemma_settle_weight(rs.remove(k), w, cap);
    }
}

/// One eviction step keeps every protected record.
pub proof fn lemma_eviction_keeps_protected(rs: Seq<Record>, i: int)
    requires
        first_evictable(rs) < rs.len(),
        0 <= i < rs.len(),
        rs[i].origin == Role::System,
    ensures
        rs.remove(first_evictable(rs) as int).contains(rs[i]),
{
    let k = first_evictable(rs) as int;
    lemma_evictable_from(rs, 0);
    let r = rs.remove(k);
    if i < k {
        assert(r[i] == rs[i]);
    } else {
        assert(i != k);
        assert(r[i - 1] == rs[i]);
    }
}

/// The protected records of `rs`, in order.
pub open spec fn protected_of(rs: Seq<Record>) -> Seq<Record> {
    rs.filter(|r: Record| r.origin == Role::System)
}

proof fn lemma_remove_unprotected(rs: Seq<Record>, k: int)
    requires
        0 <= k < rs.len(),
        rs[k].origin != Role::System,
    ensures
        protected_of(rs.remove(k)) == protected_of(rs),
{
    let pred = |r: Record| r.origin == Role::System;
    let a = rs.take(k);
    let x = seq![rs[k]];
    let b = rs.skip(k + 1);
    assert(rs =~= a + x + b);
    assert(rs.remove(k) =~= a + b);
    Seq::filter_distributes_over_add(a + x, b, pred);
    Seq::filter_distributes_over_add(a, x, pred);
    Seq::filter_distributes_over_add(a, b, pred);
    reveal_with_fuel(Seq::filter, 2);
    assert(x.drop_last() =~= Seq::<Record>::empty());
    assert(x.filter(pred) =~= Seq::<Record>::empty());
    assert(a.filter(pred) + Seq::<Record>::empty() =~= a.filter(pred));
}

/// However much room new content needs, the evictions that make room for it
/// keep every protected record, in order: the records before the appended one
/// hold exactly the protected records that were there before.
pub proof fn lemma_protected_kept_in_order(rs: Seq<Record>, origin: Role, text: Seq<char>, cap: nat)
    ensures
        protected_of(appended(rs, origin, text, cap).drop_last()) == protected_of(rs),
{
    lemma_settle_keeps_protected(rs, estimate(text), cap);
    assert(appended(rs, origin, text, cap).drop_last() =~= settle(rs, estimate(text), cap));
}

proof fn lemma_settle_keeps_protected(rs: Seq<Record>, w: nat, cap: nat)
    ensures
        protected_of(settle(rs, w, cap)) == protected_of(rs),
    decreases rs.len(),
{
    if total_weight(rs) + w > cap && first_evictable(rs) < rs.len() {
        let k = first_evictable(rs) as int;
        lemma_evictable_from(rs, 0);
        lemma_remove_unprotected(rs, k);
        lemma_settle_keeps_protected(rs.remove(k), w, cap);
    }
}

/// The unprotected records of `rs`, in order.
pub open spec fn unprotected_of(rs: Seq<Record>) -> Seq<Record> {
    rs.filter(|r: Record| r.origin != Role::System)
}

proof fn lemma_evict_first_unprotected(rs: Seq<Record>)
    requires
        first_evictable(rs) < rs.len(),
    ensures
        unprotected_of(rs.remove(first_evictable(rs) as int)) == unprotected_of(rs).drop_first(),
{
    let pred = |r: Record| r.origin != Role::System;
    let k = first_evictable(rs) as int;
    lemma_evictable_from(rs, 0);
    let a = rs.take(k);
    let x = seq![rs[k]];
    let b = rs.skip(k + 1);
    assert(rs =~= a + x + b);
    assert(rs.remove(k) =~= a + b);
    assert(a.all(|r: Record| !pred(r)));
    a.lemma_all_neg_filter_empty(pred);
    assert(a.filter(pred) =~= Seq::<Record>::empty());
    Seq::filter_distributes_over_add(a + x, b, pred);
    Seq::filter_distributes_over_add(a, x, pred);
    Seq::filter_distributes_over_add(a, b, pred);
    reveal_with_fuel(Seq::filter, 2);
    assert(x.drop_last() =~= Seq::<Record>::empty());
    assert(x.filter(pred) =~= x);
    assert((x + b.filter(pred)).drop_first() =~= b.filter(pred));
    assert(Seq::<Record>::empty() + x =~= x);
    assert(Seq::<Record>::empty() + b.filter(pred) =~= b.filter(pred));
}

proof fn lemma_settle_drops_oldest(rs: Seq<Record>, w: nat, cap: nat)
    ensures
        settle(rs, w, cap).len() <= rs.len(),
        rs.len() - settle(rs, w, cap).len() <= unprotected_of(rs).len(),
        unprotected_of(settle(rs, w, cap)) == unprotected_of(rs).skip(
            rs.len() - settle(rs, w, cap).len(),
        ),
    decreases rs.len(),
{
    if total_weight(rs) + w > cap && first_evictable(rs) < rs.len() {
        let r = rs.remove(first_evictable(rs) as int);
        lemma_evict_first_unprotected(rs);
        lemma_evictable_from(rs, 0);
        rs.lemma_filter_contains(|r: Record| r.origin != Role::System, first_evictable(rs) as int);
        lemma_settle_drops_oldest(r, w, cap);
        let n = r.len() - settle(r, w, cap).len();
        assert(unprotected_of(rs).drop_first().skip(n) =~= unprotected_of(rs).skip(n + 1));
    } else {
        assert(unprotected_of(rs).skip(0) =~= unprotected_of(rs));
    }
}

/// The records that an append evicts are the oldest unprotected ones: if `n`
/// records left, the unprotected records before the appended one are those of
/// `rs` without their first `n`, in order, and the protected ones are all kept.
pub proof fn lemma_evicts_oldest_unprotected(rs: Seq<Record>, origin: Role, text: Seq<char>, cap: nat)
    ensures
        ({
            let kept = appended(rs, origin, text, cap).drop_last();
            &&& kept.len() <= rs.len()
            &&& unprotected_of(kept) == unprotected_of(rs).skip(rs.len() - kept.len())
            &&& protected_of(kept) == protected_of(rs)
        }),
{
    lemma_settle_drops_oldest(rs, estimate(text), cap);
    lemma_protected_kept_in_order(rs, origin, text, cap);
    assert(appended(rs, origin, text, cap).drop_last() =~= settle(rs, estimate(text), cap));
}

/// Content heavier than the whole capacity, appended where every record is
/// protected, evicts nothing and leaves the buffer over capacity.
pub proof fn lemma_oversized_over_protected(rs: Seq<Record>, origin: Role, text: Seq<char>, cap: nat)
    requires
        forall|i: int| 0 <= i < rs.len() ==> rs[i].origin == Role::System,
        estimate(text) > cap,
    ensures
        appended(rs, origin, text, cap) == rs.push(Record { origin, text, weight: estimate(text) }),
        total_weight(appended(rs, origin, text, cap)) > cap,
{
    lemma_evictable_from(rs, 0);
    assert(settle(rs, estimate(text), cap) == rs);
    lemma_total_weight_push(rs, Record { origin, text, weight: estimate(text) });
}

/// The bounded buffer.
pub struct ContextWindow {
    messages: VecDeque<Message>,
    max_tokens: usize,
    current_tokens: usize,
    total_evicted: usize,
}

impl ContextWindow {
    /// The records, oldest first.
    pub closed spec fn records(&self) -> Seq<Record> {
        self.messages@.map_values(|m: Message| record_of(m))
    }

    /// The running total of weights.
    pub closed spec fn used(&self) -> nat {
        self.current_tokens as nat
    }

    pub closed spec fn capacity(&self) -> nat {
        self.max_tokens as nat
    }

    /// How many records have been evicted so far.
    pub closed spec fn evicted(&self) -> nat {
        self.total_evicted as nat
    }

    /// The standing invariant: the running total is the sum of the weights,
    /// and each weight is that of its text.
    pub open spec fn wf(&self) -> bool {
        &&& self.capacity() > 0
        &&& self.used() == total_weight(self.records())
        &&& forall|i: int|
            0 <= i < self.records().len() ==> #[trigger] self.records()[i].weight == estimate(
                self.records()[i].text,
            )
    }

    /// Whether `text` can be appended without a counter leaving `usize`.
    pub open spec fn has_room_for(&self, text: Seq<char>) -> bool {
        &&& self.used() + estimate(text) <= usize::MAX
        &&& self.evicted() + self.records().len() < usize::MAX
    }

    /// An empty buffer with capacity `max_tokens`.
    pub fn new(max_tokens: usize) -> (r: Self)
        requires
            max_tokens > 0,
        ensures
            r.wf(),
            r.records() == Seq::<Record>::empty(),
            r.capacity() == max_tokens,
            r.used() == 0,
            r.evicted() == 0,
    {
        let r = ContextWindow {
            messages: VecDeque::new(),
            max_tokens,
            current_tokens: 0,
            total_evicted: 0,
        };
        proof {
            assert(r.records() =~= Seq::<Record>::empty());
        }
        r
    }

    /// Removes and returns the oldest record whose origin is not `System`,
    /// keeping the order of the others; `None` when every record is protected.
    pub fn evict_oldest(&mut self) -> (r: Option<Message>)
        requires
            old(self).wf(),
        ensures
            final(self).wf(),
            final(self).capacity() == old(self).capacity(),
            final(self).evicted() == old(self).evicted(),
            final(self).used() == total_weight(final(self).records()),
            match r {
                Some(m) => {
                    let k = first_evictable(old(self).records()) as int;
                    &&& k < old(self).records().len()
                    &&& m.role != Role::System
                    &&& record_of(m) == old(self).records()[k]
                    &&& forall|j: int| 0 <= j < k ==> old(self).records()[j].origin == Role::System
                    &&& final(self).records() == old(self).records().remove(k)
                    &&& final(self).used() + m.token_count == old(self).used()
                },
                None => {
                    &&& first_evictable(old(self).records()) == old(self).records().len()
                    &&& forall|j: int|
                        0 <= j < old(self).records().len() ==> old(self).records()[j].origin
                            == Role::System
                    &&& final(self).records() == old(self).records()
                    &&& final(self).used() == old(self).used()
                },
            },
    {
        let ghost rs = self.records();
        proof {
            lemma_evictable_from(rs, 0);
        }
        let mut i: usize = 0;
        while i < self.messages.len() && self.messages[i].role == Role::System
            invariant
                i <= self.messages@.len(),
                rs == self.records(),
                rs.len() == self.messages@.len(),
                evictable_from(rs, 0) == evictable_from(rs, i as nat),
            decreases self.messages@.len() - i,
        {
            proof {
                assert(rs[i as int] == record_of(self.messages@[i as int]));
            }
            i = i + 1;
        }
        if i >= self.messages.len() {
            return None;
        }
        proof {
            assert(rs[i as int] == record_of(self.messages@[i as int]));
            lemma_total_weight_remove(rs, i as int);
        }
        let msg = self.messages.remove(i);
        match msg {
            Some(m) => {
                self.current_tokens = self.current_tokens - m.token_count;
                proof {
                    assert(self.records() =~= rs.remove(i as int));
                    assert forall|j: int| 0 <= j < self.records().len() implies #[trigger] self.records()[j].weight
                        == estimate(self.records()[j].text) by {
                        if j < i {
                            assert(self.records()[j] == rs[j]);
                        } else {
                            assert(self.records()[j] == rs[j + 1]);
                        }
                    }
                }
                Some(m)
            },
            None => None,
        }
    }

    /// Appends `content` with origin `role`, first evicting the oldest
    /// unprotected records while the new weight does not fit; when only
    /// protected records are left the record is accepted over capacity.
    pub fn push_message(&mut self, role: Role, content: &str)
        requires
            old(self).wf(),
            old(self).has_room_for(content@),
        ensures
            final(self).wf(),
            final(self).capacity() == old(self).capacity(),
            final(self).records() == appended(old(self).records(), role, content@, old(self).capacity()),
            final(self).used() == total_weight(final(self).records()),
            final(self).evicted() + final(self).records().len() == old(self).evicted() + old(
                self,
            ).records().len() + 1,
    {
        let token_count = estimate_tokens(content);
        let ghost w = estimate(content@);
        let ghost cap = self.capacity();
        while self.current_tokens + token_count > self.max_tokens
            invariant
                self.wf(),
                self.capacity() == cap,
                token_count == w,
                w == estimate(content@),
                self.used() <= old(self).used(),
                old(self).has_room_for(content@),
                self.evicted() + self.records().len() == old(self).evicted() + old(
                    self,
                ).records().len(),
                settle(self.records(), w, cap) == settle(old(self).records(), w, cap),
            ensures
                settle(self.records(), w, cap) == self.records(),
            decreases self.records().len(),
        {
            let ghost before = self.records();
            match self.evict_oldest() {
                Some(_m) => {
                    self.total_evicted = self.total_evicted + 1;
                    proof {
                        assert(settle(before, w, cap) == settle(
                            before.remove(first_evictable(before) as int),
                            w,
                            cap,
                        ));
                    }
                },
                None => {
                    proof {
                        assert(settle(before, w, cap) == before);
                    }
                    break;
                },
            }
        }
        let msg = Message { role, content: content.to_owned(), token_count };
        let ghost before = self.records();
        proof {
            lemma_total_weight_push(before, record_of(msg));
        }
        self.current_tokens = self.current_tokens + token_count;
        self.messages.push_back(msg);
        proof {
            assert(self.records() =~= before.push(record_of(msg)));
            assert forall|j: int| 0 <= j < self.records().len() implies #[trigger] self.records()[j].weight
                == estimate(self.records()[j].text) by {
                if j < before.len() {
                    assert(self.records()[j] == before[j]);
                }
            }
        }
    }

    /// A readable snapshot of the buffer's counters.
    pub fn status(&self) -> (r: String)
        requires
            self.wf(),
        ensures
            r@ == status_text(self.used(), self.capacity(), self.records().len(), self.evicted()),
    {
        let used = self.current_tokens as u128;
        let cap = self.max_tokens as u128;
        assert(used * 1000 + cap / 2 <= 0xffff_ffff_ffff_ffff * 1001) by (nonlinear_arith)
            requires
                used <= 0xffff_ffff_ffff_ffff,
                cap <= 0xffff_ffff_ffff_ffff,
        ;
        let t = (used * 1000 + cap / 2) / cap;
        let mut out = String::new();
        out.append("Context Window Status:\nTokens: ");
        push_nat(&mut out, used);
        out.append("/");
        push_nat(&mut out, cap);
        out.append(" (");
        push_nat(&mut out, t / 10);
        out.append(".");
        push_nat(&mut out, t % 10);
        out.append("% full)\nMessages: ");
        push_nat(&mut out, self.messages.len() as u128);
        out.append("\nEvicted: ");
        push_nat(&mut out, self.total_evicted as u128);
        proof {
            assert(self.records().len() == self.messages@.len());
            assert(out@ =~= status_text(self.used(), self.capacity(), self.records().len(), self.evicted()));
        }
        out
    }

    pub fn current_tokens(&self) -> (r: usize)
        ensures
            r == self.used(),
    {
        self.current_tokens
    }

    pub fn max_tokens(&self) -> (r: usize)
        ensures
            r == self.capacity(),
    {
        self.max_tokens
    }

    /// How many records have been evicted so far.
    pub fn total_evicted(&self) -> (r: usize)
        ensures
            r == self.evicted(),
    {
        self.total_evicted
    }

    /// The record at position `i`, oldest first.
    pub fn message_at(&self, i: usize) -> (r: &Message)
        requires
            i < self.records().len(),
        ensures
            record_of(*r) == self.records()[i as int],
    {
        &self.messages[i]
    }

    pub fn message_count(&self) -> (r: usize)
        ensures
            r == self.records().len(),
    {
        self.messages.len()
    }
}

/// Weight of a text: a quarter of its UTF-8 length, and at least one.
fn estimate_tokens(text: &str) -> (r: usize)
    ensures
        r == estimate(text@),
{
    let count = text.len() / 4;
    if count == 0 {
        1
    } else {
        count
    }
}

} // verus!
