//! Hysteresis-based noise rejection: a raw snapshot stream is promoted to a
//! stable snapshot only after `limit + 1` consecutive agreeing samples, and
//! each promotion yields one press/release transition per changed pin.

use vstd::prelude::*;
use crate::event::EVENT_CAP;
use crate::event::IndexEvent;
use crate::event::IndexEvents;

verus! {

/// A snapshot of pin states, value-compared; `true` means pressed.
#[derive(Debug)]
pub struct Keys {
    pub pressed: Vec<bool>,
}

impl Keys {
    /// Copy a raw slice into a snapshot.
    pub fn from(keys: &[bool]) -> (r: Keys)
        ensures
            r.pressed@ == keys@,
    {
        let mut pressed: Vec<bool> = Vec::new();
        let mut i: usize = 0;
        while i < keys.len()
            invariant
                i <= keys.len(),
                pressed@ == keys@.take(i as int),
            decreases keys.len() - i,
        {
            let b = keys[i];
            pressed.push(b);
            proof {
                assert(pressed@ =~= keys@.take(i + 1));
            }
            i = i + 1;
        }
        proof {
            assert(pressed@ =~= keys@);
        }
        Keys { pressed }
    }
}

/// The mathematical state of a debouncer.
pub ghost struct DebView {
    pub cur: Seq<bool>,
    pub candidate: Seq<bool>,
    pub count: u16,
    pub limit: u16,
}

/// Whether feeding `s` into state `d` promotes a new stable snapshot.
pub open spec fn deb_changed(d: DebView, s: Seq<bool>) -> bool {
    s != d.cur && ((s == d.candidate && d.count >= d.limit) || (s != d.candidate && d.limit == 0))
}

/// The debouncer state after feeding one sample `s`:
/// - a sample equal to the stable snapshot resets the agreement counter;
/// - one equal to the candidate raises it, promoting the candidate once the
///   counter exceeds `limit`;
/// - any other sample becomes the new candidate with one agreement.
pub open spec fn deb_step(d: DebView, s: Seq<bool>) -> DebView {
    if s == d.cur {
        DebView { count: 0, ..d }
    } else if s == d.candidate {
        if d.count >= d.limit {
            DebView { cur: d.candidate, candidate: d.cur, count: 0, limit: d.limit }
        } else {
            DebView { count: (d.count + 1) as u16, ..d }
        }
    } else {
        if d.limit == 0 {
            DebView { cur: s, candidate: d.cur, count: 0, limit: d.limit }
        } else {
            DebView { candidate: s, count: 1, ..d }
        }
    }
}

/// The transitions between two stable snapshots: one event per index at
/// which they differ, in index order, over the indices both snapshots cover.
pub open spec fn diff_events(a: Seq<bool>, b: Seq<bool>) -> Seq<IndexEvent> {
    diff_events_upto(a, b, if a.len() <= b.len() { a.len() as int } else { b.len() as int })
}

pub open spec fn diff_events_upto(a: Seq<bool>, b: Seq<bool>, n: int) -> Seq<IndexEvent>
    decreases n,
{
    if n <= 0 {
        Seq::empty()
    } else {
        diff_events_upto(a, b, n - 1) + diff_event_at(a, b, n - 1)
    }
}

pub open spec fn diff_event_at(a: Seq<bool>, b: Seq<bool>, i: int) -> Seq<IndexEvent> {
    if !a[i] && b[i] {
        seq![IndexEvent::PressedAt(i as usize)]
    } else if a[i] && !b[i] {
        seq![IndexEvent::ReleasedAt(i as usize)]
    } else {
        Seq::empty()
    }
}

/// The first `EVENT_CAP` entries of `s`: what a bounded event buffer keeps.
pub open spec fn truncated(s: Seq<IndexEvent>) -> Seq<IndexEvent> {
    if s.len() <= EVENT_CAP {
        s
    } else {
        s.take(EVENT_CAP as int)
    }
}

/// Converts a raw snapshot stream into promoted stable snapshots by a
/// consecutive-agreement counter.
#[derive(Debug)]
pub struct Debouncer {
    pub cur: Keys,
    pub candidate: Keys,
    pub count: u16,
    pub limit: u16,
}

/// Compare two snapshots by value.
fn keys_eq(a: &Keys, b: &Keys) -> (r: bool)
    ensures
        r == (a.pressed@ == b.pressed@),
{
    if a.pressed.len() != b.pressed.len() {
        return false;
    }
    let mut i: usize = 0;
    while i < a.pressed.len()
        invariant
            i <= a.pressed.len(),
            a.pressed.len() == b.pressed.len(),
            forall|j: int| 0 <= j < i ==> a.pressed@[j] == b.pressed@[j],
        decreases a.pressed.len() - i,
    {
        if a.pressed[i] != b.pressed[i] {
            return false;
        }
        i = i + 1;
    }
    proof {
        assert(a.pressed@ =~= b.pressed@);
    }
    true
}

impl View for Debouncer {
    type V = DebView;

    open spec fn view(&self) -> DebView {
        DebView {
            cur: self.cur.pressed@,
            candidate: self.candidate.pressed@,
            count: self.count,
            limit: self.limit,
        }
    }
}

impl Debouncer {
    /// The agreement counter never exceeds the configured limit.
    pub open spec fn inv(self) -> bool {
        self.count <= self.limit
    }

    /// A debouncer that reports `changed` only after a candidate snapshot
    /// has agreed for `limit + 1` consecutive samples.
    pub fn new(limit: u16) -> (r: Debouncer)
        ensures
            r.inv(),
            r@ == (DebView {
                cur: Seq::<bool>::empty(),
                candidate: Seq::<bool>::empty(),
                count: 0,
                limit,
            }),
    {
        Debouncer {
            cur: Keys { pressed: Vec::new() },
            candidate: Keys { pressed: Vec::new() },
            count: 0,
            limit,
        }
    }

    /// Feed one sample; report whether a new stable snapshot was promoted.
    pub fn update(&mut self, sample: &Keys) -> (changed: bool)
        requires
            old(self).inv(),
        ensures
            final(self).inv(),
            final(self)@ == deb_step(old(self)@, sample.pressed@),
            changed == deb_changed(old(self)@, sample.pressed@),
    {
        if keys_eq(&self.cur, sample) {
            self.count = 0;
            false
        } else {
            let promote: bool;
            if keys_eq(&self.candidate, sample) {
                if self.count >= self.limit {
                    promote = true;
                } else {
                    self.count = self.count + 1;
                    promote = false;
                }
            } else {
                self.candidate = Keys::from(sample.pressed.as_slice());
                if self.limit == 0 {
                    promote = true;
                } else {
                    self.count = 1;
                    promote = false;
                }
            }
            if promote {
                core::mem::swap(&mut self.cur, &mut self.candidate);
                self.count = 0;
                true
            } else {
                false
            }
        }
    }

    /// Feed one raw sample; on promotion return the transitions between the
    /// previous stable snapshot and the new one, at most `EVENT_CAP` of them.
    pub fn events(&mut self, sample: &[bool]) -> (r: IndexEvents)
        requires
            old(self).inv(),
        ensures
            final(self).inv(),
            final(self)@ == deb_step(old(self)@, sample@),
            deb_changed(old(self)@, sample@) ==> r.buffer@ == truncated(
                diff_events(old(self)@.cur, final(self)@.cur),
            ),
            !deb_changed(old(self)@, sample@) ==> r.buffer@ == Seq::<IndexEvent>::empty(),
    {
        let mut result = IndexEvents::new();
        let snapshot = Keys::from(sample);
        let changed = self.update(&snapshot);
        if changed {
            let ghost dpost = *self;
            let ghost a = self.candidate.pressed@;
            let ghost b = self.cur.pressed@;
            let n: usize = if self.candidate.pressed.len() <= self.cur.pressed.len() {
                self.candidate.pressed.len()
            } else {
                self.cur.pressed.len()
            };
            let mut i: usize = 0;
            while i < n
                invariant
                    i <= n,
                    *self == dpost,
                    a == self.candidate.pressed@,
                    b == self.cur.pressed@,
                    n == if a.len() <= b.len() { a.len() } else { b.len() },
                    result.buffer@ == truncated(diff_events_upto(a, b, i as int)),
                decreases n - i,
            {
                let o = self.candidate.pressed[i];
                let w = self.cur.pressed[i];
                let ghost before = diff_events_upto(a, b, i as int);
                proof {
                    lemma_diff_upto_len(a, b, i as int);
                }
                if !o && w {
                    result.push(IndexEvent::PressedAt(i));
                    proof {
                        lemma_truncated_push(before, IndexEvent::PressedAt(i as usize));
                        assert(diff_events_upto(a, b, i + 1) =~= before.push(
                            IndexEvent::PressedAt(i as usize),
                        ));
                    }
                } else if o && !w {
                    result.push(IndexEvent::ReleasedAt(i));
                    proof {
                        lemma_truncated_push(before, IndexEvent::ReleasedAt(i as usize));
                        assert(diff_events_upto(a, b, i + 1) =~= before.push(
                            IndexEvent::ReleasedAt(i as usize),
                        ));
                    }
                } else {
                    proof {
                        assert(diff_events_upto(a, b, i + 1) =~= before);
                    }
                }
                i = i + 1;
            }
        }
        result
    }
}

/// At most one event arises per compared index.
pub proof fn lemma_diff_upto_len(a: Seq<bool>, b: Seq<bool>, n: int)
    ensures
        diff_events_upto(a, b, n).len() <= if n >= 0 { n } else { 0 },
    decreases n,
{
    if n > 0 {
        lemma_diff_upto_len(a, b, n - 1);
    }
}

/// How truncation commutes with appending one entry.
proof fn lemma_truncated_push(s: Seq<IndexEvent>, e: IndexEvent)
    ensures
        s.len() < EVENT_CAP ==> truncated(s.push(e)) == truncated(s).push(e),
        s.len() >= EVENT_CAP ==> truncated(s.push(e)) == truncated(s),
{
    if s.len() < EVENT_CAP {
        assert(truncated(s.push(e)) =~= truncated(s).push(e));
    } else {
        assert(truncated(s.push(e)) =~= truncated(s));
    }
}

/// The debouncer state after feeding the same sample `n` times.
pub open spec fn deb_feed(d: DebView, s: Seq<bool>, n: nat) -> DebView
    decreases n,
{
    if n == 0 {
        d
    } else {
        deb_step(deb_feed(d, s, (n - 1) as nat), s)
    }
}

/// Feeding `n` samples is one step followed by `n - 1` more.
proof fn lemma_feed_shift(d: DebView, s: Seq<bool>, n: nat)
    requires
        n >= 1,
    ensures
        deb_feed(d, s, n) == deb_feed(deb_step(d, s), s, (n - 1) as nat),
    decreases n,
{
    let d1 = deb_step(d, s);
    if n == 1 {
        assert(deb_feed(d, s, 1) == deb_step(deb_feed(d, s, 0), s));
        assert(deb_feed(d1, s, 0) == d1);
    } else {
        lemma_feed_shift(d, s, (n - 1) as nat);
        assert(deb_feed(d, s, n) == deb_step(deb_feed(d, s, (n - 1) as nat), s));
        assert(deb_feed(d1, s, (n - 1) as nat) == deb_step(deb_feed(d1, s, (n - 2) as nat), s));
    }
}

/// While the candidate keeps agreeing and the counter stays within the
/// limit, feeding only raises the counter.
proof fn lemma_feed_agreeing(d: DebView, s: Seq<bool>, n: nat)
    requires
        d.cur != s,
        d.candidate == s,
        d.count + n <= d.limit,
    ensures
        deb_feed(d, s, n) == (DebView { count: (d.count + n) as u16, ..d }),
    decreases n,
{
    if n > 0 {
        lemma_feed_agreeing(d, s, (n - 1) as nat);
    }
}

/// A new snapshot `s`, distinct from the stable one and sustained for
/// `limit + 1` consecutive polls, reports "unchanged" for the first `limit`
/// polls and is promoted exactly at poll `limit + 1`; the previous stable
/// snapshot becomes the candidate.
pub proof fn lemma_distinct_snapshot_promotes(d: DebView, s: Seq<bool>)
    requires
        d.count == 0,
        d.cur != s,
    ensures
        forall|k: nat| 1 <= k <= d.limit ==> !deb_changed(#[trigger] deb_feed(d, s, (k - 1) as nat), s),
        deb_changed(deb_feed(d, s, d.limit as nat), s),
        deb_feed(d, s, (d.limit + 1) as nat) == (DebView {
            cur: s,
            candidate: d.cur,
            count: 0,
            limit: d.limit,
        }),
{
    if d.limit == 0 {
        assert(deb_feed(d, s, 0) == d);
        assert(deb_changed(d, s));
        assert(deb_feed(d, s, 1) == deb_step(d, s));
    } else {
        let d1 = deb_step(d, s);
        assert(d1 == (DebView { cur: d.cur, candidate: s, count: 1, limit: d.limit }));
        assert forall|k: nat| 1 <= k <= d.limit implies !deb_changed(
            #[trigger] deb_feed(d, s, (k - 1) as nat),
            s,
        ) by {
            if k == 1 {
                assert(deb_feed(d, s, 0) == d);
            } else {
                lemma_feed_shift(d, s, (k - 1) as nat);
                lemma_feed_agreeing(d1, s, (k - 2) as nat);
                assert(deb_feed(d, s, (k - 1) as nat).count == k - 1);
            }
        }
        lemma_feed_shift(d, s, d.limit as nat);
        lemma_feed_agreeing(d1, s, (d.limit - 1) as nat);
        let dl = deb_feed(d, s, d.limit as nat);
        assert(dl == (DebView { cur: d.cur, candidate: s, count: d.limit, limit: d.limit }));
        assert(deb_changed(dl, s));
        lemma_feed_shift(d, s, (d.limit + 1) as nat);
        lemma_feed_agreeing(d1, s, (d.limit - 1) as nat);
        assert(deb_feed(d, s, (d.limit + 1) as nat) == deb_step(dl, s));
    }
}

/// Re-feeding the stable snapshot reports "unchanged", re-emits nothing,
/// and only resets the agreement counter.
pub proof fn lemma_refeed_stable(d: DebView, s: Seq<bool>)
    requires
        d.cur == s,
    ensures
        !deb_changed(d, s),
        deb_step(d, s) == (DebView { count: 0, ..d }),
{
}

/// Number of occurrences of `e` in `s`.
pub open spec fn occurrences(s: Seq<IndexEvent>, e: IndexEvent) -> nat
    decreases s,
{
    if s.len() == 0 {
        0
    } else {
        occurrences(s.subrange(0, s.len() - 1), e) + (if s[s.len() - 1] == e {
            1nat
        } else {
            0nat
        })
    }
}

proof fn lemma_occurrences_concat(s: Seq<IndexEvent>, t: Seq<IndexEvent>, e: IndexEvent)
    ensures
        occurrences(s + t, e) == occurrences(s, e) + occurrences(t, e),
    decreases t.len(),
{
    if t.len() == 0 {
        assert(s + t =~= s);
    } else {
        let t0 = t.subrange(0, t.len() - 1);
        lemma_occurrences_concat(s, t0, e);
        assert((s + t).subrange(0, (s + t).len() - 1) =~= s + t0);
        assert((s + t)[(s + t).len() - 1] == t[t.len() - 1]);
    }
}

proof fn lemma_occ_single(e1: IndexEvent, e: IndexEvent)
    ensures
        occurrences(seq![e1], e) == (if e1 == e { 1nat } else { 0nat }),
{
    let s1 = seq![e1];
    assert(s1.len() == 1);
    assert(s1[0] == e1);
    assert(s1.subrange(0, 0) =~= Seq::<IndexEvent>::empty());
    assert(occurrences(s1.subrange(0, 0), e) == 0);
    assert(occurrences(s1, e) == occurrences(s1.subrange(0, 0), e) + (if s1[0] == e { 1nat } else { 0nat }));
}

proof fn lemma_diff_upto_occurrences(a: Seq<bool>, b: Seq<bool>, n: int)
    requires
        n <= a.len(),
        n <= b.len(),
        n <= usize::MAX,
    ensures
        forall|i: usize| #![all_triggers] occurrences(diff_events_upto(a, b, n), IndexEvent::PressedAt(i)) == (
            if i < n && !a[i as int] && b[i as int] { 1nat } else { 0nat }
        ),
        forall|i: usize| #![all_triggers] occurrences(diff_events_upto(a, b, n), IndexEvent::ReleasedAt(i)) == (
            if i < n && a[i as int] && !b[i as int] { 1nat } else { 0nat }
        ),
    decreases n,
{
    if n <= 0 {
        assert forall|i: usize| occurrences(diff_events_upto(a, b, n), IndexEvent::PressedAt(i)) == 0nat by {}
        assert forall|i: usize| occurrences(diff_events_upto(a, b, n), IndexEvent::ReleasedAt(i)) == 0nat by {}
    } else {
        lemma_diff_upto_occurrences(a, b, n - 1);
        let prefix = diff_events_upto(a, b, n - 1);
        let last = diff_event_at(a, b, n - 1);
        assert forall|i: usize| #[trigger] occurrences(diff_events_upto(a, b, n), IndexEvent::PressedAt(i)) == (
            if i < n && !a[i as int] && b[i as int] { 1nat } else { 0nat }
        ) by {
            lemma_occurrences_concat(prefix, last, IndexEvent::PressedAt(i));
            if !a[n - 1] && b[n - 1] {
                lemma_occ_single(IndexEvent::PressedAt((n - 1) as usize), IndexEvent::PressedAt(i));
            } else if a[n - 1] && !b[n - 1] {
                lemma_occ_single(IndexEvent::ReleasedAt((n - 1) as usize), IndexEvent::PressedAt(i));
            }
        }
        assert forall|i: usize| #[trigger] occurrences(diff_events_upto(a, b, n), IndexEvent::ReleasedAt(i)) == (
            if i < n && a[i as int] && !b[i as int] { 1nat } else { 0nat }
        ) by {
            lemma_occurrences_concat(prefix, last, IndexEvent::ReleasedAt(i));
            if !a[n - 1] && b[n - 1] {
                lemma_occ_single(IndexEvent::PressedAt((n - 1) as usize), IndexEvent::ReleasedAt(i));
            } else if a[n - 1] && !b[n - 1] {
                lemma_occ_single(IndexEvent::ReleasedAt((n - 1) as usize), IndexEvent::ReleasedAt(i));
            }
        }
    }
}

/// Between two stable snapshots the transition list holds exactly one event
/// per differing pin - a press where the bit rose, a release where it fell -
/// and none for unchanged pins; within the buffer capacity nothing is
/// dropped.
pub proof fn lemma_diff_events_exact(a: Seq<bool>, b: Seq<bool>)
    requires
        a.len() == b.len(),
        a.len() <= usize::MAX,
    ensures
        forall|i: usize| #![all_triggers] occurrences(diff_events(a, b), IndexEvent::PressedAt(i)) == (
            if i < a.len() && !a[i as int] && b[i as int] { 1nat } else { 0nat }
        ),
        forall|i: usize| #![all_triggers] occurrences(diff_events(a, b), IndexEvent::ReleasedAt(i)) == (
            if i < a.len() && a[i as int] && !b[i as int] { 1nat } else { 0nat }
        ),
        a.len() <= EVENT_CAP ==> truncated(diff_events(a, b)) == diff_events(a, b),
{
    lemma_diff_upto_occurrences(a, b, a.len() as int);
    lemma_diff_upto_len(a, b, a.len() as int);
}

} // verus!
