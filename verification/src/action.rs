//! The action vocabulary the evaluator interprets: key codes, layer
//! switches, and the two-way hold-tap binding.

use vstd::prelude::*;

verus! {

/// An action bound to a switch on some layer. `HoldTap` resolves to `hold`
/// when held past `timeout` ticks and to `tap` when released before that.
#[derive(Debug)]
pub enum Action {
    NoOp,
    Trans,
    KeyCode(u8),
    MultipleKeyCodes(Vec<u8>),
    MultipleActions(Vec<Action>),
    Layer(usize),
    DefaultLayer(usize),
    HoldTap { timeout: u16, hold: Box<Action>, tap: Box<Action> },
}

/// The mathematical shape of an `Action`, with sequences in place of vectors.
pub ghost enum ActionView {
    NoOp,
    Trans,
    KeyCode(u8),
    MultipleKeyCodes(Seq<u8>),
    MultipleActions(Seq<ActionView>),
    Layer(usize),
    DefaultLayer(usize),
    HoldTap { timeout: u16, hold: Box<ActionView>, tap: Box<ActionView> },
}

pub open spec fn act_view(a: Action) -> ActionView
    decreases a,
    via act_view_decreases
{
    match a {
        Action::NoOp => ActionView::NoOp,
        Action::Trans => ActionView::Trans,
        Action::KeyCode(k) => ActionView::KeyCode(k),
        Action::MultipleKeyCodes(v) => ActionView::MultipleKeyCodes(v@),
        Action::MultipleActions(v) => ActionView::MultipleActions(acts_view(v@)),
        Action::Layer(n) => ActionView::Layer(n),
        Action::DefaultLayer(n) => ActionView::DefaultLayer(n),
        Action::HoldTap { timeout, hold, tap } => ActionView::HoldTap {
            timeout,
            hold: Box::new(act_view(*hold)),
            tap: Box::new(act_view(*tap)),
        },
    }
}

/// Element-wise view of a sequence of actions.
pub open spec fn acts_view(s: Seq<Action>) -> Seq<ActionView>
    decreases s,
{
    if s.len() == 0 {
        Seq::empty()
    } else {
        acts_view(s.subrange(0, s.len() - 1)).push(act_view(s[s.len() - 1]))
    }
}

#[via_fn]
proof fn act_view_decreases(a: Action) {
    match a {
        Action::MultipleActions(v) => {
            assert(decreases_to!(a => a->MultipleActions_0));
            assert(decreases_to!(a->MultipleActions_0 => a->MultipleActions_0@));
        },
        _ => {},
    }
}

pub broadcast proof fn lemma_acts_view(s: Seq<Action>)
    ensures
        (#[trigger] acts_view(s)).len() == s.len(),
        forall|i: int| 0 <= i < s.len() ==> acts_view(s)[i] == act_view(s[i]),
    decreases s.len(),
{
    if s.len() > 0 {
        lemma_acts_view(s.subrange(0, s.len() - 1));
    }
}

impl View for Action {
    type V = ActionView;

    open spec fn view(&self) -> ActionView {
        act_view(*self)
    }
}

/// No `HoldTap` occurs anywhere inside `a`.
pub open spec fn ht_free(a: ActionView) -> bool
    decreases a,
{
    match a {
        ActionView::HoldTap { .. } => false,
        ActionView::MultipleActions(v) => hts_free(v),
        _ => true,
    }
}

/// Every member of `v` is free of hold-taps.
pub open spec fn hts_free(v: Seq<ActionView>) -> bool
    decreases v,
{
    v.len() == 0 || (ht_free(v[0]) && hts_free(v.subrange(1, v.len() as int)))
}

/// `hts_free` says exactly that each member is free of hold-taps.
pub proof fn lemma_hts_free_iff(v: Seq<ActionView>)
    ensures
        hts_free(v) == (forall|i: int| 0 <= i < v.len() ==> ht_free(#[trigger] v[i])),
    decreases v.len(),
{
    if v.len() > 0 {
        let tail = v.subrange(1, v.len() as int);
        lemma_hts_free_iff(tail);
        assert(forall|i: int| 0 <= i < tail.len() ==> tail[i] == v[i + 1]);
        if ht_free(v[0]) && (forall|i: int| 0 <= i < tail.len() ==> ht_free(#[trigger] tail[i])) {
            assert forall|i: int| 0 <= i < v.len() implies ht_free(#[trigger] v[i]) by {
                if i > 0 {
                    assert(ht_free(tail[i - 1]));
                }
            }
        }
        if forall|i: int| 0 <= i < v.len() ==> ht_free(#[trigger] v[i]) {
            assert forall|i: int| 0 <= i < tail.len() implies ht_free(#[trigger] tail[i]) by {
                assert(ht_free(v[i + 1]));
            }
        }
    }
}

/// A binding the evaluator can always dispatch without tripping the
/// single-waiting-state assertion: hold-tap branches are free of nested
/// hold-taps, and within an action group only the last member may leave a
/// hold-tap decision pending.
pub open spec fn action_ok(a: ActionView) -> bool
    decreases a,
{
    match a {
        ActionView::HoldTap { hold, tap, .. } => ht_free(*hold) && ht_free(*tap),
        ActionView::MultipleActions(v) => (forall|i: int|
            0 <= i < v.len() - 1 ==> ht_free(#[trigger] v[i])) && (v.len() == 0 || action_ok(
            v[v.len() - 1],
        )),
        _ => true,
    }
}

/// Every action free of hold-taps is dispatchable.
pub proof fn lemma_ht_free_action_ok(a: ActionView)
    requires
        ht_free(a),
    ensures
        action_ok(a),
    decreases a,
{
    match a {
        ActionView::MultipleActions(v) => {
            lemma_hts_free_iff(v);
            if v.len() > 0 {
                lemma_ht_free_action_ok(v[v.len() - 1]);
            }
        },
        _ => {},
    }
}

impl Action {
    /// A structurally equal deep copy.
    pub fn duplicate(&self) -> (r: Action)
        ensures
            r@ == self@,
        decreases *self,
    {
        match self {
            Action::NoOp => Action::NoOp,
            Action::Trans => Action::Trans,
            Action::KeyCode(k) => Action::KeyCode(*k),
            Action::MultipleKeyCodes(v) => {
                let mut out: Vec<u8> = Vec::new();
                let mut i: usize = 0;
                while i < v.len()
                    invariant
                        i <= v.len(),
                        out@ == v@.take(i as int),
                    decreases v.len() - i,
                {
                    out.push(v[i]);
                    proof {
                        assert(out@ =~= v@.take(i + 1));
                    }
                    i = i + 1;
                }
                proof {
                    assert(out@ =~= v@);
                }
                Action::MultipleKeyCodes(out)
            },
            Action::MultipleActions(v) => {
                let mut out: Vec<Action> = Vec::new();
                let mut i: usize = 0;
                while i < v.len()
                    invariant
                        i <= v.len(),
                        out@.len() == i,
                        *self == Action::MultipleActions(*v),
                        forall|j: int| 0 <= j < i ==> act_view(#[trigger] out@[j]) == act_view(v@[j]),
                    decreases v.len() - i,
                {
                    proof {
                        assert(decreases_to!(*self => (*self)->MultipleActions_0));
                        assert(decreases_to!((*self)->MultipleActions_0 => (*self)->MultipleActions_0@));
                        assert(decreases_to!((*self)->MultipleActions_0@ => (*self)->MultipleActions_0@[i as int]));
                    }
                    let copied = v[i].duplicate();
                    out.push(copied);
                    i = i + 1;
                }
                proof {
                    lemma_acts_view(out@);
                    lemma_acts_view(v@);
                    assert(acts_view(out@) =~= acts_view(v@));
                }
                Action::MultipleActions(out)
            },
            Action::Layer(n) => Action::Layer(*n),
            Action::DefaultLayer(n) => Action::DefaultLayer(*n),
            Action::HoldTap { timeout, hold, tap } => Action::HoldTap {
                timeout: *timeout,
                hold: Box::new(hold.duplicate()),
                tap: Box::new(tap.duplicate()),
            },
        }
    }

    /// Whether no `HoldTap` occurs anywhere inside; the runtime counterpart of
    /// `ht_free`.
    pub fn check_ht_free(&self) -> (r: bool)
        ensures
            r == ht_free(self@),
        decreases *self,
    {
        match self {
            Action::HoldTap { .. } => {
                proof {
                    assert(*self matches Action::HoldTap { .. });
                    assert(self@ is HoldTap);
                }
                false
            },
            Action::MultipleActions(v) => {
                let mut i: usize = 0;
                let mut all: bool = true;
                while i < v.len()
                    invariant
                        i <= v.len(),
                        *self == Action::MultipleActions(*v),
                        all == forall|j: int| 0 <= j < i ==> ht_free(act_view(#[trigger] v@[j])),
                    decreases v.len() - i,
                {
                    proof {
                        assert(decreases_to!(*self => (*self)->MultipleActions_0));
                        assert(decreases_to!((*self)->MultipleActions_0 => (*self)->MultipleActions_0@));
                        assert(decreases_to!((*self)->MultipleActions_0@ => (*self)->MultipleActions_0@[i as int]));
                    }
                    if !v[i].check_ht_free() {
                        all = false;
                    }
                    i = i + 1;
                }
                proof {
                    lemma_acts_view(v@);
                    let vv = acts_view(v@);
                    assert(self@ == ActionView::MultipleActions(vv));
                    lemma_hts_free_iff(vv);
                    if all {
                        assert forall|j: int| 0 <= j < vv.len() implies ht_free(#[trigger] vv[j]) by {
                            assert(ht_free(act_view(v@[j])));
                        }
                    } else {
                        let j = choose|j: int| 0 <= j < v@.len() && !ht_free(act_view(#[trigger] v@[j]));
                        assert(!ht_free(vv[j]));
                    }
                    assert(all == hts_free(vv));
                }
                all
            },
            Action::NoOp => {
                proof { assert(ht_free(self@)); }
                true
            },
            Action::Trans => {
                proof { assert(ht_free(self@)); }
                true
            },
            Action::KeyCode(_) => {
                proof { assert(ht_free(self@)); }
                true
            },
            Action::MultipleKeyCodes(_) => {
                proof { assert(ht_free(self@)); }
                true
            },
            Action::Layer(_) => {
                proof { assert(ht_free(self@)); }
                true
            },
            Action::DefaultLayer(_) => {
                proof { assert(ht_free(self@)); }
                true
            },
        }
    }

    /// Whether the evaluator can always dispatch this action; the runtime
    /// counterpart of `action_ok`.
    pub fn check_ok(&self) -> (r: bool)
        ensures
            r == action_ok(self@),
        decreases *self,
    {
        match self {
            Action::HoldTap { hold, tap, .. } => {
                let r = hold.check_ht_free() && tap.check_ht_free();
                proof {
                    assert(self@ matches ActionView::HoldTap { hold: h, tap: t, .. }
                        && *h == act_view(**hold) && *t == act_view(**tap));
                }
                r
            },
            Action::MultipleActions(v) => {
                if v.len() == 0 {
                    proof {
                        lemma_acts_view(v@);
                    }
                    return true;
                }
                let mut i: usize = 0;
                let mut all: bool = true;
                let last = v.len() - 1;
                while i < last
                    invariant
                        i <= last,
                        last == v.len() - 1,
                        *self == Action::MultipleActions(*v),
                        all == forall|j: int| 0 <= j < i ==> ht_free(act_view(#[trigger] v@[j])),
                    decreases last - i,
                {
                    if !v[i].check_ht_free() {
                        all = false;
                    }
                    i = i + 1;
                }
                proof {
                    assert(decreases_to!(*self => (*self)->MultipleActions_0));
                    assert(decreases_to!((*self)->MultipleActions_0 => (*self)->MultipleActions_0@));
                    assert(decreases_to!((*self)->MultipleActions_0@ => (*self)->MultipleActions_0@[
                        last as int
                    ]));
                }
                let last_ok = v[last].check_ok();
                proof {
                    lemma_acts_view(v@);
                    let vv = acts_view(v@);
                    assert(self@ == ActionView::MultipleActions(vv));
                    assert(vv[vv.len() - 1] == act_view(v@[last as int]));
                    if all {
                        assert forall|j: int| 0 <= j < vv.len() - 1 implies ht_free(
                            #[trigger] vv[j],
                        ) by {
                            assert(ht_free(act_view(v@[j])));
                        }
                    } else {
                        let j = choose|j: int| 0 <= j < last && !ht_free(act_view(#[trigger] v@[j]));
                        assert(!ht_free(vv[j]));
                    }
                }
                all && last_ok
            },
            Action::NoOp => true,
            Action::Trans => true,
            Action::KeyCode(_) => true,
            Action::MultipleKeyCodes(_) => true,
            Action::Layer(_) => true,
            Action::DefaultLayer(_) => true,
        }
    }
}

} // verus!
