//! How a transaction of ref updates comes out, given the current values of
//! the refs it touches: updates carried out, updates rejected, or the whole
//! transaction aborted.
use vstd::prelude::*;

use crate::bytes::{SEP, extend, to_vec};
use crate::internal::{c_namespaces, namespaces_lit};
use crate::refs::{Oid, c_refs, refs_lit};
use crate::transmit::{Namespaced, Policy, SymrefTarget, Update, UpdateView, Updated, update_name, uviews};

verus! {

pub open spec fn opt_view(o: Option<Oid>) -> Option<Seq<u8>> {
    match o {
        Some(x) => Some(x@),
        None => None,
    }
}

/// The full name of a namespaced ref: `refs/namespaces/<ns>/<refname>`, or
/// the ref name itself outside of any namespace.
pub open spec fn namespaced_name(namespace: Option<Seq<u8>>, refname: Seq<u8>) -> Seq<u8> {
    match namespace {
        Some(ns) => c_refs() + seq![SEP] + c_namespaces() + seq![SEP] + ns + seq![SEP] + refname,
        None => refname,
    }
}

impl Namespaced {
    pub fn to_refname(&self) -> (r: Vec<u8>)
        ensures
            r@ == namespaced_name(
                match self.namespace {
                    Some(n) => Some(n@),
                    None => None,
                },
                self.refname@,
            ),
    {
        match &self.namespace {
            Some(ns) => {
                let mut r = refs_lit();
                r.push(SEP);
                extend(&mut r, namespaces_lit().as_slice());
                r.push(SEP);
                extend(&mut r, ns.as_slice());
                r.push(SEP);
                extend(&mut r, self.refname.as_slice());
                r
            },
            None => to_vec(self.refname.as_slice()),
        }
    }
}

impl Update {
    pub fn copied(&self) -> (r: Update)
        ensures
            r@ == self@,
    {
        match self {
            Update::Direct { name, target, no_ff } => Update::Direct {
                name: to_vec(name.as_slice()),
                target: target.copied(),
                no_ff: *no_ff,
            },
            Update::Symbolic { name, target, type_change } => Update::Symbolic {
                name: to_vec(name.as_slice()),
                target: SymrefTarget {
                    name: Namespaced {
                        namespace: match &target.name.namespace {
                            Some(n) => Some(to_vec(n.as_slice())),
                            None => None,
                        },
                        refname: to_vec(target.name.refname.as_slice()),
                    },
                    target: target.target.copied(),
                },
                type_change: *type_change,
            },
            Update::Noop { name, expect } => Update::Noop {
                name: to_vec(name.as_slice()),
                expect: expect.copied(),
            },
        }
    }
}

pub enum UpdatedView {
    Direct(Seq<u8>, Seq<u8>),
    Symbolic(Seq<u8>, Seq<u8>),
}

impl View for Updated {
    type V = UpdatedView;

    open spec fn view(&self) -> UpdatedView {
        match self {
            Updated::Direct { name, target } => UpdatedView::Direct(name@, target@),
            Updated::Symbolic { name, target } => UpdatedView::Symbolic(name@, target@),
        }
    }
}

pub open spec fn dviews(v: Seq<Updated>) -> Seq<UpdatedView> {
    v.map_values(|u: Updated| u@)
}

/// What one update comes to.
pub enum Step {
    Apply(UpdatedView),
    Reject,
    Skip,
    Abort,
}

/// What a policy makes of a mismatch.
pub open spec fn on_mismatch(p: Policy, done: UpdatedView) -> Step {
    match p {
        Policy::Allow => Step::Apply(done),
        Policy::Reject => Step::Reject,
        Policy::Abort => Step::Abort,
    }
}

/// One update, given the current value of the ref it checks (for a symbolic
/// ref, of its target) and, for a direct update, whether the new target
/// descends from the current one. A ref already at its target is left as it
/// is. Otherwise a direct update matches if the ref is absent or
/// fast-forwarded; a symbolic one if its target is absent. A `Noop` writes
/// nothing.
pub open spec fn step_spec(u: UpdateView, current: Option<Seq<u8>>, fast_forward: bool) -> Step {
    match u {
        UpdateView::Direct { name, target, no_ff } => {
            let done = UpdatedView::Direct(name, target);
            if current == Some(target) {
                Step::Skip
            } else if current is None || fast_forward {
                Step::Apply(done)
            } else {
                on_mismatch(no_ff, done)
            }
        },
        UpdateView::Symbolic { name, namespace, refname, target, type_change } => {
            let done = UpdatedView::Symbolic(name, namespaced_name(namespace, refname));
            if current == Some(target) {
                Step::Skip
            } else if current is None {
                Step::Apply(done)
            } else {
                on_mismatch(type_change, done)
            }
        },
        UpdateView::Noop { .. } => Step::Skip,
    }
}

/// The updates carried out and rejected, or the name of the first update
/// whose mismatch aborts.
pub open spec fn outcome(us: Seq<UpdateView>, cur: Seq<Option<Seq<u8>>>, ff: Seq<bool>) -> Result<
    (Seq<UpdatedView>, Seq<UpdateView>),
    Seq<u8>,
>
    decreases us.len(),
{
    if us.len() == 0 {
        Ok((Seq::empty(), Seq::empty()))
    } else {
        let i = us.len() - 1;
        match outcome(us.drop_last(), cur, ff) {
            Err(n) => Err(n),
            Ok((a, r)) => match step_spec(us[i], cur[i], ff[i]) {
                Step::Apply(x) => Ok((a.push(x), r)),
                Step::Reject => Ok((a, r.push(us[i]))),
                Step::Skip => Ok((a, r)),
                Step::Abort => Err(update_name(us[i])),
            },
        }
    }
}

proof fn lemma_abort_sticks(us: Seq<UpdateView>, cur: Seq<Option<Seq<u8>>>, ff: Seq<bool>, i: int)
    requires
        0 <= i <= us.len(),
        outcome(us.subrange(0, i), cur, ff) is Err,
    ensures
        outcome(us, cur, ff) == outcome(us.subrange(0, i), cur, ff),
    decreases us.len(),
{
    if i == us.len() {
        assert(us.subrange(0, i) =~= us);
    } else {
        assert(us.drop_last().subrange(0, i) =~= us.subrange(0, i));
        lemma_abort_sticks(us.drop_last(), cur, ff, i);
    }
}

/// Every `Noop` finds its ref at the expected object.
pub open spec fn pins_hold(us: Seq<UpdateView>, cur: Seq<Option<Seq<u8>>>) -> bool {
    forall|k: int|
        0 <= k < us.len() ==> ((#[trigger] us[k]) matches UpdateView::Noop { expect, .. } ==> cur[k]
            == Some(expect))
}

/// A transaction: aborted by the first update whose mismatch aborts; else,
/// if a `Noop` finds its ref moved, nothing is written and every update is
/// rejected; else the outcome update by update.
pub open spec fn transaction(us: Seq<UpdateView>, cur: Seq<Option<Seq<u8>>>, ff: Seq<bool>) -> Result<
    (Seq<UpdatedView>, Seq<UpdateView>),
    Seq<u8>,
> {
    match outcome(us, cur, ff) {
        Err(n) => Err(n),
        Ok(x) => if pins_hold(us, cur) {
            Ok(x)
        } else {
            Ok((Seq::empty(), us))
        },
    }
}

/// Every update finds its ref where it would put it.
pub open spec fn all_in_place(us: Seq<UpdateView>, cur: Seq<Option<Seq<u8>>>) -> bool {
    forall|k: int|
        0 <= k < us.len() ==> match #[trigger] us[k] {
            UpdateView::Direct { target, .. } => cur[k] == Some(target),
            UpdateView::Symbolic { target, .. } => cur[k] == Some(target),
            UpdateView::Noop { expect, .. } => cur[k] == Some(expect),
        }
}

/// A transaction whose refs are all where it would put them updates and
/// rejects nothing: running the same updates again changes nothing.
pub proof fn lemma_transaction_in_place(us: Seq<UpdateView>, cur: Seq<Option<Seq<u8>>>, ff: Seq<bool>)
    requires
        all_in_place(us, cur),
    ensures
        transaction(us, cur, ff) == Ok::<(Seq<UpdatedView>, Seq<UpdateView>), Seq<u8>>(
            (Seq::empty(), Seq::empty()),
        ),
    decreases us.len(),
{
    if us.len() > 0 {
        let init = us.drop_last();
        assert forall|k: int| 0 <= k < init.len() implies match #[trigger] init[k] {
            UpdateView::Direct { target, .. } => cur[k] == Some(target),
            UpdateView::Symbolic { target, .. } => cur[k] == Some(target),
            UpdateView::Noop { expect, .. } => cur[k] == Some(expect),
        } by {
            assert(init[k] == us[k]);
        }
        lemma_transaction_in_place(init, cur, ff);
        let i = us.len() - 1;
        assert(match us[i] {
            UpdateView::Direct { target, .. } => cur[i] == Some(target),
            UpdateView::Symbolic { target, .. } => cur[i] == Some(target),
            UpdateView::Noop { expect, .. } => cur[i] == Some(expect),
        });
    }
    assert(pins_hold(us, cur)) by {
        assert forall|k: int| 0 <= k < us.len() implies ((#[trigger] us[k]) matches UpdateView::Noop {
            expect,
            ..
        } ==> cur[k] == Some(expect)) by {
            assert(match us[k] {
                UpdateView::Direct { target, .. } => cur[k] == Some(target),
                UpdateView::Symbolic { target, .. } => cur[k] == Some(target),
                UpdateView::Noop { expect, .. } => cur[k] == Some(expect),
            });
        }
    }
}

/// A transaction aborted on the mismatch of the named ref.
#[derive(Clone, Debug, PartialEq, Eq)]
pub struct Aborted {
    pub name: Vec<u8>,
}

/// Decides one transaction. `current[k]` is the value of the ref that
/// `updates[k]` checks, read under the transaction's locks;
/// `fast_forward[k]` whether a direct update's target descends from it.
pub fn transact(updates: &Vec<Update>, current: &Vec<Option<Oid>>, fast_forward: &Vec<bool>) -> (r:
    Result<crate::transmit::Applied, Aborted>)
    requires
        current@.len() == updates@.len(),
        fast_forward@.len() == updates@.len(),
    ensures
        match transaction(
            uviews(updates@),
            current@.map_values(|o: Option<Oid>| opt_view(o)),
            fast_forward@,
        ) {
            Err(n) => r matches Err(a) && a.name@ == n,
            Ok((done, rejected)) => r matches Ok(ap) && dviews(ap.updated@) == done && uviews(
                ap.rejected@,
            ) == rejected,
        },
{
    let ghost us = uviews(updates@);
    let ghost cur = current@.map_values(|o: Option<Oid>| opt_view(o));
    let mut updated: Vec<Updated> = Vec::new();
    let mut rejected: Vec<Update> = Vec::new();
    let mut pins = true;
    let mut i: usize = 0;
    assert(dviews(updated@) =~= Seq::<UpdatedView>::empty());
    assert(uviews(rejected@) =~= Seq::<UpdateView>::empty());
    assert(us.subrange(0, 0) =~= Seq::<UpdateView>::empty());
    while i < updates.len()
        invariant
            i <= updates@.len(),
            current@.len() == updates@.len(),
            fast_forward@.len() == updates@.len(),
            us == uviews(updates@),
            cur == current@.map_values(|o: Option<Oid>| opt_view(o)),
            outcome(us.subrange(0, i as int), cur, fast_forward@) == Ok::<
                (Seq<UpdatedView>, Seq<UpdateView>),
                Seq<u8>,
            >((dviews(updated@), uviews(rejected@))),
            pins == pins_hold(us.subrange(0, i as int), cur),
        decreases updates.len() - i,
    {
        let ghost sub = us.subrange(0, i + 1);
        assert(sub.drop_last() =~= us.subrange(0, i as int));
        assert(sub[i as int] == updates@[i as int]@);
        assert(cur[i as int] == opt_view(current@[i as int]));
        let ghost a0 = updated@;
        let ghost r0 = rejected@;
        let cur_i = &current[i];
        let u = &updates[i];
        let step: u8 = match u {
            Update::Direct { name, target, no_ff } => {
                let unchanged = match cur_i {
                    None => false,
                    Some(c) => c.same(target),
                };
                let matches = match cur_i {
                    None => true,
                    Some(_) => fast_forward[i],
                };
                if unchanged {
                    2
                } else if matches {
                    updated.push(Updated::Direct { name: to_vec(name.as_slice()), target: target.copied() });
                    0
                } else {
                    match no_ff {
                        Policy::Allow => {
                            updated.push(Updated::Direct { name: to_vec(name.as_slice()), target: target.copied() });
                            0
                        },
                        Policy::Reject => {
                            rejected.push(u.copied());
                            1
                        },
                        Policy::Abort => {
                            proof {
                                assert(sub =~= us.subrange(0, i as int).push(sub[i as int]));
                                lemma_abort_sticks(us, cur, fast_forward@, i + 1);
                            }
                            return Err(Aborted { name: to_vec(name.as_slice()) });
                        },
                    }
                }
            },
            Update::Symbolic { name, target, type_change } => {
                let unchanged = match cur_i {
                    None => false,
                    Some(c) => c.same(&target.target),
                };
                if unchanged {
                    2
                } else if cur_i.is_none() || *type_change == Policy::Allow {
                    updated.push(Updated::Symbolic { name: to_vec(name.as_slice()), target: target.name.to_refname() });
                    0
                } else if *type_change == Policy::Reject {
                    rejected.push(u.copied());
                    1
                } else {
                    proof {
                        assert(sub =~= us.subrange(0, i as int).push(sub[i as int]));
                        lemma_abort_sticks(us, cur, fast_forward@, i + 1);
                    }
                    return Err(Aborted { name: to_vec(name.as_slice()) });
                }
            },
            Update::Noop { expect, .. } => {
                let held = match cur_i {
                    Some(c) => c.same(expect),
                    None => false,
                };
                pins = pins && held;
                2
            },
        };
        proof {
            if step == 0 {
                assert(dviews(updated@) =~= dviews(a0).push(updated@.last()@));
                assert(rejected@ == r0);
            } else if step == 1 {
                assert(uviews(rejected@) =~= uviews(r0).push(rejected@.last()@));
                assert(updated@ == a0);
            }
            assert forall|k: int| 0 <= k < i + 1 implies sub[k] == us.subrange(0, i as int).push(
                sub[i as int],
            )[k] by {}
            assert(sub =~= us.subrange(0, i as int).push(sub[i as int]));
        }
        i = i + 1;
    }
    assert(us.subrange(0, us.len() as int) =~= us);
    if !pins {
        let mut all: Vec<Update> = Vec::new();
        let mut j: usize = 0;
        while j < updates.len()
            invariant
                j <= updates@.len(),
                uviews(all@) == uviews(updates@).subrange(0, j as int),
            decreases updates.len() - j,
        {
            let ghost before = all@;
            all.push(updates[j].copied());
            assert(uviews(all@) =~= uviews(before).push(updates@[j as int]@));
            j = j + 1;
            assert(uviews(all@) =~= uviews(updates@).subrange(0, j as int));
        }
        assert(uviews(updates@).subrange(0, updates@.len() as int) =~= uviews(updates@));
        return Ok(crate::transmit::Applied { updated: Vec::new(), rejected: all });
    }
    Ok(crate::transmit::Applied { updated, rejected })
}

} // verus!
