//! What travels between the phases and the network: advertised refs, the
//! refs a phase keeps, the wants and haves of a fetch, and ref updates.
use vstd::prelude::*;

use crate::bytes::{bytes_eq, to_vec};
use crate::refs::{Oid, PeerId};

verus! {

/// A ref as a remote advertises it: a name and the object it points to.
#[derive(Clone, Debug, PartialEq, Eq, PartialOrd, Ord, Hash)]
pub struct AdvertisedRef {
    pub name: Vec<u8>,
    pub tip: Oid,
}

/// An advertised ref that a phase keeps, with the peer whose ref it is.
#[derive(Clone, Debug, PartialEq, Eq, PartialOrd, Ord, Hash)]
pub struct FilteredRef {
    pub remote_id: PeerId,
    pub inner: AdvertisedRef,
}

pub struct FilteredRefView {
    pub remote: Seq<u8>,
    pub name: Seq<u8>,
    pub tip: Seq<u8>,
}

impl View for FilteredRef {
    type V = FilteredRefView;

    open spec fn view(&self) -> FilteredRefView {
        FilteredRefView { remote: self.remote_id@, name: self.inner.name@, tip: self.inner.tip@ }
    }
}

pub open spec fn fviews(v: Seq<FilteredRef>) -> Seq<FilteredRefView> {
    v.map_values(|r: FilteredRef| r@)
}

impl AdvertisedRef {
    pub fn copied(&self) -> (r: AdvertisedRef)
        ensures
            r.name@ == self.name@,
            r.tip@ == self.tip@,
    {
        AdvertisedRef { name: to_vec(self.name.as_slice()), tip: self.tip.copied() }
    }
}

impl FilteredRef {
    pub fn new(remote_id: PeerId, inner: &AdvertisedRef) -> (r: FilteredRef)
        ensures
            r@ == (FilteredRefView { remote: remote_id@, name: inner.name@, tip: inner.tip@ }),
    {
        FilteredRef { remote_id, inner: inner.copied() }
    }

    pub fn copied(&self) -> (r: FilteredRef)
        ensures
            r@ == self@,
    {
        FilteredRef { remote_id: self.remote_id.copied(), inner: self.inner.copied() }
    }
}

/// The objects in `v`, as a set.
pub open spec fn oid_set(v: Seq<Oid>) -> Set<Seq<u8>> {
    Set::new(|o: Seq<u8>| exists|k: int| 0 <= k < v.len() && v[k]@ == o)
}

/// No object occurs twice in `v`.
pub open spec fn oids_distinct(v: Seq<Oid>) -> bool {
    forall|a: int, b: int| 0 <= a < b < v.len() ==> v[a]@ != v[b]@
}

/// Adds `o` to the set held in `v`.
pub fn insert_oid(v: &mut Vec<Oid>, o: &Oid)
    requires
        oids_distinct(old(v)@),
    ensures
        oids_distinct(final(v)@),
        oid_set(final(v)@) == oid_set(old(v)@).insert(o@),
{
    let mut i: usize = 0;
    while i < v.len()
        invariant
            i <= v@.len(),
            v@ == old(v)@,
            oids_distinct(v@),
            forall|k: int| 0 <= k < i ==> v@[k]@ != o@,
        decreases v.len() - i,
    {
        if v[i].same(o) {
            assert(oid_set(v@) =~= oid_set(v@).insert(o@)) by {
                assert(oid_set(v@).contains(o@));
            }
            return;
        }
        i = i + 1;
    }
    let ghost before = v@;
    v.push(o.copied());
    assert(oid_set(v@) =~= oid_set(before).insert(o@)) by {
        assert forall|x: Seq<u8>| oid_set(v@).contains(x) implies oid_set(before).insert(o@).contains(
            x,
        ) by {
            let k = choose|k: int| 0 <= k < v@.len() && v@[k]@ == x;
            if k < before.len() {
                assert(before[k]@ == x);
            }
        }
        assert forall|x: Seq<u8>| oid_set(before).insert(o@).contains(x) implies oid_set(
            v@,
        ).contains(x) by {
            if x == o@ {
                assert(v@[before.len() as int]@ == x);
            } else {
                let k = choose|k: int| 0 <= k < before.len() && before[k]@ == x;
                assert(v@[k]@ == x);
            }
        }
    }
}

/// Whether `peers` holds `p`.
pub open spec fn has_peer(peers: Seq<PeerId>, p: Seq<u8>) -> bool {
    exists|k: int| 0 <= k < peers.len() && peers[k]@ == p
}

pub fn contains_peer(peers: &Vec<PeerId>, p: &PeerId) -> (r: bool)
    ensures
        r == has_peer(peers@, p@),
{
    let mut i: usize = 0;
    while i < peers.len()
        invariant
            i <= peers@.len(),
            forall|k: int| 0 <= k < i ==> peers@[k]@ != p@,
        decreases peers.len() - i,
    {
        if peers[i].same(p) {
            return true;
        }
        i = i + 1;
    }
    false
}

/// The value of the first entry named `name`.
pub open spec fn lookup(entries: Seq<(Vec<u8>, Oid)>, name: Seq<u8>) -> Option<Seq<u8>>
    decreases entries.len(),
{
    if entries.len() == 0 {
        None
    } else if entries[0].0@ == name {
        Some(entries[0].1@)
    } else {
        lookup(entries.drop_first(), name)
    }
}

pub fn find_entry(entries: &Vec<(Vec<u8>, Oid)>, name: &[u8]) -> (r: Option<Oid>)
    ensures
        r is Some == lookup(entries@, name@) is Some,
        r is Some ==> lookup(entries@, name@) == Some(r->0@),
{
    let mut i: usize = 0;
    assert(entries@.subrange(0, entries@.len() as int) =~= entries@);
    while i < entries.len()
        invariant
            i <= entries@.len(),
            lookup(entries@, name@) == lookup(entries@.subrange(i as int, entries@.len() as int), name@),
        decreases entries.len() - i,
    {
        let ghost rest = entries@.subrange(i as int, entries@.len() as int);
        assert(rest[0] == entries@[i as int]);
        if bytes_eq(entries[i].0.as_slice(), name) {
            return Some(entries[i].1.copied());
        }
        assert(rest.drop_first() =~= entries@.subrange(i + 1, entries@.len() as int));
        i = i + 1;
    }
    None
}

/// The refs of our own refdb, read at the start of a phase: ref names and
/// the objects they point to directly.
#[derive(Clone, Debug, PartialEq, Eq)]
pub struct Snapshot {
    pub refs: Vec<(Vec<u8>, Oid)>,
}

impl Snapshot {
    /// What `name` points to, if it exists.
    pub fn refname_to_id(&self, name: &[u8]) -> (r: Option<Oid>)
        ensures
            r is Some == lookup(self.refs@, name@) is Some,
            r is Some ==> lookup(self.refs@, name@) == Some(r->0@),
    {
        find_entry(&self.refs, name)
    }
}

/// What a phase asks a fetch for: the refs it keeps for updating, the
/// objects it wants, and the objects it already has.
pub struct WantsHaves {
    pub wanted: Vec<FilteredRef>,
    pub wants: Vec<Oid>,
    pub haves: Vec<Oid>,
}

/// What to do when a ref's current value does not match what an update
/// expects: write anyway, reject the one update, or abort the transaction.
#[derive(Clone, Copy, Debug, PartialEq, Eq, Structural)]
pub enum Policy {
    Allow,
    Reject,
    Abort,
}

/// A ref name under a namespace, or outside of any.
#[derive(Clone, Debug, PartialEq, Eq)]
pub struct Namespaced {
    pub namespace: Option<Vec<u8>>,
    pub refname: Vec<u8>,
}

/// The target of a symbolic ref, created at `target` if it does not exist.
#[derive(Clone, Debug, PartialEq, Eq)]
pub struct SymrefTarget {
    pub name: Namespaced,
    pub target: Oid,
}

/// One ref update of a transaction.
#[derive(Clone, Debug, PartialEq, Eq)]
pub enum Update {
    Direct { name: Vec<u8>, target: Oid, no_ff: Policy },
    Symbolic { name: Vec<u8>, target: SymrefTarget, type_change: Policy },
    /// Asserts the current value, so that the transaction fails if it moved.
    Noop { name: Vec<u8>, expect: Oid },
}

pub enum UpdateView {
    Direct { name: Seq<u8>, target: Seq<u8>, no_ff: Policy },
    Symbolic {
        name: Seq<u8>,
        namespace: Option<Seq<u8>>,
        refname: Seq<u8>,
        target: Seq<u8>,
        type_change: Policy,
    },
    Noop { name: Seq<u8>, expect: Seq<u8> },
}

impl View for Update {
    type V = UpdateView;

    open spec fn view(&self) -> UpdateView {
        match self {
            Update::Direct { name, target, no_ff } => UpdateView::Direct {
                name: name@,
                target: target@,
                no_ff: *no_ff,
            },
            Update::Symbolic { name, target, type_change } => UpdateView::Symbolic {
                name: name@,
                namespace: match target.name.namespace {
                    Some(n) => Some(n@),
                    None => None,
                },
                refname: target.name.refname@,
                target: target.target@,
                type_change: *type_change,
            },
            Update::Noop { name, expect } => UpdateView::Noop { name: name@, expect: expect@ },
        }
    }
}

pub open spec fn update_name(u: UpdateView) -> Seq<u8> {
    match u {
        UpdateView::Direct { name, .. } => name,
        UpdateView::Symbolic { name, .. } => name,
        UpdateView::Noop { name, .. } => name,
    }
}

pub open spec fn uviews(v: Seq<Update>) -> Seq<UpdateView> {
    v.map_values(|u: Update| u@)
}

/// An update that was carried out.
#[derive(Clone, Debug, PartialEq, Eq)]
pub enum Updated {
    Direct { name: Vec<u8>, target: Oid },
    Symbolic { name: Vec<u8>, target: Vec<u8> },
}

/// The outcome of applying transactions: what was updated and which
/// updates were rejected.
#[derive(Clone, Debug, PartialEq, Eq)]
pub struct Applied {
    pub updated: Vec<Updated>,
    pub rejected: Vec<Update>,
}

impl Applied {
    pub fn new() -> (r: Applied)
        ensures
            r.updated@.len() == 0,
            r.rejected@.len() == 0,
    {
        Applied { updated: Vec::new(), rejected: Vec::new() }
    }

    /// Moves all of `other` to the end of `self`.
    pub fn append(&mut self, other: &mut Applied)
        ensures
            final(self).updated@ == old(self).updated@ + old(other).updated@,
            final(self).rejected@ == old(self).rejected@ + old(other).rejected@,
            final(other).updated@.len() == 0,
            final(other).rejected@.len() == 0,
    {
        self.updated.append(&mut other.updated);
        self.rejected.append(&mut other.rejected);
    }
}

} // verus!
