//! The peek phase: fetching the refs that establish trust (`rad/id`,
//! `rad/self`, `rad/ids/*`, `rad/signed_refs`), for a clone and for a pull.
use vstd::prelude::*;

use crate::bytes::{ends_with, SEP};
use crate::refs::{
    Identity,
    Inner,
    InnerView,
    Oid,
    Parsed,
    PeerId,
    Rad,
    RadView,
    Scoped,
    c_id,
    c_rad,
    id_lit,
    parse,
    parse_spec,
    rad_id_name,
    rad_id_ref,
    rad_ids_prefix,
    rad_ids_ref_prefix,
    rad_lit,
    rad_self_name,
    rad_self_ref,
    remote_tracking,
    remote_tracking_spec,
    scoped,
    signed_refs_name,
    signed_refs_ref,
};
use crate::transmit::{
    FilteredRef,
    FilteredRefView,
    Namespaced,
    Policy,
    Snapshot,
    SymrefTarget,
    Update,
    UpdateView,
    fviews,
    insert_oid,
    lookup,
    oid_set,
    oids_distinct,
    };

verus! {

/// A scoped name as its scope and name.
pub open spec fn sview(s: Scoped) -> (Option<Seq<u8>>, Seq<u8>) {
    (s.scope_view(), s.name@)
}

pub open spec fn sviews(v: Seq<Scoped>) -> Seq<(Option<Seq<u8>>, Seq<u8>)> {
    v.map_values(|s: Scoped| sview(s))
}

pub open spec fn pviews(v: Seq<PeerId>) -> Seq<Seq<u8>> {
    v.map_values(|p: PeerId| p@)
}

/// The scope under which `owner`'s refs are asked of `remote`.
pub open spec fn scope_of(owner: Seq<u8>, remote: Seq<u8>) -> Option<Seq<u8>> {
    if owner == remote {
        None
    } else {
        Some(owner)
    }
}

/// The `ref-prefix`es of a peek for `owner`'s refs.
pub open spec fn peek_prefixes(owner: Seq<u8>, remote: Seq<u8>) -> Seq<(Option<Seq<u8>>, Seq<u8>)> {
    let s = scope_of(owner, remote);
    seq![(s, rad_id_name()), (s, rad_self_name()), (s, rad_ids_prefix()), (s, signed_refs_name())]
}

/// The refs a peek must see of `owner`.
pub open spec fn required_of(owner: Seq<u8>, remote: Seq<u8>) -> Seq<(Option<Seq<u8>>, Seq<u8>)> {
    let s = scope_of(owner, remote);
    seq![(s, rad_id_name()), (s, signed_refs_name())]
}

pub(crate) fn push_scoped(v: &mut Vec<Scoped>, s: Scoped)
    ensures
        sviews(final(v)@) == sviews(old(v)@).push(sview(s)),
{
    let ghost before = v@;
    v.push(s);
    assert(sviews(v@) =~= sviews(before).push(sview(s)));
}

/// Appends the peek `ref-prefix`es for `id`, asked of `remote_id`.
pub(crate) fn push_ref_prefixes(v: &mut Vec<Scoped>, id: &PeerId, remote_id: &PeerId)
    ensures
        sviews(final(v)@) == sviews(old(v)@) + peek_prefixes(id@, remote_id@),
{
    proof {
        crate::refs::lemma_owned_names();
    }
    push_scoped(v, scoped(id, remote_id, rad_id_ref().as_slice()));
    push_scoped(v, scoped(id, remote_id, rad_self_ref().as_slice()));
    push_scoped(v, scoped(id, remote_id, rad_ids_ref_prefix().as_slice()));
    push_scoped(v, scoped(id, remote_id, signed_refs_ref().as_slice()));
    assert(sviews(v@) =~= sviews(old(v)@) + peek_prefixes(id@, remote_id@));
}

/// Appends the refs that a peek must see of `id`.
pub(crate) fn push_required_refs(v: &mut Vec<Scoped>, id: &PeerId, remote_id: &PeerId)
    ensures
        sviews(final(v)@) == sviews(old(v)@) + required_of(id@, remote_id@),
{
    proof {
        crate::refs::lemma_owned_names();
    }
    push_scoped(v, scoped(id, remote_id, rad_id_ref().as_slice()));
    push_scoped(v, scoped(id, remote_id, signed_refs_ref().as_slice()));
    assert(sviews(v@) =~= sviews(old(v)@) + required_of(id@, remote_id@));
}

/// A peek's advertisement lacked refs that its policy demands.
#[derive(Clone, Debug, PartialEq, Eq)]
pub enum Layout {
    MissingRequiredRefs(Vec<Vec<u8>>),
}

pub open spec fn has_scoped(v: Seq<(Option<Seq<u8>>, Seq<u8>)>, s: (Option<Seq<u8>>, Seq<u8>)) -> bool {
    exists|k: int| 0 <= k < v.len() && v[k] == s
}

/// The names of the `required` refs that `wanted` lacks, in order.
pub open spec fn missing(
    required: Seq<(Option<Seq<u8>>, Seq<u8>)>,
    wanted: Seq<(Option<Seq<u8>>, Seq<u8>)>,
) -> Seq<Seq<u8>>
    decreases required.len(),
{
    if required.len() == 0 {
        Seq::empty()
    } else {
        let m = missing(required.drop_last(), wanted);
        if has_scoped(wanted, required.last()) {
            m
        } else {
            m.push(crate::refs::scoped_name(required.last().0, required.last().1))
        }
    }
}

pub open spec fn bviews(v: Seq<Vec<u8>>) -> Seq<Seq<u8>> {
    v.map_values(|x: Vec<u8>| x@)
}

fn same_scope(a: &Option<PeerId>, b: &Option<PeerId>) -> (r: bool)
    ensures
        r == ((match a {
            Some(p) => Some(p@),
            None => None::<Seq<u8>>,
        }) == (match b {
            Some(p) => Some(p@),
            None => None::<Seq<u8>>,
        })),
{
    match (a, b) {
        (None, None) => true,
        (Some(x), Some(y)) => x.same(y),
        _ => false,
    }
}

fn contains_scoped(v: &Vec<Scoped>, s: &Scoped) -> (r: bool)
    ensures
        r == has_scoped(sviews(v@), sview(*s)),
{
    let mut i: usize = 0;
    while i < v.len()
        invariant
            i <= v@.len(),
            forall|k: int| 0 <= k < i ==> sviews(v@)[k] != sview(*s),
        decreases v.len() - i,
    {
        assert(sviews(v@)[i as int] == sview(v@[i as int]));
        if same_scope(&v[i].scope, &s.scope) && crate::bytes::bytes_eq(
            v[i].name.as_slice(),
            s.name.as_slice(),
        ) {
            return true;
        }
        i = i + 1;
    }
    false
}

/// Checks that every required ref was advertised. An empty advertisement
/// asks nothing, so it passes.
pub fn guard_required(required: &Vec<Scoped>, wanted: &Vec<Scoped>) -> (r: Result<(), Layout>)
    ensures
        r is Ok == (wanted@.len() == 0 || missing(sviews(required@), sviews(wanted@)).len() == 0),
        r matches Err(Layout::MissingRequiredRefs(diff)) ==> bviews(diff@) == missing(
            sviews(required@),
            sviews(wanted@),
        ),
{
    if wanted.len() == 0 {
        return Ok(());
    }
    let mut diff: Vec<Vec<u8>> = Vec::new();
    let mut i: usize = 0;
    while i < required.len()
        invariant
            i <= required@.len(),
            bviews(diff@) == missing(sviews(required@.subrange(0, i as int)), sviews(wanted@)),
        decreases required.len() - i,
    {
        let ghost pre = required@.subrange(0, i as int);
        let ghost next = required@.subrange(0, i + 1);
        assert(sviews(next).drop_last() =~= sviews(pre));
        assert(sviews(next).last() == sview(required@[i as int]));
        if !contains_scoped(wanted, &required[i]) {
            let ghost before = diff@;
            diff.push(required[i].as_refname());
            assert(bviews(diff@) =~= bviews(before).push(required@[i as int].refname_spec()));
        }
        i = i + 1;
    }
    assert(required@.subrange(0, required@.len() as int) =~= required@);
    if diff.len() == 0 {
        Ok(())
    } else {
        Err(Layout::MissingRequiredRefs(diff))
    }
}

/// The update that a peek makes for a kept ref: the `rad` refs are written
/// under the peer's remote-tracking names, `rad/ids/<urn>` as a symbolic ref
/// to that URN's `rad/id`.
pub open spec fn peek_update(f: FilteredRefView) -> Option<UpdateView> {
    match parse_spec(f.name) {
        Some(p) => match p.inner {
            InnerView::Rad(RadView::Ids(urn)) => Some(
                UpdateView::Symbolic {
                    name: remote_tracking_spec(f.remote, f.name),
                    namespace: Some(urn),
                    refname: rad_id_name(),
                    target: f.tip,
                    type_change: Policy::Allow,
                },
            ),
            InnerView::Rad(_) => Some(
                UpdateView::Direct {
                    name: remote_tracking_spec(f.remote, f.name),
                    target: f.tip,
                    no_ff: Policy::Abort,
                },
            ),
            InnerView::Refs(_, _) => None,
        },
        None => None,
    }
}

pub fn mk_ref_update(fref: &FilteredRef) -> (r: Option<Update>)
    ensures
        r is Some == peek_update(fref@) is Some,
        r is Some ==> peek_update(fref@) == Some(r->0@),
{
    let name = fref.inner.name.as_slice();
    match parse(name) {
        None => None,
        Some(parsed) => {
            let track_as = remote_tracking(&fref.remote_id, name);
            match parsed.inner {
                Inner::Rad(Rad::Ids { urn }) => Some(
                    Update::Symbolic {
                        name: track_as,
                        target: SymrefTarget {
                            name: Namespaced { namespace: Some(urn.encode_id()), refname: rad_id_ref() },
                            target: fref.inner.tip.copied(),
                        },
                        type_change: Policy::Allow,
                    },
                ),
                Inner::Rad(_) => Some(
                    Update::Direct { name: track_as, target: fref.inner.tip.copied(), no_ff: Policy::Abort },
                ),
                Inner::Refs(_) => None,
            }
        },
    }
}

/// The `rad/ids/<urn>` refs among `refs`, as (peer, urn, tip), in order.
pub open spec fn id_entries(refs: Seq<FilteredRefView>) -> Seq<(Seq<u8>, Seq<u8>, Seq<u8>)>
    decreases refs.len(),
{
    if refs.len() == 0 {
        Seq::empty()
    } else {
        let e = id_entries(refs.drop_last());
        let r = refs.last();
        match parse_spec(r.name) {
            Some(p) => match p.inner {
                InnerView::Rad(RadView::Ids(urn)) => e.push((r.remote, urn, r.tip)),
                _ => e,
            },
            None => e,
        }
    }
}

/// The tip of the last entry for `peer` and `urn`.
pub open spec fn last_id(e: Seq<(Seq<u8>, Seq<u8>, Seq<u8>)>, peer: Seq<u8>, urn: Seq<u8>) -> Option<
    Seq<u8>,
>
    decreases e.len(),
{
    if e.len() == 0 {
        None
    } else if e.last().0 == peer && e.last().1 == urn {
        Some(e.last().2)
    } else {
        last_id(e.drop_last(), peer, urn)
    }
}

/// The `rad/ids/<urn>` tips that peers advertised: what resolves a
/// delegation to a URN while verifying an identity.
pub struct DelegateIds {
    pub entries: Vec<(PeerId, Identity, Oid)>,
}

impl DelegateIds {
    pub open spec fn entries_view(&self) -> Seq<(Seq<u8>, Seq<u8>, Seq<u8>)> {
        self.entries@.map_values(|e: (PeerId, Identity, Oid)| (e.0@, e.1@, e.2@))
    }

    pub fn from_refs(refs: &Vec<FilteredRef>) -> (r: DelegateIds)
        ensures
            r.entries_view() == id_entries(fviews(refs@)),
    {
        let mut r = DelegateIds { entries: Vec::new() };
        let mut i: usize = 0;
        while i < refs.len()
            invariant
                i <= refs@.len(),
                r.entries_view() == id_entries(fviews(refs@.subrange(0, i as int))),
            decreases refs.len() - i,
        {
            let ghost pre = fviews(refs@.subrange(0, i as int));
            let ghost next = fviews(refs@.subrange(0, i + 1));
            assert(next.drop_last() =~= pre);
            assert(next.last() == refs@[i as int]@);
            let fr = &refs[i];
            match parse(fr.inner.name.as_slice()) {
                Some(Parsed { inner: Inner::Rad(Rad::Ids { urn }), .. }) => {
                    let ghost before = r.entries@;
                    r.entries.push((fr.remote_id.copied(), urn, fr.inner.tip.copied()));
                    assert(r.entries_view() =~= before.map_values(
                        |e: (PeerId, Identity, Oid)| (e.0@, e.1@, e.2@),
                    ).push((fr.remote_id@, r.entries@.last().1@, fr.inner.tip@)));
                },
                _ => {},
            }
            i = i + 1;
        }
        assert(refs@.subrange(0, refs@.len() as int) =~= refs@);
        r
    }

    /// The `rad/ids/<urn>` tip that `peer` advertised, the last one if several.
    pub fn for_remote(&self, peer: &PeerId, urn: &Identity) -> (r: Option<Oid>)
        ensures
            r is Some == last_id(self.entries_view(), peer@, urn@) is Some,
            r is Some ==> last_id(self.entries_view(), peer@, urn@) == Some(r->0@),
    {
        let mut i: usize = self.entries.len();
        assert(self.entries_view().subrange(0, i as int) =~= self.entries_view());
        while i > 0
            invariant
                i <= self.entries@.len(),
                last_id(self.entries_view(), peer@, urn@) == last_id(
                    self.entries_view().subrange(0, i as int),
                    peer@,
                    urn@,
                ),
            decreases i,
        {
            let ghost sub = self.entries_view().subrange(0, i as int);
            assert(sub.drop_last() =~= self.entries_view().subrange(0, i - 1));
            let e = &self.entries[i - 1];
            assert(sub.last() == (e.0@, e.1@, e.2@));
            if e.0.same(peer) && crate::bytes::bytes_eq(e.1.id.as_slice(), urn.id.as_slice()) {
                return Some(e.2.copied());
            }
            i = i - 1;
        }
        None
    }
}

/// The updates that a peek makes for `refs`, in order.
pub open spec fn peek_updates(refs: Seq<FilteredRefView>) -> Seq<UpdateView>
    decreases refs.len(),
{
    if refs.len() == 0 {
        Seq::empty()
    } else {
        let u = peek_updates(refs.drop_last());
        match peek_update(refs.last()) {
            Some(x) => u.push(x),
            None => u,
        }
    }
}

/// The tips of `refs`.
pub open spec fn tips(refs: Seq<FilteredRefView>) -> Set<Seq<u8>> {
    Set::new(|o: Seq<u8>| exists|k: int| 0 <= k < refs.len() && refs[k].tip == o)
}

/// What our refdb holds at the remote-tracking names of `refs`.
pub open spec fn current_tips(db: Seq<(Vec<u8>, Oid)>, refs: Seq<FilteredRefView>) -> Set<Seq<u8>> {
    Set::new(
        |o: Seq<u8>|
            exists|k: int|
                0 <= k < refs.len() && lookup(db, remote_tracking_spec(refs[k].remote, refs[k].name))
                    == Some(o),
    )
}

/// `rad/id` as the tail of a name.
pub open spec fn rad_id_tail() -> Seq<u8> {
    c_rad() + seq![SEP] + c_id()
}

pub open spec fn ends_with_spec(s: Seq<u8>, t: Seq<u8>) -> bool {
    t.len() <= s.len() && s.subrange(s.len() - t.len(), s.len() as int) == t
}

pub fn rad_id_tail_lit() -> (r: Vec<u8>)
    ensures
        r@ == rad_id_tail(),
{
    let mut r = rad_lit();
    r.push(SEP);
    crate::bytes::extend(&mut r, id_lit().as_slice());
    r
}

pub fn ends_with_rad_id(name: &[u8]) -> (r: bool)
    ensures
        r == ends_with_spec(name@, rad_id_tail()),
{
    ends_with(name, rad_id_tail_lit().as_slice())
}

/// Records in `haves` what our refdb holds at `fref`'s remote-tracking name.
pub(crate) fn note_have(db: &Snapshot, fref: &FilteredRef, haves: &mut Vec<Oid>)
    requires
        oids_distinct(old(haves)@),
    ensures
        oids_distinct(final(haves)@),
        oid_set(final(haves)@) == match lookup(
            db.refs@,
            remote_tracking_spec(fref.remote_id@, fref.inner.name@),
        ) {
            Some(o) => oid_set(old(haves)@).insert(o),
            None => oid_set(old(haves)@),
        },
{
    let refname = remote_tracking(&fref.remote_id, fref.inner.name.as_slice());
    match db.refname_to_id(refname.as_slice()) {
        Some(oid) => insert_oid(haves, &oid),
        None => {},
    }
}

pub proof fn lemma_tips_step(refs: Seq<FilteredRefView>, i: int)
    requires
        0 <= i < refs.len(),
    ensures
        tips(refs.subrange(0, i + 1)) == tips(refs.subrange(0, i)).insert(refs[i].tip),
{
    let a = refs.subrange(0, i + 1);
    let b = refs.subrange(0, i);
    assert forall|o: Seq<u8>| tips(a).contains(o) implies tips(b).insert(refs[i].tip).contains(o) by {
        let k = choose|k: int| 0 <= k < a.len() && a[k].tip == o;
        if k < i {
            assert(b[k] == a[k]);
        }
    }
    assert forall|o: Seq<u8>| tips(b).insert(refs[i].tip).contains(o) implies tips(a).contains(o) by {
        if o == refs[i].tip {
            assert(a[i] == refs[i]);
        } else {
            let k = choose|k: int| 0 <= k < b.len() && b[k].tip == o;
            assert(a[k] == b[k]);
        }
    }
    assert(tips(a) =~= tips(b).insert(refs[i].tip));
}

pub proof fn lemma_current_tips_step(db: Seq<(Vec<u8>, Oid)>, refs: Seq<FilteredRefView>, i: int)
    requires
        0 <= i < refs.len(),
    ensures
        current_tips(db, refs.subrange(0, i + 1)) == match lookup(
            db,
            remote_tracking_spec(refs[i].remote, refs[i].name),
        ) {
            Some(o) => current_tips(db, refs.subrange(0, i)).insert(o),
            None => current_tips(db, refs.subrange(0, i)),
        },
{
    let a = refs.subrange(0, i + 1);
    let b = refs.subrange(0, i);
    let l = lookup(db, remote_tracking_spec(refs[i].remote, refs[i].name));
    let want = match l {
        Some(o) => current_tips(db, b).insert(o),
        None => current_tips(db, b),
    };
    assert forall|o: Seq<u8>| current_tips(db, a).contains(o) implies want.contains(o) by {
        let k = choose|k: int|
            0 <= k < a.len() && lookup(db, remote_tracking_spec(a[k].remote, a[k].name)) == Some(o);
        if k < i {
            assert(b[k] == a[k]);
        }
    }
    assert forall|o: Seq<u8>| want.contains(o) implies current_tips(db, a).contains(o) by {
        if l == Some(o) {
            assert(a[i] == refs[i]);
        } else {
            let k = choose|k: int|
                0 <= k < b.len() && lookup(db, remote_tracking_spec(b[k].remote, b[k].name)) == Some(
                    o,
                );
            assert(a[k] == b[k]);
        }
    }
    assert(current_tips(db, a) =~= want);
}

/// A kept ref as the scoped name it answers, asked of `remote`: its owner's
/// view of its owned name.
pub open spec fn as_scoped_view(f: FilteredRefView, remote: Seq<u8>) -> (Option<Seq<u8>>, Seq<u8>) {
    (scope_of(f.remote, remote), crate::refs::owned_spec(f.name))
}

pub open spec fn scoped_all(refs: Seq<FilteredRefView>, remote: Seq<u8>) -> Seq<
    (Option<Seq<u8>>, Seq<u8>),
> {
    refs.map_values(|f: FilteredRefView| as_scoped_view(f, remote))
}

impl FilteredRef {
    pub fn as_scoped(&self, remote_id: &PeerId) -> (r: Scoped)
        ensures
            sview(r) == as_scoped_view(self@, remote_id@),
    {
        scoped(&self.remote_id, remote_id, self.inner.name.as_slice())
    }
}

/// The scoped names that `refs` answer.
pub fn scoped_refs(refs: &Vec<FilteredRef>, remote_id: &PeerId) -> (r: Vec<Scoped>)
    ensures
        sviews(r@) == scoped_all(fviews(refs@), remote_id@),
{
    let mut r: Vec<Scoped> = Vec::new();
    let mut i: usize = 0;
    while i < refs.len()
        invariant
            i <= refs@.len(),
            sviews(r@) == scoped_all(fviews(refs@.subrange(0, i as int)), remote_id@),
        decreases refs.len() - i,
    {
        push_scoped(&mut r, refs[i].as_scoped(remote_id));
        i = i + 1;
        assert(sviews(r@) =~= scoped_all(fviews(refs@.subrange(0, i as int)), remote_id@));
    }
    assert(refs@.subrange(0, refs@.len() as int) =~= refs@);
    r
}

/// No peek update touches the view of a peer that none of its refs is of:
/// each is written under the remote-tracking name of its ref's peer, so
/// with refs of other peers than `local`, none is under `local`'s view.
pub proof fn lemma_peek_updates_not_local(refs: Seq<FilteredRefView>, local: Seq<u8>)
    requires
        forall|k: int|
            0 <= k < refs.len() ==> crate::refs::peer_text_ok((#[trigger] refs[k]).remote)
                && refs[k].remote != local,
    ensures
        forall|i: int|
            0 <= i < peek_updates(refs).len() ==> (crate::refs::ref_remote(
                crate::transmit::update_name(#[trigger] peek_updates(refs)[i]),
            ) matches Some(x) && x != local),
    decreases refs.len(),
{
    if refs.len() > 0 {
        let init = refs.drop_last();
        assert forall|k: int| 0 <= k < init.len() implies crate::refs::peer_text_ok(
            (#[trigger] init[k]).remote,
        ) && init[k].remote != local by {
            assert(init[k] == refs[k]);
        }
        lemma_peek_updates_not_local(init, local);
        let u = peek_updates(init);
        let last = refs.last();
        assert(refs[refs.len() - 1] == last);
        crate::refs::lemma_remote_tracking_remote(last.remote, last.name);
        match peek_update(last) {
            Some(x) => {
                assert(u.push(x).drop_last() =~= u);
                assert forall|i: int| 0 <= i < u.push(x).len() implies (crate::refs::ref_remote(
                    crate::transmit::update_name(#[trigger] u.push(x)[i]),
                ) matches Some(y) && y != local) by {
                    if i < u.len() {
                        assert(u.push(x)[i] == u[i]);
                    }
                }
            },
            None => {},
        }
    }
}

} // verus!
