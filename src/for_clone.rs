//! The peek of a clone: we hold nothing of the URN yet, so we ask the remote
//! for its own `rad` refs and keep them if it is a delegate.
use vstd::prelude::*;

use crate::peek::{
    DelegateIds,
    Layout,
    current_tips,
    guard_required,
    lemma_current_tips_step,
    lemma_tips_step,
    missing,
    mk_ref_update,
    note_have,
    peek_prefixes,
    peek_updates,
    push_ref_prefixes,
    push_required_refs,
    required_of,
    scoped_all,
    scoped_refs,
    sviews,
    tips,
};
use crate::refs::{PeerId, parse, parse_spec, rad_id_name, rad_id_ref, Inner};
use crate::transmit::{
    AdvertisedRef,
    FilteredRef,
    FilteredRefView,
    Snapshot,
    Update,
    WantsHaves,
    contains_peer,
    fviews,
    has_peer,
    insert_oid,
    oid_set,
    oids_distinct,
    uviews,
};

verus! {

/// Whether a clone's peek keeps a ref of this name: a `rad` ref of the
/// remote itself.
pub open spec fn clone_keeps(name: Seq<u8>) -> bool {
    parse_spec(name) matches Some(p) && p.remote is None && p.inner is Rad
}

#[derive(Clone, Debug, PartialEq, Eq)]
pub struct ForClone {
    pub remote_id: PeerId,
}

impl ForClone {
    pub fn required_refs(&self) -> (r: Vec<crate::refs::Scoped>)
        ensures
            sviews(r@) == required_of(self.remote_id@, self.remote_id@),
    {
        let mut r = Vec::new();
        push_required_refs(&mut r, &self.remote_id, &self.remote_id);
        assert(sviews(r@) =~= required_of(self.remote_id@, self.remote_id@));
        r
    }

    /// The `ref-prefix`es to send with `ls-refs`.
    pub fn ref_prefixes(&self) -> (r: Vec<crate::refs::Scoped>)
        ensures
            sviews(r@) == peek_prefixes(self.remote_id@, self.remote_id@),
    {
        let mut r = Vec::new();
        push_ref_prefixes(&mut r, &self.remote_id, &self.remote_id);
        assert(sviews(r@) =~= peek_prefixes(self.remote_id@, self.remote_id@));
        r
    }

    /// Keeps the remote's own `rad` refs, as refs of the remote.
    pub fn ref_filter(&self, r: &AdvertisedRef) -> (f: Option<FilteredRef>)
        ensures
            f is Some == clone_keeps(r.name@),
            f is Some ==> f->0@ == (FilteredRefView {
                remote: self.remote_id@,
                name: r.name@,
                tip: r.tip@,
            }),
    {
        match parse(r.name.as_slice()) {
            Some(p) => {
                if p.remote.is_none() {
                    match p.inner {
                        Inner::Rad(_) => Some(FilteredRef::new(self.remote_id.copied(), r)),
                        Inner::Refs(_) => None,
                    }
                } else {
                    None
                }
            },
            None => None,
        }
    }

    /// The advertised refs this peek keeps, in order.
    pub open spec fn kept(&self, adv: Seq<AdvertisedRef>) -> Seq<FilteredRefView>
        decreases adv.len(),
    {
        if adv.len() == 0 {
            Seq::empty()
        } else if clone_keeps(adv.last().name@) {
            self.kept(adv.drop_last()).push(
                FilteredRefView { remote: self.remote_id@, name: adv.last().name@, tip: adv.last().tip@ },
            )
        } else {
            self.kept(adv.drop_last())
        }
    }

    pub fn filter_refs(&self, adv: &Vec<AdvertisedRef>) -> (r: Vec<FilteredRef>)
        ensures
            fviews(r@) == self.kept(adv@),
            forall|k: int| 0 <= k < r@.len() ==> (#[trigger] r@[k]).remote_id@ == self.remote_id@,
    {
        let mut r: Vec<FilteredRef> = Vec::new();
        let mut i: usize = 0;
        while i < adv.len()
            invariant
                i <= adv@.len(),
                fviews(r@) == self.kept(adv@.subrange(0, i as int)),
                forall|k: int| 0 <= k < r@.len() ==> (#[trigger] r@[k]).remote_id@ == self.remote_id@,
            decreases adv.len() - i,
        {
            let ghost next = adv@.subrange(0, i + 1);
            assert(next.drop_last() =~= adv@.subrange(0, i as int));
            assert(next.last() == adv@[i as int]);
            match self.ref_filter(&adv[i]) {
                Some(f) => {
                    let ghost before = r@;
                    r.push(f);
                    assert(fviews(r@) =~= fviews(before).push(r@.last()@));
                },
                None => {},
            }
            i = i + 1;
        }
        assert(adv@.subrange(0, adv@.len() as int) =~= adv@);
        r
    }

    /// Keeps the advertised refs and negotiates on them.
    pub fn negotiate(&self, db: &Snapshot, adv: &Vec<AdvertisedRef>) -> (w: WantsHaves)
        ensures
            fviews(w.wanted@) == self.kept(adv@),
            oids_distinct(w.wants@),
            oids_distinct(w.haves@),
            oid_set(w.wants@) == tips(self.kept(adv@)),
            oid_set(w.haves@) == current_tips(db.refs@, self.kept(adv@)),
    {
        let kept = self.filter_refs(adv);
        self.wants_haves(db, kept)
    }

    /// Wants every advertised tip; has what our refdb holds at the
    /// remote-tracking names.
    pub fn wants_haves(&self, db: &Snapshot, refs: Vec<FilteredRef>) -> (w: WantsHaves)
        requires
            forall|k: int| 0 <= k < refs@.len() ==> (#[trigger] refs@[k]).remote_id@
                == self.remote_id@,
        ensures
            fviews(w.wanted@) == fviews(refs@),
            oids_distinct(w.wants@),
            oids_distinct(w.haves@),
            oid_set(w.wants@) == tips(fviews(refs@)),
            oid_set(w.haves@) == current_tips(db.refs@, fviews(refs@)),
    {
        let mut wants: Vec<crate::refs::Oid> = Vec::new();
        let mut haves: Vec<crate::refs::Oid> = Vec::new();
        let ghost all = fviews(refs@);
        assert(oid_set(wants@) =~= tips(all.subrange(0, 0)));
        assert(oid_set(haves@) =~= current_tips(db.refs@, all.subrange(0, 0)));
        let mut i: usize = 0;
        while i < refs.len()
            invariant
                i <= refs@.len(),
                all == fviews(refs@),
                oids_distinct(wants@),
                oids_distinct(haves@),
                oid_set(wants@) == tips(all.subrange(0, i as int)),
                oid_set(haves@) == current_tips(db.refs@, all.subrange(0, i as int)),
            decreases refs.len() - i,
        {
            proof {
                lemma_tips_step(all, i as int);
                lemma_current_tips_step(db.refs@, all, i as int);
            }
            note_have(db, &refs[i], &mut haves);
            insert_oid(&mut wants, &refs[i].inner.tip);
            i = i + 1;
        }
        assert(all.subrange(0, all.len() as int) =~= all);
        WantsHaves { wanted: refs, wants, haves }
    }

    /// The position of the remote's `refs/rad/id` among `refs`, the first if
    /// several.
    pub fn identity_ref(&self, refs: &Vec<FilteredRef>) -> (r: Option<usize>)
        ensures
            r is None ==> forall|k: int|
                0 <= k < refs@.len() ==> !((#[trigger] refs@[k])@.remote == self.remote_id@
                    && refs@[k]@.name == rad_id_name()),
            r matches Some(i) ==> i < refs@.len() && refs@[i as int]@.remote == self.remote_id@
                && refs@[i as int]@.name == rad_id_name(),
    {
        let id = rad_id_ref();
        let mut i: usize = 0;
        while i < refs.len()
            invariant
                i <= refs@.len(),
                id@ == rad_id_name(),
                forall|k: int|
                    0 <= k < i ==> !((#[trigger] refs@[k])@.remote == self.remote_id@
                        && refs@[k]@.name == rad_id_name()),
            decreases refs.len() - i,
        {
            if refs[i].remote_id.same(&self.remote_id) && crate::bytes::bytes_eq(
                refs[i].inner.name.as_slice(),
                id.as_slice(),
            ) {
                return Some(i);
            }
            i = i + 1;
        }
        None
    }

    /// The `rad/ids/<urn>` tips advertised, for verifying the remote's
    /// identity.
    pub fn delegate_ids(&self, refs: &Vec<FilteredRef>) -> (r: DelegateIds)
        ensures
            r.entries_view() == crate::peek::id_entries(fviews(refs@)),
    {
        DelegateIds::from_refs(refs)
    }

    /// One transaction writing the remote's `rad` refs, if the verified
    /// identity delegates to the remote; none otherwise.
    pub fn prepare(&self, refs: &Vec<FilteredRef>, delegates: &Vec<PeerId>) -> (r: Vec<Vec<Update>>)
        ensures
            has_peer(delegates@, self.remote_id@) ==> r@.len() == 1 && uviews(r@[0]@) == peek_updates(
                fviews(refs@),
            ),
            !has_peer(delegates@, self.remote_id@) ==> r@.len() == 0,
    {
        if !contains_peer(delegates, &self.remote_id) {
            return Vec::new();
        }
        let ups = updates_of(refs);
        let mut r: Vec<Vec<Update>> = Vec::new();
        r.push(ups);
        r
    }

    /// The remote's `rad/id` and `rad/signed_refs` must be among `refs`,
    /// unless nothing was advertised.
    pub fn pre_validate(&self, refs: &Vec<FilteredRef>) -> (r: Result<(), Layout>)
        ensures
            r is Ok == (refs@.len() == 0 || missing(
                required_of(self.remote_id@, self.remote_id@),
                scoped_all(fviews(refs@), self.remote_id@),
            ).len() == 0),
            r matches Err(Layout::MissingRequiredRefs(diff)) ==> crate::peek::bviews(diff@)
                == missing(
                required_of(self.remote_id@, self.remote_id@),
                scoped_all(fviews(refs@), self.remote_id@),
            ),
    {
        let wanted = scoped_refs(refs, &self.remote_id);
        assert(sviews(wanted@).len() == wanted@.len());
        assert(fviews(refs@).len() == refs@.len());
        guard_required(&self.required_refs(), &wanted)
    }
}

/// The peek updates of `refs`, in order.
pub fn updates_of(refs: &Vec<FilteredRef>) -> (r: Vec<Update>)
    ensures
        uviews(r@) == peek_updates(fviews(refs@)),
{
    let mut r: Vec<Update> = Vec::new();
    let mut i: usize = 0;
    while i < refs.len()
        invariant
            i <= refs@.len(),
            uviews(r@) == peek_updates(fviews(refs@.subrange(0, i as int))),
        decreases refs.len() - i,
    {
        let ghost pre = fviews(refs@.subrange(0, i as int));
        let ghost next = fviews(refs@.subrange(0, i + 1));
        assert(next.drop_last() =~= pre);
        assert(next.last() == refs@[i as int]@);
        match mk_ref_update(&refs[i]) {
            Some(u) => {
                let ghost before = r@;
                r.push(u);
                assert(uviews(r@) =~= uviews(before).push(r@.last()@));
            },
            None => {},
        }
        i = i + 1;
    }
    assert(refs@.subrange(0, refs@.len() as int) =~= refs@);
    r
}

} // verus!
