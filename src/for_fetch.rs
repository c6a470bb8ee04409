//! The peek of a pull: we hold the URN's identity, so we ask the remote for
//! the `rad` refs of the delegates and of the peers we track.
use vstd::prelude::*;

use crate::peek::{
    Layout,
    current_tips,
    ends_with_rad_id,
    ends_with_spec,
    guard_required,
    lemma_current_tips_step,
    lemma_tips_step,
    missing,
    mk_ref_update,
    note_have,
    peek_prefixes,
    peek_updates,
    push_ref_prefixes,
    push_required_refs,
    pviews,
    rad_id_tail,
    required_of,
    scoped_all,
    scoped_refs,
    sviews,
    tips,
};
use crate::refs::{Inner, Oid, PeerId, Scoped, parse, parse_spec};
use crate::transmit::{
    AdvertisedRef,
    FilteredRef,
    FilteredRefView,
    Snapshot,
    Update,
    WantsHaves,
    contains_peer,
    fviews,
    has_peer,
    insert_oid,
    oid_set,
    oids_distinct,
    uviews,
};

verus! {

/// `s` without `x`.
pub open spec fn drop_peer(s: Seq<Seq<u8>>, x: Seq<u8>) -> Seq<Seq<u8>>
    decreases s.len(),
{
    if s.len() == 0 {
        Seq::empty()
    } else if s.last() == x {
        drop_peer(s.drop_last(), x)
    } else {
        drop_peer(s.drop_last(), x).push(s.last())
    }
}

/// The peek `ref-prefix`es of each of `peers`, in order.
pub open spec fn all_prefixes(peers: Seq<Seq<u8>>, remote: Seq<u8>) -> Seq<
    (Option<Seq<u8>>, Seq<u8>),
>
    decreases peers.len(),
{
    if peers.len() == 0 {
        Seq::empty()
    } else {
        all_prefixes(peers.drop_last(), remote) + peek_prefixes(peers.last(), remote)
    }
}

/// The refs required of each of `peers`, in order.
pub open spec fn all_required(peers: Seq<Seq<u8>>, remote: Seq<u8>) -> Seq<
    (Option<Seq<u8>>, Seq<u8>),
>
    decreases peers.len(),
{
    if peers.len() == 0 {
        Seq::empty()
    } else {
        all_required(peers.drop_last(), remote) + required_of(peers.last(), remote)
    }
}

/// The refs of `refs` whose peer is (or is not) among `peers`.
pub open spec fn refs_of(refs: Seq<FilteredRefView>, peers: Seq<PeerId>, among: bool) -> Seq<
    FilteredRefView,
>
    decreases refs.len(),
{
    if refs.len() == 0 {
        Seq::empty()
    } else if has_peer(peers, refs.last().remote) == among {
        refs_of(refs.drop_last(), peers, among).push(refs.last())
    } else {
        refs_of(refs.drop_last(), peers, among)
    }
}

/// The verification of a delegate's identity failed.
#[derive(Clone, Debug, PartialEq, Eq)]
pub enum Prepare {
    /// The position of the ref whose identity did not verify.
    Verification(usize),
}

#[derive(Clone, Debug, PartialEq, Eq)]
pub struct ForFetch {
    /// The local peer, so we don't fetch our own data.
    pub local_id: PeerId,
    /// The remote peer being fetched from.
    pub remote_id: PeerId,
    /// The keys the latest known identity revision delegates to.
    pub delegates: Vec<PeerId>,
    /// Other peers that we track.
    pub tracked_peers: Vec<PeerId>,
}

/// Appends the peers of `from` other than `skip`.
fn push_peers_except(out: &mut Vec<PeerId>, from: &Vec<PeerId>, skip: &PeerId)
    ensures
        pviews(final(out)@) == pviews(old(out)@) + drop_peer(pviews(from@), skip@),
{
    let mut i: usize = 0;
    while i < from.len()
        invariant
            i <= from@.len(),
            pviews(out@) == pviews(old(out)@) + drop_peer(
                pviews(from@.subrange(0, i as int)),
                skip@,
            ),
        decreases from.len() - i,
    {
        let ghost pre = pviews(from@.subrange(0, i as int));
        let ghost next = pviews(from@.subrange(0, i + 1));
        assert(next.drop_last() =~= pre);
        assert(next.last() == from@[i as int]@);
        if !from[i].same(skip) {
            let ghost before = out@;
            out.push(from[i].copied());
            assert(pviews(out@) =~= pviews(before).push(from@[i as int]@));
        }
        i = i + 1;
    }
    assert(from@.subrange(0, from@.len() as int) =~= from@);
}

impl ForFetch {
    pub open spec fn peers_spec(&self) -> Seq<Seq<u8>> {
        drop_peer(pviews(self.delegates@), self.local_id@) + drop_peer(
            pviews(self.tracked_peers@),
            self.local_id@,
        )
    }

    /// Whether refs of `p` are fetched: a delegate or a peer we track other
    /// than us.
    pub open spec fn is_peer(&self, p: Seq<u8>) -> bool {
        p != self.local_id@ && (has_peer(self.delegates@, p) || has_peer(self.tracked_peers@, p))
    }

    /// The refs of `refs` whose peer is fetched, in order.
    pub open spec fn peer_refs(&self, refs: Seq<FilteredRefView>) -> Seq<FilteredRefView>
        decreases refs.len(),
    {
        if refs.len() == 0 {
            Seq::empty()
        } else if self.is_peer(refs.last().remote) {
            self.peer_refs(refs.drop_last()).push(refs.last())
        } else {
            self.peer_refs(refs.drop_last())
        }
    }

    /// Whether a ref of this name is kept: a `rad` ref that is not under our
    /// own view.
    pub open spec fn keeps(&self, name: Seq<u8>) -> bool {
        parse_spec(name) matches Some(p) && p.inner is Rad && p.remote != Some(self.local_id@)
    }

    /// Whose ref a kept ref is: the peer under whose view it is, or the
    /// remote.
    pub open spec fn owner_of(&self, name: Seq<u8>) -> Seq<u8> {
        match parse_spec(name) {
            Some(p) => match p.remote {
                Some(x) => x,
                None => self.remote_id@,
            },
            None => self.remote_id@,
        }
    }

    /// Whether the identity behind a kept ref must verify before anything is
    /// written: a delegate's `rad/id`.
    pub open spec fn needs_verify(&self, f: FilteredRefView) -> bool {
        has_peer(self.delegates@, f.remote) && ends_with_spec(f.name, rad_id_tail())
    }

    /// The delegates, then the peers we track, leaving out the local peer.
    pub fn peers(&self) -> (r: Vec<PeerId>)
        ensures
            pviews(r@) == self.peers_spec(),
    {
        let mut r: Vec<PeerId> = Vec::new();
        push_peers_except(&mut r, &self.delegates, &self.local_id);
        push_peers_except(&mut r, &self.tracked_peers, &self.local_id);
        assert(pviews(r@) =~= self.peers_spec());
        r
    }

    /// `rad/id` and `rad/signed_refs` of each delegate other than us.
    pub fn required_refs(&self) -> (r: Vec<Scoped>)
        ensures
            sviews(r@) == all_required(
                drop_peer(pviews(self.delegates@), self.local_id@),
                self.remote_id@,
            ),
    {
        let mut ds: Vec<PeerId> = Vec::new();
        push_peers_except(&mut ds, &self.delegates, &self.local_id);
        assert(pviews(ds@) =~= drop_peer(pviews(self.delegates@), self.local_id@));
        let mut r: Vec<Scoped> = Vec::new();
        let mut i: usize = 0;
        while i < ds.len()
            invariant
                i <= ds@.len(),
                sviews(r@) == all_required(pviews(ds@.subrange(0, i as int)), self.remote_id@),
            decreases ds.len() - i,
        {
            let ghost next = pviews(ds@.subrange(0, i + 1));
            assert(next.drop_last() =~= pviews(ds@.subrange(0, i as int)));
            push_required_refs(&mut r, &ds[i], &self.remote_id);
            i = i + 1;
        }
        assert(ds@.subrange(0, ds@.len() as int) =~= ds@);
        r
    }

    /// The `ref-prefix`es to send with `ls-refs`: the `rad` refs of each peer.
    pub fn ref_prefixes(&self) -> (r: Vec<Scoped>)
        ensures
            sviews(r@) == all_prefixes(self.peers_spec(), self.remote_id@),
    {
        let ps = self.peers();
        let mut r: Vec<Scoped> = Vec::new();
        let mut i: usize = 0;
        while i < ps.len()
            invariant
                i <= ps@.len(),
                sviews(r@) == all_prefixes(pviews(ps@.subrange(0, i as int)), self.remote_id@),
            decreases ps.len() - i,
        {
            let ghost next = pviews(ps@.subrange(0, i + 1));
            assert(next.drop_last() =~= pviews(ps@.subrange(0, i as int)));
            push_ref_prefixes(&mut r, &ps[i], &self.remote_id);
            i = i + 1;
        }
        assert(ps@.subrange(0, ps@.len() as int) =~= ps@);
        r
    }

    /// The advertised refs this phase keeps, in order.
    pub open spec fn kept(&self, adv: Seq<AdvertisedRef>) -> Seq<FilteredRefView>
        decreases adv.len(),
    {
        if adv.len() == 0 {
            Seq::empty()
        } else if self.keeps(adv.last().name@) {
            self.kept(adv.drop_last()).push(
                FilteredRefView {
                    remote: self.owner_of(adv.last().name@),
                    name: adv.last().name@,
                    tip: adv.last().tip@,
                },
            )
        } else {
            self.kept(adv.drop_last())
        }
    }

    pub fn filter_refs(&self, adv: &Vec<AdvertisedRef>) -> (r: Vec<FilteredRef>)
        ensures
            fviews(r@) == self.kept(adv@),
    {
        let mut r: Vec<FilteredRef> = Vec::new();
        let mut i: usize = 0;
        while i < adv.len()
            invariant
                i <= adv@.len(),
                fviews(r@) == self.kept(adv@.subrange(0, i as int)),
            decreases adv.len() - i,
        {
            let ghost next = adv@.subrange(0, i + 1);
            assert(next.drop_last() =~= adv@.subrange(0, i as int));
            assert(next.last() == adv@[i as int]);
            match self.ref_filter(&adv[i]) {
                Some(f) => {
                    let ghost before = r@;
                    r.push(f);
                    assert(fviews(r@) =~= fviews(before).push(r@.last()@));
                },
                None => {},
            }
            i = i + 1;
        }
        assert(adv@.subrange(0, adv@.len() as int) =~= adv@);
        r
    }

    /// Keeps `rad` refs, as refs of the peer under whose view they are, or
    /// of the remote; drops our own.
    pub fn ref_filter(&self, r: &AdvertisedRef) -> (f: Option<FilteredRef>)
        ensures
            f is Some == self.keeps(r.name@),
            f is Some ==> f->0@ == (FilteredRefView {
                remote: self.owner_of(r.name@),
                name: r.name@,
                tip: r.tip@,
            }),
    {
        match parse(r.name.as_slice()) {
            None => None,
            Some(p) => {
                let owner = match &p.remote {
                    Some(x) => {
                        if x.same(&self.local_id) {
                            return None;
                        }
                        x.copied()
                    },
                    None => self.remote_id.copied(),
                };
                match p.inner {
                    Inner::Rad(_) => Some(FilteredRef::new(owner, r)),
                    Inner::Refs(_) => None,
                }
            },
        }
    }

    fn is_peer_exec(&self, p: &PeerId) -> (r: bool)
        ensures
            r == self.is_peer(p@),
    {
        !p.same(&self.local_id) && (contains_peer(&self.delegates, p) || contains_peer(
            &self.tracked_peers,
            p,
        ))
    }

    /// Has what our refdb holds for every advertised ref; wants only the
    /// refs of the delegates and the peers we track.
    pub fn wants_haves(&self, db: &Snapshot, refs: Vec<FilteredRef>) -> (w: WantsHaves)
        ensures
            forall|k: int|
                0 <= k < w.wanted@.len() ==> self.is_peer((#[trigger] w.wanted@[k])@.remote),
            fviews(w.wanted@) == self.peer_refs(fviews(refs@)),
            oids_distinct(w.wants@),
            oids_distinct(w.haves@),
            oid_set(w.wants@) == tips(fviews(w.wanted@)),
            oid_set(w.haves@) == current_tips(db.refs@, fviews(refs@)),
    {
        let mut wanted: Vec<FilteredRef> = Vec::new();
        let mut wants: Vec<Oid> = Vec::new();
        let mut haves: Vec<Oid> = Vec::new();
        let ghost all = fviews(refs@);
        assert(oid_set(wants@) =~= tips(fviews(wanted@)));
        assert(oid_set(haves@) =~= current_tips(db.refs@, all.subrange(0, 0)));
        assert(fviews(wanted@) =~= self.peer_refs(all.subrange(0, 0)));
        let mut i: usize = 0;
        while i < refs.len()
            invariant
                i <= refs@.len(),
                all == fviews(refs@),
                oids_distinct(wants@),
                oids_distinct(haves@),
                fviews(wanted@) == self.peer_refs(all.subrange(0, i as int)),
                forall|k: int|
                    0 <= k < wanted@.len() ==> self.is_peer((#[trigger] wanted@[k])@.remote),
                oid_set(wants@) == tips(fviews(wanted@)),
                oid_set(haves@) == current_tips(db.refs@, all.subrange(0, i as int)),
            decreases refs.len() - i,
        {
            proof {
                lemma_current_tips_step(db.refs@, all, i as int);
                let next = all.subrange(0, i + 1);
                assert(next.drop_last() =~= all.subrange(0, i as int));
                assert(next.last() == refs@[i as int]@);
            }
            note_have(db, &refs[i], &mut haves);
            if self.is_peer_exec(&refs[i].remote_id) {
                let ghost before = fviews(wanted@);
                wanted.push(refs[i].copied());
                proof {
                    let fw = fviews(wanted@);
                    assert(fw =~= before.push(refs@[i as int]@));
                    assert(fw.drop_last() =~= before);
                    lemma_tips_step(fw, before.len() as int);
                    assert(fw.subrange(0, before.len() as int) =~= before);
                    assert(fw.subrange(0, fw.len() as int) =~= fw);
                }
                insert_oid(&mut wants, &refs[i].inner.tip);
            }
            i = i + 1;
        }
        assert(all.subrange(0, all.len() as int) =~= all);
        WantsHaves { wanted, wants, haves }
    }

    /// Two transactions, delegates first: one for the delegates' `rad`
    /// refs, one for the other peers'. `verified[k]` is the outcome of
    /// verifying the identity at `refs[k]`; it is consulted for the
    /// delegates' `rad/id`, and the first such that failed aborts.
    pub fn prepare(&self, refs: &Vec<FilteredRef>, verified: &Vec<bool>) -> (r: Result<
        Vec<Vec<Update>>,
        Prepare,
    >)
        requires
            verified@.len() == refs@.len(),
        ensures
            r is Ok == forall|k: int|
                0 <= k < refs@.len() ==> !(self.needs_verify((#[trigger] refs@[k])@)
                    && !verified@[k]),
            r matches Err(Prepare::Verification(i)) ==> i < refs@.len() && self.needs_verify(
                refs@[i as int]@,
            ) && !verified@[i as int],
            r matches Ok(groups) ==> groups@.len() == 2 && uviews(groups@[0]@) == peek_updates(
                refs_of(fviews(refs@), self.delegates@, true),
            ) && uviews(groups@[1]@) == peek_updates(refs_of(fviews(refs@), self.delegates@, false)),
    {
        let mut delegate_updates: Vec<Update> = Vec::new();
        let mut other_updates: Vec<Update> = Vec::new();
        let ghost all = fviews(refs@);
        let mut i: usize = 0;
        while i < refs.len()
            invariant
                i <= refs@.len(),
                all == fviews(refs@),
                verified@.len() == refs@.len(),
                forall|k: int|
                    0 <= k < i ==> !(self.needs_verify((#[trigger] refs@[k])@) && !verified@[k]),
                uviews(delegate_updates@) == peek_updates(
                    refs_of(all.subrange(0, i as int), self.delegates@, true),
                ),
                uviews(other_updates@) == peek_updates(
                    refs_of(all.subrange(0, i as int), self.delegates@, false),
                ),
            decreases refs.len() - i,
        {
            let r = &refs[i];
            let ghost next = all.subrange(0, i + 1);
            assert(next.drop_last() =~= all.subrange(0, i as int));
            assert(next.last() == r@);
            let is_delegate = contains_peer(&self.delegates, &r.remote_id);
            proof {
                let d = refs_of(all.subrange(0, i as int), self.delegates@, true);
                let o = refs_of(all.subrange(0, i as int), self.delegates@, false);
                assert(d.push(r@).drop_last() =~= d);
                assert(o.push(r@).drop_last() =~= o);
            }
            if is_delegate && ends_with_rad_id(r.inner.name.as_slice()) && !verified[i] {
                return Err(Prepare::Verification(i));
            }
            match mk_ref_update(r) {
                Some(u) => {
                    if is_delegate {
                        let ghost before = delegate_updates@;
                        delegate_updates.push(u);
                        assert(uviews(delegate_updates@) =~= uviews(before).push(
                            delegate_updates@.last()@,
                        ));
                    } else {
                        let ghost before = other_updates@;
                        other_updates.push(u);
                        assert(uviews(other_updates@) =~= uviews(before).push(
                            other_updates@.last()@,
                        ));
                    }
                },
                None => {},
            }
            i = i + 1;
        }
        assert(all.subrange(0, all.len() as int) =~= all);
        let mut groups: Vec<Vec<Update>> = Vec::new();
        groups.push(delegate_updates);
        groups.push(other_updates);
        Ok(groups)
    }

    /// Which of `refs` carry an identity that must verify before
    /// `prepare`: the delegates' `rad/id`.
    pub fn to_verify(&self, refs: &Vec<FilteredRef>) -> (r: Vec<bool>)
        ensures
            r@.len() == refs@.len(),
            forall|k: int| 0 <= k < refs@.len() ==> r@[k] == self.needs_verify((#[trigger] refs@[k])@),
    {
        let mut r: Vec<bool> = Vec::new();
        let mut i: usize = 0;
        while i < refs.len()
            invariant
                i <= refs@.len(),
                r@.len() == i,
                forall|k: int| 0 <= k < i ==> r@[k] == self.needs_verify((#[trigger] refs@[k])@),
            decreases refs.len() - i,
        {
            let needs = contains_peer(&self.delegates, &refs[i].remote_id) && ends_with_rad_id(
                refs[i].inner.name.as_slice(),
            );
            r.push(needs);
            i = i + 1;
        }
        r
    }

    /// A kept ref is of a well-formed peer other than us, when we do not
    /// fetch from ourselves.
    pub proof fn lemma_kept_not_local(&self, name: Seq<u8>)
        requires
            self.keeps(name),
            self.remote_id.wf(),
            self.remote_id@ != self.local_id@,
        ensures
            crate::refs::peer_text_ok(self.owner_of(name)),
            self.owner_of(name) != self.local_id@,
    {
    }

    /// Each delegate's `rad/id` and `rad/signed_refs` must be among `refs`,
    /// unless nothing was advertised.
    pub fn pre_validate(&self, refs: &Vec<FilteredRef>) -> (r: Result<(), Layout>)
        ensures
            r is Ok == (refs@.len() == 0 || missing(
                all_required(drop_peer(pviews(self.delegates@), self.local_id@), self.remote_id@),
                scoped_all(fviews(refs@), self.remote_id@),
            ).len() == 0),
            r matches Err(Layout::MissingRequiredRefs(diff)) ==> crate::peek::bviews(diff@)
                == missing(
                all_required(drop_peer(pviews(self.delegates@), self.local_id@), self.remote_id@),
                scoped_all(fviews(refs@), self.remote_id@),
            ),
    {
        let wanted = scoped_refs(refs, &self.remote_id);
        assert(sviews(wanted@).len() == wanted@.len());
        assert(fviews(refs@).len() == refs@.len());
        guard_required(&self.required_refs(), &wanted)
    }
}

} // verus!
