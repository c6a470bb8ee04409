//! The fetch phase: with the identity trusted, fetch `heads`, `notes` and
//! `tags` of the peers we track and the refs that peers signed.
use vstd::prelude::*;

use crate::bytes::join;
use crate::for_fetch::drop_peer;
use crate::peek::{
    current_tips,
    lemma_current_tips_step,
    lemma_tips_step,
    push_scoped,
    pviews,
    scope_of,
    sviews,
    tips,
};
use crate::refs::{
    Cat,
    Inner,
    InnerView,
    Oid,
    PeerId,
    Scoped,
    c_heads,
    c_notes,
    c_refs,
    c_tags,
    cat_bytes,
    cat_prefix,
    cat_ref_prefix,
    owned,
    owned_spec,
    parse,
    parse_spec,
    remote_tracking,
    remote_tracking_spec,
    scoped,
    signed_refs_name,
    signed_refs_ref,
};
use crate::transmit::{
    AdvertisedRef,
    FilteredRef,
    FilteredRefView,
    Policy,
    Snapshot,
    Update,
    UpdateView,
    WantsHaves,
    update_name,
    contains_peer,
    find_entry,
    fviews,
    has_peer,
    insert_oid,
    lookup,
    oid_set,
    oids_distinct,
    uviews,
};

verus! {

/// One peer's signed refs at one URN: the refs it signed, the blob they
/// were loaded from, and the peers it tracks.
#[derive(Clone, Debug, PartialEq, Eq)]
pub struct Sigrefs {
    pub at: Oid,
    pub refs: Vec<(Vec<u8>, Oid)>,
    pub remotes: Vec<PeerId>,
}

/// The signed refs of many peers, and all the peers they track.
#[derive(Clone, Debug, PartialEq, Eq)]
pub struct Combined {
    pub refs: Vec<(PeerId, Sigrefs)>,
    pub remotes: Vec<PeerId>,
}

/// The signed refs of `p`, the first entry if several.
pub open spec fn manifest_of(c: Seq<(PeerId, Sigrefs)>, p: Seq<u8>) -> Option<Sigrefs>
    decreases c.len(),
{
    if c.len() == 0 {
        None
    } else if c[0].0@ == p {
        Some(c[0].1)
    } else {
        manifest_of(c.drop_first(), p)
    }
}

/// The `heads/`, `notes/` and `tags/` prefixes of each of `peers`.
pub open spec fn cat_prefixes(peers: Seq<Seq<u8>>, remote: Seq<u8>) -> Seq<
    (Option<Seq<u8>>, Seq<u8>),
>
    decreases peers.len(),
{
    if peers.len() == 0 {
        Seq::empty()
    } else {
        let s = scope_of(peers.last(), remote);
        cat_prefixes(peers.drop_last(), remote) + seq![
            (s, cat_prefix(c_heads())),
            (s, cat_prefix(c_notes())),
            (s, cat_prefix(c_tags())),
        ]
    }
}

/// The names that `owner` signed, scoped for asking `remote`.
pub open spec fn names_scoped(entries: Seq<(Vec<u8>, Oid)>, owner: Seq<u8>, remote: Seq<u8>) -> Seq<
    (Option<Seq<u8>>, Seq<u8>),
> {
    entries.map_values(|e: (Vec<u8>, Oid)| (scope_of(owner, remote), owned_spec(e.0@)))
}

/// The signed names of each peer but `local`, scoped for asking `remote`.
pub open spec fn signed_prefixes(c: Seq<(PeerId, Sigrefs)>, local: Seq<u8>, remote: Seq<u8>) -> Seq<
    (Option<Seq<u8>>, Seq<u8>),
>
    decreases c.len(),
{
    if c.len() == 0 {
        Seq::empty()
    } else if c.last().0@ == local {
        signed_prefixes(c.drop_last(), local, remote)
    } else {
        signed_prefixes(c.drop_last(), local, remote) + names_scoped(
            c.last().1.refs@,
            c.last().0@,
            remote,
        )
    }
}

/// The peers of `refs`, each once, in order of first appearance.
pub open spec fn distinct_remotes(refs: Seq<FilteredRefView>) -> Seq<Seq<u8>>
    decreases refs.len(),
{
    if refs.len() == 0 {
        Seq::empty()
    } else {
        let d = distinct_remotes(refs.drop_last());
        if d.contains(refs.last().remote) {
            d
        } else {
            d.push(refs.last().remote)
        }
    }
}

/// The writes of `p`'s refs among `refs` to their remote-tracking names.
pub open spec fn directs_of(refs: Seq<FilteredRefView>, p: Seq<u8>) -> Seq<UpdateView>
    decreases refs.len(),
{
    if refs.len() == 0 {
        Seq::empty()
    } else if refs.last().remote == p {
        directs_of(refs.drop_last(), p).push(
            UpdateView::Direct {
                name: remote_tracking_spec(p, refs.last().name),
                target: refs.last().tip,
                no_ff: Policy::Allow,
            },
        )
    } else {
        directs_of(refs.drop_last(), p)
    }
}

/// The number of `Noop` updates in `us`.
pub open spec fn noop_count(us: Seq<UpdateView>) -> nat
    decreases us.len(),
{
    if us.len() == 0 {
        0
    } else {
        noop_count(us.drop_last()) + if us.last() is Noop {
            1nat
        } else {
            0nat
        }
    }
}

/// The fetch phase.
#[derive(Clone, Debug, PartialEq, Eq)]
pub struct Fetch {
    /// The local id.
    pub local_id: PeerId,
    /// The peer being fetched from.
    pub remote_id: PeerId,
    /// The signed refs describing which refs we ask for.
    pub signed_refs: Combined,
}

impl Fetch {
    pub open spec fn signed_spec(&self, p: Seq<u8>, name: Seq<u8>) -> Option<Seq<u8>> {
        match manifest_of(self.signed_refs.refs@, p) {
            Some(m) => lookup(m.refs@, name),
            None => None,
        }
    }

    pub open spec fn is_tracked_spec(&self, p: Seq<u8>) -> bool {
        has_peer(self.signed_refs.remotes@, p)
    }

    /// The `ref-prefix`es of a fetch.
    pub open spec fn prefixes_spec(&self) -> Seq<(Option<Seq<u8>>, Seq<u8>)> {
        cat_prefixes(drop_peer(pviews(self.signed_refs.remotes@), self.local_id@), self.remote_id@)
            + signed_prefixes(self.signed_refs.refs@, self.local_id@, self.remote_id@)
    }

    /// Whose ref an advertised name is: the peer under whose view it is, or
    /// the remote.
    pub open spec fn owner_of(&self, name: Seq<u8>) -> Seq<u8> {
        match parse_spec(name) {
            Some(p) => match p.remote {
                Some(x) => x,
                None => self.remote_id@,
            },
            None => self.remote_id@,
        }
    }

    /// Whether a fetch keeps a ref of this name: a `heads`, `notes` or
    /// `tags` ref of another peer, which that peer signed or which is of a
    /// peer we track.
    pub open spec fn keeps(&self, name: Seq<u8>) -> bool {
        match parse_spec(name) {
            Some(p) => {
                let owner = self.owner_of(name);
                match p.inner {
                    InnerView::Refs(cat, rest) => {
                        &&& !(cat is Unknown)
                        &&& owner != self.local_id@
                        &&& (self.is_tracked_spec(owner) || self.signed_spec(
                            owner,
                            join(seq![c_refs(), cat_bytes(cat)] + rest),
                        ) is Some)
                    },
                    InnerView::Rad(_) => false,
                }
            },
            None => false,
        }
    }

    /// What we want of a kept ref: the signed tip if its peer signed it,
    /// else the advertised tip if we track the peer.
    pub open spec fn want_of(&self, f: FilteredRefView) -> Option<Seq<u8>> {
        match self.signed_spec(f.remote, owned_spec(f.name)) {
            Some(w) => Some(w),
            None => if self.is_tracked_spec(f.remote) {
                Some(f.tip)
            } else {
                None
            },
        }
    }

    /// Whether a kept ref is fetched: something is wanted of it, and our
    /// refdb does not hold that already.
    pub open spec fn fetches(&self, db: Seq<(Vec<u8>, Oid)>, f: FilteredRefView) -> bool {
        match self.want_of(f) {
            Some(w) => lookup(db, remote_tracking_spec(f.remote, f.name)) != Some(w),
            None => false,
        }
    }

    /// The refs of `refs` that are fetched, in order.
    pub open spec fn fetched(&self, db: Seq<(Vec<u8>, Oid)>, refs: Seq<FilteredRefView>) -> Seq<
        FilteredRefView,
    >
        decreases refs.len(),
    {
        if refs.len() == 0 {
            Seq::empty()
        } else if self.fetches(db, refs.last()) {
            self.fetched(db, refs.drop_last()).push(refs.last())
        } else {
            self.fetched(db, refs.drop_last())
        }
    }

    /// The transaction for `p`: its refs written, then, if it signed refs,
    /// a `Noop` pinning its `rad/signed_refs` at the blob they came from.
    pub open spec fn group_spec(&self, refs: Seq<FilteredRefView>, p: Seq<u8>) -> Seq<UpdateView> {
        directs_of(refs, p) + match manifest_of(self.signed_refs.refs@, p) {
            Some(m) => seq![
                UpdateView::Noop {
                    name: remote_tracking_spec(p, signed_refs_name()),
                    expect: m.at@,
                },
            ],
            None => Seq::<UpdateView>::empty(),
        }
    }

    pub fn find_manifest(&self, p: &PeerId) -> (r: Option<usize>)
        ensures
            r is None ==> manifest_of(self.signed_refs.refs@, p@) is None,
            r matches Some(i) ==> i < self.signed_refs.refs@.len() && manifest_of(
                self.signed_refs.refs@,
                p@,
            ) == Some(self.signed_refs.refs@[i as int].1),
    {
        let c = &self.signed_refs.refs;
        let mut i: usize = 0;
        assert(c@.subrange(0, c@.len() as int) =~= c@);
        while i < c.len()
            invariant
                i <= c@.len(),
                c@ == self.signed_refs.refs@,
                manifest_of(c@, p@) == manifest_of(c@.subrange(i as int, c@.len() as int), p@),
            decreases c.len() - i,
        {
            let ghost rest = c@.subrange(i as int, c@.len() as int);
            assert(rest[0] == c@[i as int]);
            if c[i].0.same(p) {
                assert(manifest_of(rest, p@) == Some(rest[0].1));
                assert(manifest_of(self.signed_refs.refs@, p@) == Some(
                    self.signed_refs.refs@[i as int].1,
                ));
                return Some(i);
            }
            assert(rest.drop_first() =~= c@.subrange(i + 1, c@.len() as int));
            i = i + 1;
        }
        None
    }

    /// The tip that `id` signed for `refname`.
    fn signed(&self, id: &PeerId, refname: &[u8]) -> (r: Option<Oid>)
        ensures
            r is Some == self.signed_spec(id@, refname@) is Some,
            r is Some ==> self.signed_spec(id@, refname@) == Some(r->0@),
    {
        match self.find_manifest(id) {
            Some(i) => find_entry(&self.signed_refs.refs[i].1.refs, refname),
            None => None,
        }
    }

    pub fn is_tracked(&self, id: &PeerId) -> (r: bool)
        ensures
            r == self.is_tracked_spec(id@),
    {
        contains_peer(&self.signed_refs.remotes, id)
    }

    /// The `ref-prefix`es to send with `ls-refs`: the categories of every
    /// peer we track, then every name each peer signed; ours left out.
    pub fn ref_prefixes(&self) -> (r: Vec<Scoped>)
        ensures
            sviews(r@) == self.prefixes_spec(),
    {
        let mut r: Vec<Scoped> = Vec::new();
        let remotes = &self.signed_refs.remotes;
        let mut ps: Vec<PeerId> = Vec::new();
        let mut i: usize = 0;
        while i < remotes.len()
            invariant
                i <= remotes@.len(),
                pviews(ps@) == drop_peer(pviews(remotes@.subrange(0, i as int)), self.local_id@),
            decreases remotes.len() - i,
        {
            let ghost next = pviews(remotes@.subrange(0, i + 1));
            assert(next.drop_last() =~= pviews(remotes@.subrange(0, i as int)));
            assert(next.last() == remotes@[i as int]@);
            if !remotes[i].same(&self.local_id) {
                let ghost before = ps@;
                ps.push(remotes[i].copied());
                assert(pviews(ps@) =~= pviews(before).push(remotes@[i as int]@));
            }
            i = i + 1;
        }
        assert(remotes@.subrange(0, remotes@.len() as int) =~= remotes@);
        let mut j: usize = 0;
        while j < ps.len()
            invariant
                j <= ps@.len(),
                sviews(r@) == cat_prefixes(pviews(ps@.subrange(0, j as int)), self.remote_id@),
            decreases ps.len() - j,
        {
            let ghost next = pviews(ps@.subrange(0, j + 1));
            assert(next.drop_last() =~= pviews(ps@.subrange(0, j as int)));
            assert(next.last() == ps@[j as int]@);
            let ghost before = sviews(r@);
            proof {
                crate::refs::lemma_owned_names();
            }
            push_scoped(&mut r, scoped(&ps[j], &self.remote_id, cat_ref_prefix(&Cat::Heads).as_slice()));
            push_scoped(&mut r, scoped(&ps[j], &self.remote_id, cat_ref_prefix(&Cat::Notes).as_slice()));
            push_scoped(&mut r, scoped(&ps[j], &self.remote_id, cat_ref_prefix(&Cat::Tags).as_slice()));
            j = j + 1;
            assert(sviews(r@) =~= cat_prefixes(pviews(ps@.subrange(0, j as int)), self.remote_id@));
        }
        assert(ps@.subrange(0, ps@.len() as int) =~= ps@);
        let ghost base = sviews(r@);
        let c = &self.signed_refs.refs;
        let mut k: usize = 0;
        while k < c.len()
            invariant
                k <= c@.len(),
                sviews(r@) == base + signed_prefixes(
                    c@.subrange(0, k as int),
                    self.local_id@,
                    self.remote_id@,
                ),
            decreases c.len() - k,
        {
            let ghost pre = c@.subrange(0, k as int);
            let ghost next = c@.subrange(0, k + 1);
            assert(next.drop_last() =~= pre);
            assert(next.last() == c@[k as int]);
            if !c[k].0.same(&self.local_id) {
                let entries = &c[k].1.refs;
                let ghost mid = sviews(r@);
                let mut n: usize = 0;
                while n < entries.len()
                    invariant
                        n <= entries@.len(),
                        k < c@.len(),
                        entries@ == c@[k as int].1.refs@,
                        sviews(r@) == mid + names_scoped(
                            entries@.subrange(0, n as int),
                            c@[k as int].0@,
                            self.remote_id@,
                        ),
                    decreases entries.len() - n,
                {
                    push_scoped(&mut r, scoped(&c[k].0, &self.remote_id, entries[n].0.as_slice()));
                    n = n + 1;
                    assert(sviews(r@) =~= mid + names_scoped(
                        entries@.subrange(0, n as int),
                        c@[k as int].0@,
                        self.remote_id@,
                    ));
                }
                assert(entries@.subrange(0, entries@.len() as int) =~= entries@);
                assert(sviews(r@) =~= base + signed_prefixes(next, self.local_id@, self.remote_id@));
            }
            k = k + 1;
        }
        assert(c@.subrange(0, c@.len() as int) =~= c@);
        assert(sviews(r@) =~= self.prefixes_spec());
        r
    }
}

impl Fetch {
    /// The advertised refs this phase keeps, in order.
    pub open spec fn kept(&self, adv: Seq<AdvertisedRef>) -> Seq<FilteredRefView>
        decreases adv.len(),
    {
        if adv.len() == 0 {
            Seq::empty()
        } else if self.keeps(adv.last().name@) {
            self.kept(adv.drop_last()).push(
                FilteredRefView {
                    remote: self.owner_of(adv.last().name@),
                    name: adv.last().name@,
                    tip: adv.last().tip@,
                },
            )
        } else {
            self.kept(adv.drop_last())
        }
    }

    pub fn filter_refs(&self, adv: &Vec<AdvertisedRef>) -> (r: Vec<FilteredRef>)
        ensures
            fviews(r@) == self.kept(adv@),
    {
        let mut r: Vec<FilteredRef> = Vec::new();
        let mut i: usize = 0;
        while i < adv.len()
            invariant
                i <= adv@.len(),
                fviews(r@) == self.kept(adv@.subrange(0, i as int)),
            decreases adv.len() - i,
        {
            let ghost next = adv@.subrange(0, i + 1);
            assert(next.drop_last() =~= adv@.subrange(0, i as int));
            assert(next.last() == adv@[i as int]);
            match self.ref_filter(&adv[i]) {
                Some(f) => {
                    let ghost before = r@;
                    r.push(f);
                    assert(fviews(r@) =~= fviews(before).push(r@.last()@));
                },
                None => {},
            }
            i = i + 1;
        }
        assert(adv@.subrange(0, adv@.len() as int) =~= adv@);
        r
    }

    /// Keeps `heads`, `notes` and `tags` refs of other peers that we track
    /// or that the peer signed.
    pub fn ref_filter(&self, r: &AdvertisedRef) -> (f: Option<FilteredRef>)
        ensures
            f is Some == self.keeps(r.name@),
            f is Some ==> f->0@ == (FilteredRefView {
                remote: self.owner_of(r.name@),
                name: r.name@,
                tip: r.tip@,
            }),
    {
        let p = match parse(r.name.as_slice()) {
            Some(p) => p,
            None => return None,
        };
        let owner = match &p.remote {
            Some(x) => x.copied(),
            None => self.remote_id.copied(),
        };
        if owner.same(&self.local_id) {
            return None;
        }
        match &p.inner {
            Inner::Rad(_) => None,
            Inner::Refs(refs) => {
                match refs.cat {
                    Cat::Unknown(_) => { return None; },
                    _ => {},
                }
                let mut comps: Vec<Vec<u8>> = Vec::new();
                comps.push(crate::refs::refs_lit());
                comps.push(refs.cat.as_bytes());
                let ghost head = crate::bytes::views(comps@);
                assert(head =~= seq![c_refs(), cat_bytes(refs.cat@)]);
                let mut i: usize = 0;
                while i < refs.name.len()
                    invariant
                        i <= refs.name@.len(),
                        crate::bytes::views(comps@) == head + crate::bytes::views(
                            refs.name@,
                        ).subrange(0, i as int),
                    decreases refs.name.len() - i,
                {
                    let ghost before = comps@;
                    comps.push(crate::bytes::to_vec(refs.name[i].as_slice()));
                    assert(crate::bytes::views(comps@) =~= crate::bytes::views(before).push(
                        refs.name@[i as int]@,
                    ));
                    i = i + 1;
                    assert(crate::bytes::views(comps@) =~= head + crate::bytes::views(
                        refs.name@,
                    ).subrange(0, i as int));
                }
                assert(crate::bytes::views(refs.name@).subrange(0, refs.name@.len() as int)
                    =~= crate::bytes::views(refs.name@));
                let no_remote = crate::bytes::join_components(&comps);
                if self.is_tracked(&owner) || self.signed(&owner, no_remote.as_slice()).is_some() {
                    Some(FilteredRef::new(owner, r))
                } else {
                    None
                }
            },
        }
    }

    /// Has what our refdb holds for every kept ref; wants the advertised
    /// tip of each ref that is fetched.
    pub fn wants_haves(&self, db: &Snapshot, refs: Vec<FilteredRef>) -> (w: WantsHaves)
        ensures
            fviews(w.wanted@) == self.fetched(db.refs@, fviews(refs@)),
            oids_distinct(w.wants@),
            oids_distinct(w.haves@),
            oid_set(w.wants@) == tips(fviews(w.wanted@)),
            oid_set(w.haves@) == current_tips(db.refs@, fviews(refs@)),
    {
        let mut wanted: Vec<FilteredRef> = Vec::new();
        let mut wants: Vec<Oid> = Vec::new();
        let mut haves: Vec<Oid> = Vec::new();
        let ghost all = fviews(refs@);
        assert(oid_set(wants@) =~= tips(fviews(wanted@)));
        assert(oid_set(haves@) =~= current_tips(db.refs@, all.subrange(0, 0)));
        assert(fviews(wanted@) =~= self.fetched(db.refs@, all.subrange(0, 0)));
        let mut i: usize = 0;
        while i < refs.len()
            invariant
                i <= refs@.len(),
                all == fviews(refs@),
                oids_distinct(wants@),
                oids_distinct(haves@),
                fviews(wanted@) == self.fetched(db.refs@, all.subrange(0, i as int)),
                oid_set(wants@) == tips(fviews(wanted@)),
                oid_set(haves@) == current_tips(db.refs@, all.subrange(0, i as int)),
            decreases refs.len() - i,
        {
            let r = &refs[i];
            proof {
                lemma_current_tips_step(db.refs@, all, i as int);
                let next = all.subrange(0, i + 1);
                assert(next.drop_last() =~= all.subrange(0, i as int));
                assert(next.last() == r@);
            }
            let refname = remote_tracking(&r.remote_id, r.inner.name.as_slice());
            let have = db.refname_to_id(refname.as_slice());
            match &have {
                Some(oid) => insert_oid(&mut haves, oid),
                None => {},
            }
            let no_remote = owned(r.inner.name.as_slice());
            let want = match self.signed(&r.remote_id, no_remote.as_slice()) {
                Some(w) => Some(w),
                None => if self.is_tracked(&r.remote_id) {
                    Some(r.inner.tip.copied())
                } else {
                    None
                },
            };
            let fetch = match (&want, &have) {
                (Some(w), Some(h)) => !w.same(h),
                (Some(_), None) => true,
                (None, _) => false,
            };
            assert(fetch == self.fetches(db.refs@, r@));
            if fetch {
                let ghost before = fviews(wanted@);
                wanted.push(r.copied());
                proof {
                    let fw = fviews(wanted@);
                    assert(fw =~= before.push(r@));
                    lemma_tips_step(fw, before.len() as int);
                    assert(fw.subrange(0, before.len() as int) =~= before);
                    assert(fw.subrange(0, fw.len() as int) =~= fw);
                }
                insert_oid(&mut wants, &r.inner.tip);
            }
            i = i + 1;
        }
        assert(all.subrange(0, all.len() as int) =~= all);
        WantsHaves { wanted, wants, haves }
    }
}

pub proof fn lemma_has_peer_views(v: Seq<PeerId>, x: Seq<u8>)
    ensures
        has_peer(v, x) == pviews(v).contains(x),
{
    if has_peer(v, x) {
        let k = choose|k: int| 0 <= k < v.len() && v[k]@ == x;
        assert(pviews(v)[k] == x);
    }
    if pviews(v).contains(x) {
        let k = choose|k: int| 0 <= k < pviews(v).len() && pviews(v)[k] == x;
        assert(v[k]@ == x);
    }
}

impl Fetch {
    /// The writes of the refs of `p` to their remote-tracking names.
    fn directs(&self, refs: &Vec<FilteredRef>, p: &PeerId) -> (r: Vec<Update>)
        ensures
            uviews(r@) == directs_of(fviews(refs@), p@),
    {
        let mut g: Vec<Update> = Vec::new();
        let ghost all = fviews(refs@);
        let mut j: usize = 0;
        while j < refs.len()
            invariant
                j <= refs@.len(),
                all == fviews(refs@),
                uviews(g@) == directs_of(all.subrange(0, j as int), p@),
            decreases refs.len() - j,
        {
            let r = &refs[j];
            let ghost next = all.subrange(0, j + 1);
            assert(next.drop_last() =~= all.subrange(0, j as int));
            assert(next.last() == r@);
            if r.remote_id.same(p) {
                let ghost before = g@;
                g.push(
                    Update::Direct {
                        name: remote_tracking(p, r.inner.name.as_slice()),
                        target: r.inner.tip.copied(),
                        no_ff: Policy::Allow,
                    },
                );
                assert(uviews(g@) =~= uviews(before).push(g@.last()@));
            }
            j = j + 1;
        }
        assert(all.subrange(0, all.len() as int) =~= all);
        g
    }

    /// A fetch may ask for only part of the refs, so no layout error can be
    /// told from the advertised refs alone.
    pub fn pre_validate(&self, refs: &Vec<FilteredRef>) -> (r: Result<(), crate::peek::Layout>)
        ensures
            r is Ok,
    {
        Ok(())
    }

    /// A kept ref is of a well-formed peer other than us, and that peer is
    /// tracked or signed refs.
    pub proof fn lemma_kept(&self, name: Seq<u8>)
        requires
            self.keeps(name),
            self.remote_id.wf(),
        ensures
            crate::refs::peer_text_ok(self.owner_of(name)),
            self.owner_of(name) != self.local_id@,
            self.is_tracked_spec(self.owner_of(name)) || manifest_of(
                self.signed_refs.refs@,
                self.owner_of(name),
            ) is Some,
    {
    }

    /// One transaction per peer, in order of first appearance: the peer's
    /// refs written, and its signed refs pinned where it has any.
    pub fn prepare(&self, refs: &Vec<FilteredRef>) -> (r: Vec<Vec<Update>>)
        requires
            forall|k: int|
                0 <= k < refs@.len() ==> self.is_tracked_spec((#[trigger] refs@[k])@.remote)
                    || manifest_of(self.signed_refs.refs@, refs@[k]@.remote) is Some,
        ensures
            r@.len() == distinct_remotes(fviews(refs@)).len(),
            forall|k: int|
                0 <= k < r@.len() ==> uviews((#[trigger] r@[k])@) == self.group_spec(
                    fviews(refs@),
                    distinct_remotes(fviews(refs@))[k],
                ),
    {
        let ghost all = fviews(refs@);
        let mut ps: Vec<PeerId> = Vec::new();
        let mut i: usize = 0;
        while i < refs.len()
            invariant
                i <= refs@.len(),
                all == fviews(refs@),
                pviews(ps@) == distinct_remotes(all.subrange(0, i as int)),
            decreases refs.len() - i,
        {
            let ghost next = all.subrange(0, i + 1);
            assert(next.drop_last() =~= all.subrange(0, i as int));
            assert(next.last() == refs@[i as int]@);
            proof {
                lemma_has_peer_views(ps@, refs@[i as int]@.remote);
            }
            if !contains_peer(&ps, &refs[i].remote_id) {
                let ghost before = ps@;
                ps.push(refs[i].remote_id.copied());
                assert(pviews(ps@) =~= pviews(before).push(refs@[i as int]@.remote));
            }
            i = i + 1;
        }
        assert(all.subrange(0, all.len() as int) =~= all);
        let mut groups: Vec<Vec<Update>> = Vec::new();
        let mut k: usize = 0;
        while k < ps.len()
            invariant
                k <= ps@.len(),
                all == fviews(refs@),
                pviews(ps@) == distinct_remotes(all),
                groups@.len() == k,
                forall|m: int|
                    0 <= m < k ==> uviews((#[trigger] groups@[m])@) == self.group_spec(
                        all,
                        pviews(ps@)[m],
                    ),
            decreases ps.len() - k,
        {
            let p = &ps[k];
            let mut g = self.directs(refs, p);
            let ghost d = uviews(g@);
            match self.find_manifest(p) {
                Some(at) => {
                    g.push(
                        Update::Noop {
                            name: remote_tracking(p, signed_refs_ref().as_slice()),
                            expect: self.signed_refs.refs[at].1.at.copied(),
                        },
                    );
                    assert(uviews(g@) =~= d.push(g@.last()@));
                },
                None => {
                    assert(uviews(g@) =~= d + Seq::<UpdateView>::empty());
                },
            }
            assert(uviews(g@) =~= self.group_spec(all, pviews(ps@)[k as int]));
            groups.push(g);
            k = k + 1;
        }
        groups
    }
}

pub proof fn lemma_directs_no_noop(refs: Seq<FilteredRefView>, p: Seq<u8>)
    ensures
        noop_count(directs_of(refs, p)) == 0,
        forall|i: int|
            0 <= i < directs_of(refs, p).len() ==> exists|k: int|
                0 <= k < refs.len() && refs[k].remote == p && update_name(
                    #[trigger] directs_of(refs, p)[i],
                ) == remote_tracking_spec(p, refs[k].name),
    decreases refs.len(),
{
    if refs.len() > 0 {
        let init = refs.drop_last();
        lemma_directs_no_noop(init, p);
        let d = directs_of(init, p);
        if refs.last().remote == p {
            let x = UpdateView::Direct {
                name: remote_tracking_spec(p, refs.last().name),
                target: refs.last().tip,
                no_ff: Policy::Allow,
            };
            assert(d.push(x).drop_last() =~= d);
            assert forall|i: int| 0 <= i < d.push(x).len() implies exists|k: int|
                0 <= k < refs.len() && refs[k].remote == p && update_name(
                    #[trigger] d.push(x)[i],
                ) == remote_tracking_spec(p, refs[k].name) by {
                if i < d.len() {
                    let k = choose|k: int|
                        0 <= k < init.len() && init[k].remote == p && update_name(d[i])
                            == remote_tracking_spec(p, init[k].name);
                    assert(refs[k] == init[k]);
                } else {
                    assert(refs[refs.len() - 1] == refs.last());
                }
            }
        } else {
            assert forall|i: int| 0 <= i < d.len() implies exists|k: int|
                0 <= k < refs.len() && refs[k].remote == p && update_name(#[trigger] d[i])
                    == remote_tracking_spec(p, refs[k].name) by {
                let k = choose|k: int|
                    0 <= k < init.len() && init[k].remote == p && update_name(d[i])
                        == remote_tracking_spec(p, init[k].name);
                assert(refs[k] == init[k]);
            }
        }
    }
}

/// In the fetch transaction of a peer that signed refs, exactly one update
/// is a `Noop`, and it pins the peer's `rad/signed_refs` at the blob its
/// signed refs were loaded from.
pub proof fn lemma_group_pins_signed_refs(f: Fetch, refs: Seq<FilteredRefView>, p: Seq<u8>)
    requires
        manifest_of(f.signed_refs.refs@, p) is Some,
    ensures
        noop_count(f.group_spec(refs, p)) == 1,
        f.group_spec(refs, p).last() == (UpdateView::Noop {
            name: remote_tracking_spec(p, signed_refs_name()),
            expect: manifest_of(f.signed_refs.refs@, p)->0.at@,
        }),
{
    lemma_directs_no_noop(refs, p);
    let g = f.group_spec(refs, p);
    assert(g.drop_last() =~= directs_of(refs, p));
}

pub proof fn lemma_distinct_remotes_from(refs: Seq<FilteredRefView>)
    ensures
        forall|i: int|
            0 <= i < distinct_remotes(refs).len() ==> exists|k: int|
                0 <= k < refs.len() && refs[k].remote == #[trigger] distinct_remotes(refs)[i],
    decreases refs.len(),
{
    if refs.len() > 0 {
        let init = refs.drop_last();
        lemma_distinct_remotes_from(init);
        let d = distinct_remotes(init);
        assert forall|i: int| 0 <= i < distinct_remotes(refs).len() implies exists|k: int|
            0 <= k < refs.len() && refs[k].remote == #[trigger] distinct_remotes(refs)[i] by {
            if i < d.len() {
                assert(distinct_remotes(refs)[i] == d[i]);
                let k = choose|k: int| 0 <= k < init.len() && init[k].remote == d[i];
                assert(refs[k] == init[k]);
            } else {
                assert(refs[refs.len() - 1].remote == distinct_remotes(refs)[i]);
            }
        }
    }
}

/// Every fetch update is under the view of the peer whose transaction it is
/// in, and with refs of other peers than us, that is never our own.
pub proof fn lemma_fetch_updates_not_local(f: Fetch, refs: Seq<FilteredRefView>)
    requires
        forall|k: int|
            0 <= k < refs.len() ==> crate::refs::peer_text_ok((#[trigger] refs[k]).remote)
                && refs[k].remote != f.local_id@,
    ensures
        forall|k: int, i: int|
            0 <= k < distinct_remotes(refs).len() && 0 <= i < f.group_spec(
                refs,
                distinct_remotes(refs)[k],
            ).len() ==> crate::refs::ref_remote(
                update_name(#[trigger] f.group_spec(refs, distinct_remotes(refs)[k])[i]),
            ) == Some(distinct_remotes(refs)[k]) && distinct_remotes(refs)[k] != f.local_id@,
{
    lemma_distinct_remotes_from(refs);
    assert forall|k: int, i: int|
        0 <= k < distinct_remotes(refs).len() && 0 <= i < f.group_spec(
            refs,
            distinct_remotes(refs)[k],
        ).len() implies crate::refs::ref_remote(
        update_name(#[trigger] f.group_spec(refs, distinct_remotes(refs)[k])[i]),
    ) == Some(distinct_remotes(refs)[k]) && distinct_remotes(refs)[k] != f.local_id@ by {
        let p = distinct_remotes(refs)[k];
        let j = choose|j: int| 0 <= j < refs.len() && refs[j].remote == p;
        assert(crate::refs::peer_text_ok(refs[j].remote));
        lemma_directs_no_noop(refs, p);
        let d = directs_of(refs, p);
        let g = f.group_spec(refs, p);
        if i < d.len() {
            assert(g[i] == d[i]);
            let m = choose|m: int|
                0 <= m < refs.len() && refs[m].remote == p && update_name(d[i])
                    == remote_tracking_spec(p, refs[m].name);
            crate::refs::lemma_remote_tracking_remote(p, refs[m].name);
        } else {
            crate::refs::lemma_remote_tracking_remote(p, signed_refs_name());
        }
    }
}

/// When our refdb already holds what is wanted of every kept ref, a fetch
/// keeps no ref for updating and so prepares no transaction.
pub proof fn lemma_fetch_nothing_new(f: Fetch, db: Seq<(Vec<u8>, Oid)>, refs: Seq<FilteredRefView>)
    requires
        forall|k: int| 0 <= k < refs.len() ==> !f.fetches(db, #[trigger] refs[k]),
    ensures
        f.fetched(db, refs).len() == 0,
        distinct_remotes(f.fetched(db, refs)).len() == 0,
    decreases refs.len(),
{
    if refs.len() > 0 {
        let init = refs.drop_last();
        assert forall|k: int| 0 <= k < init.len() implies !f.fetches(db, #[trigger] init[k]) by {
            assert(init[k] == refs[k]);
        }
        lemma_fetch_nothing_new(f, db, init);
        assert(!f.fetches(db, refs[refs.len() - 1]));
    }
    assert(f.fetched(db, refs) =~= Seq::<FilteredRefView>::empty());
}

/// A peer whose signed refs must be loaded had none.
#[derive(Clone, Debug, PartialEq, Eq)]
pub struct MissingSigrefs {
    pub peer: PeerId,
}

/// The loaded signed refs among `loaded`, in order.
pub open spec fn loaded_of(loaded: Seq<(PeerId, Option<Sigrefs>)>) -> Seq<(Seq<u8>, Sigrefs)>
    decreases loaded.len(),
{
    if loaded.len() == 0 {
        Seq::empty()
    } else {
        let l = loaded_of(loaded.drop_last());
        match loaded.last().1 {
            Some(m) => l.push((loaded.last().0@, m)),
            None => l,
        }
    }
}

/// Whether one of the signed refs in `c` tracks `p`.
pub open spec fn tracked_by_any(c: Seq<(PeerId, Sigrefs)>, p: Seq<u8>) -> bool {
    exists|k: int| 0 <= k < c.len() && has_peer((#[trigger] c[k]).1.remotes@, p)
}

pub open spec fn cviews(c: Seq<(PeerId, Sigrefs)>) -> Seq<(Seq<u8>, Sigrefs)> {
    c.map_values(|e: (PeerId, Sigrefs)| (e.0@, e.1))
}

/// Moves the loaded signed refs of `from` to the end of `out`.
fn push_loaded(out: &mut Vec<(PeerId, Sigrefs)>, from: Vec<(PeerId, Option<Sigrefs>)>)
    ensures
        cviews(final(out)@) == cviews(old(out)@) + loaded_of(from@),
{
    let ghost orig = from@;
    let n: usize = from.len();
    let mut rest = from;
    let mut k: usize = 0;
    assert(orig.subrange(0, 0) =~= Seq::<(PeerId, Option<Sigrefs>)>::empty());
    assert(orig.subrange(0, orig.len() as int) =~= orig);
    while rest.len() > 0
        invariant
            k <= orig.len(),
            orig.len() == n,
            rest@ == orig.subrange(k as int, orig.len() as int),
            cviews(out@) == cviews(old(out)@) + loaded_of(orig.subrange(0, k as int)),
        decreases rest.len(),
    {
        let ghost next = orig.subrange(0, k + 1);
        assert(next.drop_last() =~= orig.subrange(0, k as int));
        assert(next.last() == orig[k as int]);
        assert(rest@[0] == orig[k as int]);
        let (peer, loaded) = rest.remove(0);
        match loaded {
            Some(m) => {
                let ghost before = out@;
                out.push((peer, m));
                assert(cviews(out@) =~= cviews(before).push((orig[k as int].0@, orig[k as int].1->0)));
            },
            None => {},
        }
        k = k + 1;
        assert(rest@ =~= orig.subrange(k as int, orig.len() as int));
    }
}

/// Combines the signed refs loaded for the peers that must have them and
/// for those that may: a `must` peer without any fails; the `may` peers
/// without any are left out. The remotes are every peer that one of them
/// tracks, each once.
pub fn combined(
    must: Vec<(PeerId, Option<Sigrefs>)>,
    may: Vec<(PeerId, Option<Sigrefs>)>,
) -> (r: Result<Combined, MissingSigrefs>)
    ensures
        r is Err == exists|k: int| 0 <= k < must@.len() && (#[trigger] must@[k]).1 is None,
        r matches Err(e) ==> exists|k: int|
            0 <= k < must@.len() && (#[trigger] must@[k]).1 is None && must@[k].0@ == e.peer@,
        r matches Ok(c) ==> cviews(c.refs@) == loaded_of(must@) + loaded_of(may@)
            && crate::internal::peers_distinct(c.remotes@) && forall|p: Seq<u8>|
            has_peer(c.remotes@, p) == tracked_by_any(c.refs@, p),
{
    let mut i: usize = 0;
    while i < must.len()
        invariant
            i <= must@.len(),
            forall|k: int| 0 <= k < i ==> (#[trigger] must@[k]).1 is Some,
        decreases must.len() - i,
    {
        if must[i].1.is_none() {
            return Err(MissingSigrefs { peer: must[i].0.copied() });
        }
        i = i + 1;
    }
    let mut refs: Vec<(PeerId, Sigrefs)> = Vec::new();
    assert(cviews(refs@) =~= Seq::<(Seq<u8>, Sigrefs)>::empty());
    push_loaded(&mut refs, must);
    push_loaded(&mut refs, may);
    let mut remotes: Vec<PeerId> = Vec::new();
    let mut k: usize = 0;
    while k < refs.len()
        invariant
            k <= refs@.len(),
            crate::internal::peers_distinct(remotes@),
            forall|p: Seq<u8>|
                has_peer(remotes@, p) == tracked_by_any(refs@.subrange(0, k as int), p),
        decreases refs.len() - k,
    {
        let rs = &refs[k].1.remotes;
        let mut j: usize = 0;
        while j < rs.len()
            invariant
                k < refs@.len(),
                rs@ == refs@[k as int].1.remotes@,
                j <= rs@.len(),
                crate::internal::peers_distinct(remotes@),
                forall|p: Seq<u8>|
                    has_peer(remotes@, p) == (tracked_by_any(refs@.subrange(0, k as int), p)
                        || has_peer(rs@.subrange(0, j as int), p)),
            decreases rs.len() - j,
        {
            let ghost before = remotes@;
            if !contains_peer(&remotes, &rs[j]) {
                remotes.push(rs[j].copied());
            }
            proof {
                assert forall|p: Seq<u8>| has_peer(remotes@, p) == (tracked_by_any(
                    refs@.subrange(0, k as int),
                    p,
                ) || has_peer(rs@.subrange(0, j + 1), p)) by {
                    let a = rs@.subrange(0, j as int);
                    let b = rs@.subrange(0, j + 1);
                    assert(b[j as int] == rs@[j as int]);
                    if remotes@.len() > before.len() {
                        assert(remotes@[before.len() as int]@ == rs@[j as int]@);
                    }
                    if has_peer(b, p) {
                        let m = choose|m: int| 0 <= m < b.len() && (#[trigger] b[m])@ == p;
                        if m < j {
                            assert(a[m] == b[m]);
                        }
                    }
                    if has_peer(a, p) {
                        let m = choose|m: int| 0 <= m < a.len() && (#[trigger] a[m])@ == p;
                        assert(b[m] == a[m]);
                    }
                    if has_peer(remotes@, p) {
                        let m = choose|m: int| 0 <= m < remotes@.len() && (#[trigger] remotes@[m])@ == p;
                        if m < before.len() {
                            assert(before[m] == remotes@[m]);
                        }
                    }
                    if has_peer(before, p) {
                        let m = choose|m: int| 0 <= m < before.len() && (#[trigger] before[m])@ == p;
                        assert(remotes@[m] == before[m]);
                    }
                }
            }
            j = j + 1;
        }
        proof {
            assert(rs@.subrange(0, rs@.len() as int) =~= rs@);
            assert forall|p: Seq<u8>| tracked_by_any(refs@.subrange(0, k + 1), p) == (tracked_by_any(
                refs@.subrange(0, k as int),
                p,
            ) || has_peer(rs@, p)) by {
                let a = refs@.subrange(0, k as int);
                let b = refs@.subrange(0, k + 1);
                assert(b[k as int] == refs@[k as int]);
                if tracked_by_any(b, p) {
                    let m = choose|m: int| 0 <= m < b.len() && has_peer((#[trigger] b[m]).1.remotes@, p);
                    if m < k {
                        assert(a[m] == b[m]);
                    }
                }
                if tracked_by_any(a, p) {
                    let m = choose|m: int| 0 <= m < a.len() && has_peer((#[trigger] a[m]).1.remotes@, p);
                    assert(b[m] == a[m]);
                }
            }
        }
        k = k + 1;
    }
    assert(refs@.subrange(0, refs@.len() as int) =~= refs@);
    Ok(Combined { refs, remotes })
}

} // verus!
