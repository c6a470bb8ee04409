//! The decisions of a pull and a clone: whom to track, whether the local
//! `rad/id` may advance, what the local `rad` refs become, what a
//! replication reports, and what looks wrong after it.
use vstd::prelude::*;

use crate::bytes::{bytes_eq, join, split, split_components, views};
use crate::fetch::{Combined, Sigrefs};
use crate::for_fetch::drop_peer;
use crate::peek::pviews;
use crate::refs::{
    Identity,
    Oid,
    PeerId,
    c_id,
    c_ids,
    c_rad,
    c_refs,
    is_utf8,
    rad_id_name,
    rad_id_ref,
    rad_self_name,
    rad_self_ref,
    ref_remote,
    remote_tracking,
    remote_tracking_spec,
    signed_refs_name,
    signed_refs_ref,
};
use crate::transmit::{
    Applied,
    Namespaced,
    Policy,
    Snapshot,
    SymrefTarget,
    Update,
    UpdateView,
    Updated,
    contains_peer,
    has_peer,
    lookup,
    uviews,
};

verus! {

/// Replicating from ourselves is refused before any network I/O.
#[derive(Clone, Debug, PartialEq, Eq)]
pub enum Error {
    SelfReplication,
    /// A pull needs the URN's `rad/id`, which we do not hold.
    MissingRadId,
    /// A clone found no `rad/id` of the remote among the peeked refs.
    MissingRemoteRadId,
}

/// Refuses to replicate from ourselves.
pub fn check_remote(local_id: &PeerId, remote_id: &PeerId) -> (r: Result<(), Error>)
    ensures
        r is Ok == (local_id@ != remote_id@),
        r is Err ==> r == Err::<(), Error>(Error::SelfReplication),
{
    if local_id.same(remote_id) {
        Err(Error::SelfReplication)
    } else {
        Ok(())
    }
}

/// An identity document, verified: its content id, its revision, the keys it
/// delegates to (indirect delegations resolved), and the URNs of its
/// indirect delegates.
#[derive(Clone, Debug, PartialEq, Eq)]
pub struct VerifiedIdentity {
    pub content_id: Oid,
    pub revision: Oid,
    pub delegate_ids: Vec<PeerId>,
    pub delegate_urns: Vec<Identity>,
}

/// The local peer's own identity: `rad/self` is pointed at `tip`.
#[derive(Clone, Debug, PartialEq, Eq)]
pub struct LocalIdentity {
    pub tip: Oid,
}

/// The peers in any of `sets`.
pub open spec fn in_any(sets: Seq<Vec<PeerId>>, p: Seq<u8>) -> bool {
    exists|k: int| 0 <= k < sets.len() && has_peer(#[trigger] sets[k]@, p)
}

/// No peer occurs twice in `v`.
pub open spec fn peers_distinct(v: Seq<PeerId>) -> bool {
    forall|a: int, b: int| 0 <= a < b < v.len() ==> v[a]@ != v[b]@
}

/// The peers to fetch besides the delegates: those tracked for any URN,
/// those tracked for this URN, and those that delegates' signed refs track,
/// leaving out the delegates and ourselves.
pub fn tracked_peers(
    local_id: &PeerId,
    delegates: &Vec<PeerId>,
    sources: &Vec<Vec<PeerId>>,
) -> (r: Vec<PeerId>)
    ensures
        peers_distinct(r@),
        forall|p: Seq<u8>|
            has_peer(r@, p) == (in_any(sources@, p) && !has_peer(delegates@, p) && p != local_id@),
{
    let mut r: Vec<PeerId> = Vec::new();
    let mut s: usize = 0;
    while s < sources.len()
        invariant
            s <= sources@.len(),
            peers_distinct(r@),
            forall|p: Seq<u8>|
                has_peer(r@, p) == (in_any(sources@.subrange(0, s as int), p) && !has_peer(
                    delegates@,
                    p,
                ) && p != local_id@),
        decreases sources.len() - s,
    {
        let src = &sources[s];
        let mut i: usize = 0;
        while i < src.len()
            invariant
                s < sources@.len(),
                src@ == sources@[s as int]@,
                i <= src@.len(),
                peers_distinct(r@),
                forall|p: Seq<u8>|
                    has_peer(r@, p) == ((in_any(sources@.subrange(0, s as int), p) || has_peer(
                        src@.subrange(0, i as int),
                        p,
                    )) && !has_peer(delegates@, p) && p != local_id@),
            decreases src.len() - i,
        {
            let p = &src[i];
            let ghost before = r@;
            if !p.same(local_id) && !contains_peer(delegates, p) && !contains_peer(&r, p) {
                r.push(p.copied());
                assert(r@.last()@ == p@);
            }
            proof {
                assert forall|q: Seq<u8>| has_peer(r@, q) == ((in_any(
                    sources@.subrange(0, s as int),
                    q,
                ) || has_peer(src@.subrange(0, i + 1), q)) && !has_peer(delegates@, q) && q
                    != local_id@) by {
                    if has_peer(src@.subrange(0, i + 1), q) {
                        let k = choose|k: int| 0 <= k < src@.subrange(0, i + 1).len() && (#[trigger] src@.subrange(0, i + 1)[k])@ == q;
                        if k < i {
                            assert(src@.subrange(0, i as int)[k]@ == q);
                        }
                    }
                    if has_peer(src@.subrange(0, i as int), q) {
                        let k = choose|k: int| 0 <= k < src@.subrange(0, i as int).len() && (#[trigger] src@.subrange(0, i as int)[k])@ == q;
                        assert(src@.subrange(0, i + 1)[k]@ == q);
                    }
                    assert(src@.subrange(0, i + 1)[i as int] == src@[i as int]);
                    if has_peer(r@, q) {
                        let k = choose|k: int| 0 <= k < r@.len() && (#[trigger] r@[k])@ == q;
                        if k < before.len() {
                            assert(before[k]@ == q);
                        }
                    }
                    if has_peer(before, q) {
                        let k = choose|k: int| 0 <= k < before.len() && (#[trigger] before[k])@ == q;
                        assert(r@[k]@ == q);
                    }
                }
            }
            i = i + 1;
        }
        proof {
            assert(src@.subrange(0, src@.len() as int) =~= src@);
            assert forall|q: Seq<u8>| in_any(sources@.subrange(0, s + 1), q) == (in_any(
                sources@.subrange(0, s as int),
                q,
            ) || has_peer(src@, q)) by {
                if in_any(sources@.subrange(0, s + 1), q) {
                    let k = choose|k: int|
                        0 <= k < s + 1 && has_peer(#[trigger] sources@.subrange(0, s + 1)[k]@, q);
                    if k < s {
                        assert(sources@.subrange(0, s as int)[k] == sources@[k]);
                    }
                }
                if in_any(sources@.subrange(0, s as int), q) {
                    let k = choose|k: int|
                        0 <= k < s && has_peer(#[trigger] sources@.subrange(0, s as int)[k]@, q);
                    assert(sources@.subrange(0, s + 1)[k] == sources@[k]);
                }
                if has_peer(src@, q) {
                    assert(sources@.subrange(0, s + 1)[s as int] == sources@[s as int]);
                }
            }
        }
        s = s + 1;
    }
    assert(sources@.subrange(0, sources@.len() as int) =~= sources@);
    r
}

/// The delegates other than ourselves: those whose identity branches are
/// compared to find the newest.
pub fn other_delegates(local_id: &PeerId, delegates: &Vec<PeerId>) -> (r: Vec<PeerId>)
    ensures
        pviews(r@) == drop_peer(pviews(delegates@), local_id@),
{
    let mut r: Vec<PeerId> = Vec::new();
    let mut i: usize = 0;
    while i < delegates.len()
        invariant
            i <= delegates@.len(),
            pviews(r@) == drop_peer(pviews(delegates@.subrange(0, i as int)), local_id@),
        decreases delegates.len() - i,
    {
        let ghost next = pviews(delegates@.subrange(0, i + 1));
        assert(next.drop_last() =~= pviews(delegates@.subrange(0, i as int)));
        assert(next.last() == delegates@[i as int]@);
        if !delegates[i].same(local_id) {
            let ghost before = r@;
            r.push(delegates[i].copied());
            assert(pviews(r@) =~= pviews(before).push(delegates@[i as int]@));
        }
        i = i + 1;
    }
    assert(delegates@.subrange(0, delegates@.len() as int) =~= delegates@);
    r
}

/// Whether our `rad/id` must be compared with theirs: it exists, delegates
/// to us, and is at another revision.
pub open spec fn must_compare_spec(
    local: Seq<u8>,
    ours: Option<VerifiedIdentity>,
    theirs: VerifiedIdentity,
) -> bool {
    ours matches Some(o) && has_peer(o.delegate_ids@, local) && o.revision@ != theirs.revision@
}

pub fn must_compare(local_id: &PeerId, ours: &Option<VerifiedIdentity>, theirs: &VerifiedIdentity) -> (r:
    bool)
    ensures
        r == must_compare_spec(local_id@, *ours, *theirs),
{
    match ours {
        Some(o) => contains_peer(&o.delegate_ids, local_id) && !o.revision.same(&theirs.revision),
        None => false,
    }
}

/// Our `rad/id` is behind the delegates' newest identity, and we are a
/// delegate: advancing it needs our confirmation.
#[derive(Clone, Debug, PartialEq, Eq)]
pub enum OwnRad {
    ConfirmationRequired,
}

/// `refs/rad/ids/<urn>`
pub open spec fn rad_ids_name(urn: Seq<u8>) -> Seq<u8> {
    join(seq![c_refs(), c_rad(), c_ids(), urn])
}

/// The updates that set up our `rad` refs for `newest`: a symbolic
/// `rad/ids/<urn>` per delegate URN to that URN's `rad/id` at the
/// delegate's content id, `rad/self` at our own identity if given, and last
/// `rad/id` at `newest`'s content id.
pub open spec fn rad_updates_spec(
    newest: Seq<u8>,
    delegates: Seq<(Identity, Oid)>,
    whoami: Option<LocalIdentity>,
) -> Seq<UpdateView> {
    delegates.map_values(
        |d: (Identity, Oid)|
            UpdateView::Symbolic {
                name: rad_ids_name(d.0@),
                namespace: Some(d.0@),
                refname: rad_id_name(),
                target: d.1@,
                type_change: Policy::Allow,
            },
    ) + match whoami {
        Some(w) => seq![UpdateView::Direct { name: rad_self_name(), target: w.tip@, no_ff: Policy::Reject }],
        None => Seq::<UpdateView>::empty(),
    } + seq![UpdateView::Direct { name: rad_id_name(), target: newest, no_ff: Policy::Reject }]
}

/// What `setup_rad` decides: confirmation is required if ours is compared
/// and the newer one is not ours; else the updates for the chosen identity,
/// ours if it was compared and is newer, theirs otherwise.
pub open spec fn setup_rad_spec(
    local: Seq<u8>,
    ours: Option<VerifiedIdentity>,
    theirs: VerifiedIdentity,
    newer_content_id: Option<Oid>,
    delegates: Seq<(Identity, Oid)>,
    whoami: Option<LocalIdentity>,
) -> Result<Seq<UpdateView>, OwnRad> {
    if must_compare_spec(local, ours, theirs) {
        if newer_content_id->0@ != ours->0.content_id@ {
            Err(OwnRad::ConfirmationRequired)
        } else {
            Ok(rad_updates_spec(ours->0.content_id@, delegates, whoami))
        }
    } else {
        Ok(rad_updates_spec(theirs.content_id@, delegates, whoami))
    }
}

/// The identity whose content `rad/id` is to point at: ours if it must be
/// compared and the newer one is ours, theirs if it need not be compared.
/// `newer_content_id` is the newer one's content id, given exactly when
/// they must be compared.
pub fn choose_newest(
    local_id: &PeerId,
    ours: Option<VerifiedIdentity>,
    theirs: VerifiedIdentity,
    newer_content_id: Option<Oid>,
) -> (r: Result<VerifiedIdentity, OwnRad>)
    requires
        newer_content_id is Some == must_compare_spec(local_id@, ours, theirs),
    ensures
        must_compare_spec(local_id@, ours, theirs) && newer_content_id->0@ != ours->0.content_id@
            ==> r == Err::<VerifiedIdentity, OwnRad>(OwnRad::ConfirmationRequired),
        must_compare_spec(local_id@, ours, theirs) && newer_content_id->0@ == ours->0.content_id@
            ==> r == Ok::<VerifiedIdentity, OwnRad>(ours->0),
        !must_compare_spec(local_id@, ours, theirs) ==> r == Ok::<VerifiedIdentity, OwnRad>(theirs),
{
    let compare = must_compare(local_id, &ours, &theirs);
    if compare {
        let o = match ours {
            Some(o) => o,
            None => { return Err(OwnRad::ConfirmationRequired); },
        };
        let newer = match newer_content_id {
            Some(n) => n,
            None => { return Err(OwnRad::ConfirmationRequired); },
        };
        if !newer.same(&o.content_id) {
            return Err(OwnRad::ConfirmationRequired);
        }
        Ok(o)
    } else {
        Ok(theirs)
    }
}

fn rad_ids_ref(urn: &Identity) -> (r: Vec<u8>)
    ensures
        r@ == rad_ids_name(urn@),
{
    let v = vec![crate::refs::refs_lit(), crate::refs::rad_lit(), crate::refs::ids_lit(), urn.encode_id()];
    assert(views(v@) =~= seq![c_refs(), c_rad(), c_ids(), urn@]);
    crate::bytes::join_components(&v)
}

/// Decides our `rad` refs after a peek. `newer_content_id` is the content
/// id of the newer of ours and theirs, asked of the identities only when
/// they must be compared; `delegates` pairs each of the chosen identity's
/// delegate URNs with the content id that URN verified at.
pub fn setup_rad(
    local_id: &PeerId,
    ours: Option<VerifiedIdentity>,
    theirs: VerifiedIdentity,
    newer_content_id: Option<Oid>,
    delegates: &Vec<(Identity, Oid)>,
    whoami: &Option<LocalIdentity>,
) -> (r: Result<Vec<Update>, OwnRad>)
    requires
        newer_content_id is Some == must_compare_spec(local_id@, ours, theirs),
    ensures
        r is Ok == setup_rad_spec(local_id@, ours, theirs, newer_content_id, delegates@, *whoami) is Ok,
        r matches Ok(ups) ==> setup_rad_spec(local_id@, ours, theirs, newer_content_id, delegates@, *whoami)
            == Ok::<Seq<UpdateView>, OwnRad>(uviews(ups@)),
        r is Err ==> r == Err::<Vec<Update>, OwnRad>(OwnRad::ConfirmationRequired),
{
    let newest = choose_newest(local_id, ours, theirs, newer_content_id)?;
    Ok(rad_updates(&newest.content_id, delegates, whoami))
}

/// The updates that set up our `rad` refs, `rad/id` last, at `newest`.
pub fn rad_updates(newest: &Oid, delegates: &Vec<(Identity, Oid)>, whoami: &Option<LocalIdentity>) -> (r:
    Vec<Update>)
    ensures
        uviews(r@) == rad_updates_spec(newest@, delegates@, *whoami),
{
    let mut up: Vec<Update> = Vec::new();
    let mut i: usize = 0;
    let ghost syms = delegates@.map_values(
        |d: (Identity, Oid)|
            UpdateView::Symbolic {
                name: rad_ids_name(d.0@),
                namespace: Some(d.0@),
                refname: rad_id_name(),
                target: d.1@,
                type_change: Policy::Allow,
            },
    );
    while i < delegates.len()
        invariant
            i <= delegates@.len(),
            syms.len() == delegates@.len(),
            forall|k: int| 0 <= k < syms.len() ==> #[trigger] syms[k] == (UpdateView::Symbolic {
                name: rad_ids_name(delegates@[k].0@),
                namespace: Some(delegates@[k].0@),
                refname: rad_id_name(),
                target: delegates@[k].1@,
                type_change: Policy::Allow,
            }),
            uviews(up@) == syms.subrange(0, i as int),
        decreases delegates.len() - i,
    {
        let d = &delegates[i];
        let ghost before = up@;
        up.push(
            Update::Symbolic {
                name: rad_ids_ref(&d.0),
                target: SymrefTarget {
                    name: Namespaced { namespace: Some(d.0.encode_id()), refname: rad_id_ref() },
                    target: d.1.copied(),
                },
                type_change: Policy::Allow,
            },
        );
        assert(uviews(up@) =~= uviews(before).push(up@.last()@));
        i = i + 1;
        assert(uviews(up@) =~= syms.subrange(0, i as int));
    }
    assert(syms.subrange(0, syms.len() as int) =~= syms);
    let ghost mid = uviews(up@);
    match whoami {
        Some(w) => {
            up.push(Update::Direct { name: rad_self_ref(), target: w.tip.copied(), no_ff: Policy::Reject });
        },
        None => {},
    }
    let ghost mid2 = uviews(up@);
    assert(mid2 =~= mid + match *whoami {
        Some(w) => seq![UpdateView::Direct { name: rad_self_name(), target: w.tip@, no_ff: Policy::Reject }],
        None => Seq::<UpdateView>::empty(),
    });
    up.push(Update::Direct { name: rad_id_ref(), target: newest.copied(), no_ff: Policy::Reject });
    assert(uviews(up@) =~= mid2.push(up@.last()@));
    assert(uviews(up@) =~= rad_updates_spec(newest@, delegates@, *whoami));
    up
}

/// Setting up our `rad` refs either points `rad/id` at the chosen
/// identity's content id, as the last update of its transaction, or asks
/// for confirmation and writes nothing; never both.
pub proof fn lemma_rad_id_or_confirmation(
    local: Seq<u8>,
    ours: Option<VerifiedIdentity>,
    theirs: VerifiedIdentity,
    newer_content_id: Option<Oid>,
    delegates: Seq<(Identity, Oid)>,
    whoami: Option<LocalIdentity>,
)
    ensures
        match setup_rad_spec(local, ours, theirs, newer_content_id, delegates, whoami) {
            Ok(ups) => ups.last() == (UpdateView::Direct {
                name: rad_id_name(),
                target: if must_compare_spec(local, ours, theirs) {
                    ours->0.content_id@
                } else {
                    theirs.content_id@
                },
                no_ff: Policy::Reject,
            }),
            Err(e) => e == OwnRad::ConfirmationRequired && must_compare_spec(local, ours, theirs),
        },
{
}

/// Applied as one transaction, the updates of `setup_rad` leave `rad/id` at
/// the chosen content id whenever that write is not a mismatch: `rad/id`
/// is absent, already there, or fast-forwarded.
pub proof fn lemma_rad_id_lands(
    newest: Seq<u8>,
    delegates: Seq<(Identity, Oid)>,
    whoami: Option<LocalIdentity>,
    cur: Seq<Option<Seq<u8>>>,
    ff: Seq<bool>,
)
    requires
        cur.len() == rad_updates_spec(newest, delegates, whoami).len(),
        ff.len() == cur.len(),
        ({
            let i = cur.len() - 1;
            cur[i] is None || cur[i] == Some(newest) || ff[i]
        }),
    ensures
        ({
            let ups = rad_updates_spec(newest, delegates, whoami);
            let i = cur.len() - 1;
            match crate::refdb::transaction(ups, cur, ff) {
                Ok((done, rejected)) => cur[i] == Some(newest) || (done.len() > 0 && done.last()
                    == crate::refdb::UpdatedView::Direct(rad_id_name(), newest)),
                Err(_) => true,
            }
        }),
{
    let ups = rad_updates_spec(newest, delegates, whoami);
    let i = ups.len() - 1;
    assert(ups[i] == UpdateView::Direct { name: rad_id_name(), target: newest, no_ff: Policy::Reject });
    assert(ups.drop_last().len() == i);
    assert forall|k: int| 0 <= k < ups.len() implies !((#[trigger] ups[k]) is Noop) by {
        let syms = delegates.map_values(
            |d: (Identity, Oid)|
                UpdateView::Symbolic {
                    name: rad_ids_name(d.0@),
                    namespace: Some(d.0@),
                    refname: rad_id_name(),
                    target: d.1@,
                    type_change: Policy::Allow,
                },
        );
        if k < syms.len() {
            assert(ups[k] == syms[k]);
        }
    }
    assert(crate::refdb::pins_hold(ups, cur));
}

/// The trackings that setting up `rad` asks for: each key of a delegate
/// URN, for any URN and for that URN.
pub fn track_requests(urn: &Identity, delegate: &VerifiedIdentity) -> (r: Vec<(PeerId, Option<Identity>)>)
    ensures
        r@.len() == 2 * delegate.delegate_ids@.len(),
        forall|k: int|
            0 <= k < delegate.delegate_ids@.len() ==> (#[trigger] r@[2 * k]).0@
                == delegate.delegate_ids@[k]@ && r@[2 * k].1 is None && r@[2 * k + 1].0@
                == delegate.delegate_ids@[k]@ && (r@[2 * k + 1].1 is Some && r@[2 * k + 1].1->0@ == urn@),
{
    let mut r: Vec<(PeerId, Option<Identity>)> = Vec::new();
    let mut i: usize = 0;
    while i < delegate.delegate_ids.len()
        invariant
            i <= delegate.delegate_ids@.len(),
            r@.len() == 2 * i,
            forall|k: int|
                0 <= k < i ==> (#[trigger] r@[2 * k]).0@ == delegate.delegate_ids@[k]@ && r@[2
                    * k].1 is None && r@[2 * k + 1].0@ == delegate.delegate_ids@[k]@ && (r@[2 * k
                    + 1].1 is Some && r@[2 * k + 1].1->0@ == urn@),
        decreases delegate.delegate_ids.len() - i,
    {
        let id = &delegate.delegate_ids[i];
        r.push((id.copied(), None));
        r.push((id.copied(), Some(Identity::try_from_id(urn.id.as_slice()))));
        i = i + 1;
    }
    r
}

/// `namespaces`
pub open spec fn c_namespaces() -> Seq<u8> {
    seq![110u8, 97u8, 109u8, 101u8, 115u8, 112u8, 97u8, 99u8, 101u8, 115u8]
}

pub fn namespaces_lit() -> (r: Vec<u8>)
    ensures
        r@ == c_namespaces(),
{
    vec![110u8, 97u8, 109u8, 101u8, 115u8, 112u8, 97u8, 99u8, 101u8, 115u8]
}

/// The URN whose `rad/id` a symbolic ref targets, if the target is
/// `refs/namespaces/<urn>/refs/rad/id` and the URN is UTF-8.
pub open spec fn urn_of_target(t: Seq<u8>) -> Option<Seq<u8>> {
    let cs = split(t);
    if cs.len() == 6 && cs[0] == c_refs() && cs[1] == c_namespaces() && cs[3] == c_refs() && cs[4]
        == c_rad() && cs[5] == c_id() && is_utf8(cs[2]) {
        Some(cs[2])
    } else {
        None
    }
}

/// The URNs of the symbolic refs among `updated`, in order.
pub open spec fn urns_of(updated: Seq<Updated>) -> Seq<Seq<u8>>
    decreases updated.len(),
{
    if updated.len() == 0 {
        Seq::empty()
    } else {
        let u = urns_of(updated.drop_last());
        match updated.last() {
            Updated::Symbolic { target, .. } => match urn_of_target(target@) {
                Some(urn) => u.push(urn),
                None => u,
            },
            Updated::Direct { .. } => u,
        }
    }
}

fn urn_of_symref(t: &[u8]) -> (r: Option<Identity>)
    ensures
        r is Some == urn_of_target(t@) is Some,
        r is Some ==> urn_of_target(t@) == Some(r->0@),
{
    let cs = split_components(t);
    let ghost v = views(cs@);
    if cs.len() != 6 {
        return None;
    }
    assert(v[0] == cs@[0]@ && v[1] == cs@[1]@ && v[2] == cs@[2]@ && v[3] == cs@[3]@ && v[4]
        == cs@[4]@ && v[5] == cs@[5]@);
    if bytes_eq(cs[0].as_slice(), crate::refs::refs_lit().as_slice()) && bytes_eq(
        cs[1].as_slice(),
        namespaces_lit().as_slice(),
    ) && bytes_eq(cs[3].as_slice(), crate::refs::refs_lit().as_slice()) && bytes_eq(
        cs[4].as_slice(),
        crate::refs::rad_lit().as_slice(),
    ) && bytes_eq(cs[5].as_slice(), crate::refs::id_lit().as_slice()) && crate::refs::utf8_check(
        cs[2].as_slice(),
    ) {
        Some(Identity::try_from_id(cs[2].as_slice()))
    } else {
        None
    }
}

/// A warning found after a pull.
#[derive(Clone, Debug, PartialEq, Eq)]
pub enum Validation {
    /// A signed ref does not resolve to the signed tip.
    MismatchedTip { refname: Vec<u8>, expected: Oid, actual: Option<Oid> },
    /// A remote-tracking ref of a peer we do not track.
    Unexpected { refname: Vec<u8> },
    /// `rad/id` is not at the identity the pull settled on.
    RadId { expected: Oid, actual: Option<Oid> },
}

pub enum ValidationView {
    MismatchedTip { refname: Seq<u8>, expected: Seq<u8>, actual: Option<Seq<u8>> },
    Unexpected { refname: Seq<u8> },
    RadId { expected: Seq<u8>, actual: Option<Seq<u8>> },
}

impl View for Validation {
    type V = ValidationView;

    open spec fn view(&self) -> ValidationView {
        match self {
            Validation::MismatchedTip { refname, expected, actual } => ValidationView::MismatchedTip {
                refname: refname@,
                expected: expected@,
                actual: match actual {
                    Some(a) => Some(a@),
                    None => None,
                },
            },
            Validation::Unexpected { refname } => ValidationView::Unexpected { refname: refname@ },
            Validation::RadId { expected, actual } => ValidationView::RadId {
                expected: expected@,
                actual: match actual {
                    Some(a) => Some(a@),
                    None => None,
                },
            },
        }
    }
}

pub open spec fn vviews(v: Seq<Validation>) -> Seq<ValidationView> {
    v.map_values(|x: Validation| x@)
}

/// The signed refs of `peer` that our refdb does not hold at the signed tip.
pub open spec fn entry_mismatches(
    peer: Seq<u8>,
    entries: Seq<(Vec<u8>, Oid)>,
    db: Seq<(Vec<u8>, Oid)>,
) -> Seq<ValidationView>
    decreases entries.len(),
{
    if entries.len() == 0 {
        Seq::empty()
    } else {
        let m = entry_mismatches(peer, entries.drop_last(), db);
        let e = entries.last();
        let name = remote_tracking_spec(peer, e.0@);
        if lookup(db, name) == Some(e.1@) {
            m
        } else {
            m.push(
                ValidationView::MismatchedTip {
                    refname: name,
                    expected: e.1@,
                    actual: lookup(db, name),
                },
            )
        }
    }
}

pub open spec fn mismatches(c: Seq<(PeerId, Sigrefs)>, db: Seq<(Vec<u8>, Oid)>) -> Seq<
    ValidationView,
>
    decreases c.len(),
{
    if c.len() == 0 {
        Seq::empty()
    } else {
        mismatches(c.drop_last(), db) + entry_mismatches(c.last().0@, c.last().1.refs@, db)
    }
}

/// The remote-tracking refs in `db` of peers not among `remotes`.
pub open spec fn unexpected(db: Seq<(Vec<u8>, Oid)>, remotes: Seq<PeerId>) -> Seq<ValidationView>
    decreases db.len(),
{
    if db.len() == 0 {
        Seq::empty()
    } else {
        let u = unexpected(db.drop_last(), remotes);
        match ref_remote(db.last().0@) {
            Some(p) => if has_peer(remotes, p) {
                u
            } else {
                u.push(ValidationView::Unexpected { refname: db.last().0@ })
            },
            None => u,
        }
    }
}

/// The peer under whose view a name is.
pub fn name_remote(name: &[u8]) -> (r: Option<PeerId>)
    ensures
        r is Some == ref_remote(name@) is Some,
        r is Some ==> ref_remote(name@) == Some(r->0@),
{
    let cs = split_components(name);
    let ghost v = views(cs@);
    if cs.len() < 3 {
        return None;
    }
    assert(v[0] == cs@[0]@ && v[1] == cs@[1]@ && v[2] == cs@[2]@);
    if bytes_eq(cs[0].as_slice(), crate::refs::refs_lit().as_slice()) && bytes_eq(
        cs[1].as_slice(),
        crate::refs::remotes_lit().as_slice(),
    ) {
        Some(PeerId { text: crate::bytes::to_vec(cs[2].as_slice()) })
    } else {
        None
    }
}

/// A warning if `rad/id` is not at `expected`.
pub open spec fn rad_id_check(db: Seq<(Vec<u8>, Oid)>, expected: Option<Oid>) -> Seq<ValidationView> {
    match expected {
        Some(e) => if lookup(db, rad_id_name()) == Some(e@) {
            Seq::empty()
        } else {
            seq![ValidationView::RadId { expected: e@, actual: lookup(db, rad_id_name()) }]
        },
        None => Seq::empty(),
    }
}

/// Checks our refdb after a pull: every signed ref resolves to its signed
/// tip, no remote-tracking ref is of a peer we do not track, and `rad/id`
/// is at the identity the pull settled on, if it settled on one. An empty
/// result means clean.
pub fn validate(signed_refs: &Combined, db: &Snapshot, rad_id: &Option<Oid>) -> (r: Vec<Validation>)
    ensures
        vviews(r@) == mismatches(signed_refs.refs@, db.refs@) + unexpected(
            db.refs@,
            signed_refs.remotes@,
        ) + rad_id_check(db.refs@, *rad_id),
{
    let mut r: Vec<Validation> = Vec::new();
    let c = &signed_refs.refs;
    let mut k: usize = 0;
    while k < c.len()
        invariant
            k <= c@.len(),
            c@ == signed_refs.refs@,
            vviews(r@) == mismatches(c@.subrange(0, k as int), db.refs@),
        decreases c.len() - k,
    {
        let ghost next = c@.subrange(0, k + 1);
        assert(next.drop_last() =~= c@.subrange(0, k as int));
        assert(next.last() == c@[k as int]);
        let peer = &c[k].0;
        let entries = &c[k].1.refs;
        let ghost base = vviews(r@);
        let mut n: usize = 0;
        while n < entries.len()
            invariant
                n <= entries@.len(),
                k < c@.len(),
                entries@ == c@[k as int].1.refs@,
                peer@ == c@[k as int].0@,
                vviews(r@) == base + entry_mismatches(
                    peer@,
                    entries@.subrange(0, n as int),
                    db.refs@,
                ),
            decreases entries.len() - n,
        {
            let ghost sub = entries@.subrange(0, n + 1);
            assert(sub.drop_last() =~= entries@.subrange(0, n as int));
            assert(sub.last() == entries@[n as int]);
            let name = remote_tracking(peer, entries[n].0.as_slice());
            let actual = db.refname_to_id(name.as_slice());
            let matches = match &actual {
                Some(a) => a.same(&entries[n].1),
                None => false,
            };
            if !matches {
                let ghost before = r@;
                r.push(
                    Validation::MismatchedTip { refname: name, expected: entries[n].1.copied(), actual },
                );
                assert(vviews(r@) =~= vviews(before).push(r@.last()@));
            }
            n = n + 1;
        }
        assert(entries@.subrange(0, entries@.len() as int) =~= entries@);
        k = k + 1;
    }
    assert(c@.subrange(0, c@.len() as int) =~= c@);
    let ghost base = vviews(r@);
    let d = &db.refs;
    let mut i: usize = 0;
    while i < d.len()
        invariant
            i <= d@.len(),
            d@ == db.refs@,
            vviews(r@) == base + unexpected(d@.subrange(0, i as int), signed_refs.remotes@),
        decreases d.len() - i,
    {
        let ghost next = d@.subrange(0, i + 1);
        assert(next.drop_last() =~= d@.subrange(0, i as int));
        assert(next.last() == d@[i as int]);
        match name_remote(d[i].0.as_slice()) {
            Some(p) => {
                if !contains_peer(&signed_refs.remotes, &p) {
                    let ghost before = r@;
                    r.push(Validation::Unexpected { refname: crate::bytes::to_vec(d[i].0.as_slice()) });
                    assert(vviews(r@) =~= vviews(before).push(r@.last()@));
                }
            },
            None => {},
        }
        i = i + 1;
    }
    assert(d@.subrange(0, d@.len() as int) =~= d@);
    let ghost base = vviews(r@);
    match rad_id {
        Some(e) => {
            let actual = db.refname_to_id(rad_id_ref().as_slice());
            let at = match &actual {
                Some(a) => a.same(e),
                None => false,
            };
            if !at {
                r.push(Validation::RadId { expected: e.copied(), actual });
                assert(vviews(r@) =~= base.push(r@.last()@));
            }
        },
        None => {},
    }
    assert(vviews(r@) =~= base + rad_id_check(db.refs@, *rad_id));
    r
}

/// The name and target of a direct update.
pub open spec fn direct_of(u: Updated) -> Option<(Seq<u8>, Seq<u8>)> {
    match u {
        Updated::Direct { name, target } => Some((name@, target@)),
        Updated::Symbolic { .. } => None,
    }
}

/// Records the update of our own signed refs, if they changed.
pub fn record_signed_refs(applied: &mut Applied, changed: Option<Oid>)
    ensures
        final(applied).rejected@ == old(applied).rejected@,
        changed is None ==> final(applied).updated@ == old(applied).updated@,
        changed is Some ==> final(applied).updated@ == old(applied).updated@.push(
            final(applied).updated@.last(),
        ) && direct_of(final(applied).updated@.last()) == Some(
            (signed_refs_name(), changed->0@),
        ),
{
    match changed {
        Some(oid) => {
            applied.updated.push(Updated::Direct { name: signed_refs_ref(), target: oid });
        },
        None => {},
    }
}

/// The outcome of a replication.
#[derive(Clone, Debug, PartialEq, Eq)]
pub struct Success {
    pub applied: Applied,
    pub requires_confirmation: bool,
    pub validation: Vec<Validation>,
}

impl Success {
    pub fn updated_refs(&self) -> (r: &Vec<Updated>)
        ensures
            r@ == self.applied.updated@,
    {
        &self.applied.updated
    }

    pub fn rejected_updates(&self) -> (r: &Vec<Update>)
        ensures
            r@ == self.applied.rejected@,
    {
        &self.applied.rejected
    }

    /// The URNs whose `rad/id` a symbolic ref was created to.
    pub fn urns_created(&self) -> (r: Vec<Identity>)
        ensures
            r@.map_values(|i: Identity| i@) == urns_of(self.applied.updated@),
    {
        let mut r: Vec<Identity> = Vec::new();
        let up = &self.applied.updated;
        let mut i: usize = 0;
        while i < up.len()
            invariant
                i <= up@.len(),
                up@ == self.applied.updated@,
                r@.map_values(|i: Identity| i@) == urns_of(up@.subrange(0, i as int)),
            decreases up.len() - i,
        {
            let ghost next = up@.subrange(0, i + 1);
            assert(next.drop_last() =~= up@.subrange(0, i as int));
            assert(next.last() == up@[i as int]);
            match &up[i] {
                Updated::Symbolic { target, .. } => match urn_of_symref(target.as_slice()) {
                    Some(urn) => {
                        let ghost before = r@;
                        r.push(urn);
                        assert(r@.map_values(|i: Identity| i@) =~= before.map_values(
                            |i: Identity| i@,
                        ).push(r@.last()@));
                    },
                    None => {},
                },
                Updated::Direct { .. } => {},
            }
            i = i + 1;
        }
        assert(up@.subrange(0, up@.len() as int) =~= up@);
        r
    }

    pub fn requires_confirmation(&self) -> (r: bool)
        ensures
            r == self.requires_confirmation,
    {
        self.requires_confirmation
    }

    pub fn validation_errors(&self) -> (r: &Vec<Validation>)
        ensures
            r@ == self.validation@,
    {
        &self.validation
    }
}

} // verus!
