//! The decisions of a network round: which prefixes to send, which objects
//! to ask for, and which fetched refs may be handed on.
use vstd::prelude::*;

use crate::bytes::bytes_eq;
use crate::peek::bviews;
use crate::refs::{Identity, Oid, Scoped};
use crate::transmit::{FilteredRef, fviews, oid_set, oids_distinct};

verus! {

/// A connection to a remote for one URN, over a refdb and object database
/// `db` and a connection `conn`, writing packs under `git_dir`.
pub struct Network<D, C> {
    pub git_dir: String,
    pub urn: Identity,
    pub db: D,
    pub conn: C,
}

impl<D, C> Network<D, C> {
    pub fn new(db: D, conn: C, git_dir: String, urn: Identity) -> (r: Self)
        ensures
            r.db == db,
            r.conn == conn,
            r.git_dir@ == git_dir@,
            r.urn@ == urn@,
    {
        Network { git_dir, urn, db, conn }
    }
}

/// The names of `v`, as a set.
pub open spec fn name_set(v: Seq<Seq<u8>>) -> Set<Seq<u8>> {
    Set::new(|n: Seq<u8>| v.contains(n))
}

fn contains_name(v: &Vec<Vec<u8>>, n: &[u8]) -> (r: bool)
    ensures
        r == bviews(v@).contains(n@),
{
    let mut i: usize = 0;
    while i < v.len()
        invariant
            i <= v@.len(),
            forall|k: int| 0 <= k < i ==> v@[k]@ != n@,
        decreases v.len() - i,
    {
        if bytes_eq(v[i].as_slice(), n) {
            assert(bviews(v@)[i as int] == n@);
            return true;
        }
        i = i + 1;
    }
    assert forall|k: int| 0 <= k < bviews(v@).len() implies bviews(v@)[k] != n@ by {
        assert(bviews(v@)[k] == v@[k]@);
    }
    false
}

/// The `ref-prefix` names to send: each scoped prefix rendered, each name
/// once.
pub fn ref_prefix_names(prefixes: &Vec<Scoped>) -> (r: Vec<Vec<u8>>)
    ensures
        bviews(r@).no_duplicates(),
        name_set(bviews(r@)) == Set::new(
            |n: Seq<u8>| exists|k: int| 0 <= k < prefixes@.len() && (#[trigger] prefixes@[k]).refname_spec() == n,
        ),
{
    let mut r: Vec<Vec<u8>> = Vec::new();
    let mut i: usize = 0;
    while i < prefixes.len()
        invariant
            i <= prefixes@.len(),
            bviews(r@).no_duplicates(),
            forall|n: Seq<u8>| bviews(r@).contains(n) == exists|k: int| 0 <= k < i && (#[trigger] prefixes@[k]).refname_spec() == n,
        decreases prefixes.len() - i,
    {
        let name = prefixes[i].as_refname();
        let ghost before = bviews(r@);
        if !contains_name(&r, name.as_slice()) {
            r.push(name);
            assert(bviews(r@) =~= before.push(prefixes@[i as int].refname_spec()));
        }
        assert forall|n: Seq<u8>| bviews(r@).contains(n) == exists|k: int| 0 <= k < i + 1 && (#[trigger] prefixes@[k]).refname_spec() == n by {
            if bviews(r@).contains(n) && !before.contains(n) {
                assert(prefixes@[i as int].refname_spec() == n);
            }
            if exists|k: int| 0 <= k < i + 1 && (#[trigger] prefixes@[k]).refname_spec() == n {
                let k = choose|k: int| 0 <= k < i + 1 && (#[trigger] prefixes@[k]).refname_spec() == n;
                if k == i {
                    if before.contains(n) {
                        let j = choose|j: int| 0 <= j < before.len() && before[j] == n;
                        assert(bviews(r@)[j] == n);
                    } else {
                        assert(bviews(r@)[before.len() as int] == n);
                    }
                } else {
                    assert(before.contains(n));
                    let j = choose|j: int| 0 <= j < before.len() && before[j] == n;
                    assert(bviews(r@)[j] == n);
                }
            }
            if before.contains(n) {
                let j = choose|j: int| 0 <= j < before.len() && before[j] == n;
                assert(bviews(r@)[j] == n);
            }
        }
        i = i + 1;
    }
    assert(name_set(bviews(r@)) =~= Set::new(
        |n: Seq<u8>| exists|k: int| 0 <= k < prefixes@.len() && (#[trigger] prefixes@[k]).refname_spec() == n,
    ));
    r
}

fn contains_oid(v: &Vec<Oid>, o: &Oid) -> (r: bool)
    ensures
        r == oid_set(v@).contains(o@),
{
    let mut i: usize = 0;
    while i < v.len()
        invariant
            i <= v@.len(),
            forall|k: int| 0 <= k < i ==> v@[k]@ != o@,
        decreases v.len() - i,
    {
        if v[i].same(o) {
            return true;
        }
        i = i + 1;
    }
    false
}

/// The wants that are not already had. An empty result means the fetch is
/// skipped.
pub fn wants_to_send(wants: &Vec<Oid>, haves: &Vec<Oid>) -> (r: Vec<Oid>)
    requires
        oids_distinct(wants@),
    ensures
        oids_distinct(r@),
        oid_set(r@) == oid_set(wants@).difference(oid_set(haves@)),
{
    let mut r: Vec<Oid> = Vec::new();
    let mut i: usize = 0;
    while i < wants.len()
        invariant
            i <= wants@.len(),
            oids_distinct(wants@),
            oids_distinct(r@),
            forall|k: int| 0 <= k < r@.len() ==> exists|j: int| 0 <= j < i && wants@[j]@ == (#[trigger] r@[k])@,
            oid_set(r@) == oid_set(wants@.subrange(0, i as int)).difference(oid_set(haves@)),
        decreases wants.len() - i,
    {
        let ghost before = r@;
        let ghost pre = wants@.subrange(0, i as int);
        let ghost next = wants@.subrange(0, i + 1);
        if !contains_oid(haves, &wants[i]) {
            r.push(wants[i].copied());
            assert forall|a: int, b: int| 0 <= a < b < r@.len() implies r@[a]@ != r@[b]@ by {
                if b == r@.len() - 1 {
                    let j = choose|j: int| 0 <= j < i && wants@[j]@ == (#[trigger] r@[a])@;
                    assert(wants@[j]@ != wants@[i as int]@);
                }
            }
        }
        assert(oid_set(next) =~= oid_set(pre).insert(wants@[i as int]@)) by {
            assert forall|o: Seq<u8>| oid_set(next).contains(o) implies oid_set(pre).insert(wants@[i as int]@).contains(o) by {
                let k = choose|k: int| 0 <= k < next.len() && next[k]@ == o;
                if k < i {
                    assert(pre[k] == next[k]);
                }
            }
            assert forall|o: Seq<u8>| oid_set(pre).insert(wants@[i as int]@).contains(o) implies oid_set(next).contains(o) by {
                if o == wants@[i as int]@ {
                    assert(next[i as int] == wants@[i as int]);
                } else {
                    let k = choose|k: int| 0 <= k < pre.len() && pre[k]@ == o;
                    assert(next[k] == pre[k]);
                }
            }
        }
        assert(oid_set(r@) =~= oid_set(next).difference(oid_set(haves@))) by {
            assert forall|o: Seq<u8>| oid_set(r@).contains(o) implies oid_set(next).difference(oid_set(haves@)).contains(o) by {
                let k = choose|k: int| 0 <= k < r@.len() && r@[k]@ == o;
                if k < before.len() {
                    assert(before[k] == r@[k]);
                    assert(oid_set(before).contains(o));
                }
            }
            assert forall|o: Seq<u8>| oid_set(next).difference(oid_set(haves@)).contains(o) implies oid_set(r@).contains(o) by {
                if o == wants@[i as int]@ {
                    assert(r@[r@.len() - 1]@ == o);
                } else {
                    assert(oid_set(before).contains(o));
                    let k = choose|k: int| 0 <= k < before.len() && before[k]@ == o;
                    assert(r@[k] == before[k]);
                }
            }
        }
        i = i + 1;
    }
    assert(wants@.subrange(0, wants@.len() as int) =~= wants@);
    r
}

/// When every want is already had, nothing is sent and the fetch is
/// skipped.
pub proof fn lemma_nothing_to_send(wants: Seq<Oid>, haves: Seq<Oid>, sent: Seq<Oid>)
    requires
        oid_set(wants).subset_of(oid_set(haves)),
        oid_set(sent) == oid_set(wants).difference(oid_set(haves)),
    ensures
        sent.len() == 0,
{
    if sent.len() > 0 {
        assert(oid_set(sent).contains(sent[0]@));
    }
}

/// A fetched ref whose tip is not in the object database.
#[derive(Clone, Debug, PartialEq, Eq)]
pub struct NotInPack {
    pub name: Vec<u8>,
    pub tip: Oid,
}

/// Hands on the fetched refs only if the object database holds every tip;
/// `present[k]` says whether it holds `refs[k]`'s. Otherwise names the
/// first ref whose tip is missing.
pub fn verify_tips(refs: Vec<FilteredRef>, present: &Vec<bool>) -> (r: Result<Vec<FilteredRef>, NotInPack>)
    requires
        present@.len() == refs@.len(),
    ensures
        r is Ok == forall|k: int| 0 <= k < present@.len() ==> #[trigger] present@[k],
        r matches Ok(out) ==> fviews(out@) == fviews(refs@),
        r matches Err(e) ==> exists|k: int|
            0 <= k < refs@.len() && !present@[k] && e.name@ == refs@[k]@.name && e.tip@ == refs@[k]@.tip
                && forall|j: int| 0 <= j < k ==> #[trigger] present@[j],
{
    let mut i: usize = 0;
    while i < refs.len()
        invariant
            i <= refs@.len(),
            present@.len() == refs@.len(),
            forall|j: int| 0 <= j < i ==> #[trigger] present@[j],
        decreases refs.len() - i,
    {
        if !present[i] {
            return Err(NotInPack {
                name: crate::bytes::to_vec(refs[i].inner.name.as_slice()),
                tip: refs[i].inner.tip.copied(),
            });
        }
        i = i + 1;
    }
    Ok(refs)
}

} // verus!
