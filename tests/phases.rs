use link_replication::fetch::{combined, Combined, Fetch, MissingSigrefs, Sigrefs};
use link_replication::for_clone::ForClone;
use link_replication::for_fetch::{ForFetch, Prepare};
use link_replication::internal::{
    check_remote, must_compare, record_signed_refs, setup_rad, tracked_peers, validate, Error,
    LocalIdentity, OwnRad, Success, Validation, VerifiedIdentity,
};
use link_replication::net::{ref_prefix_names, verify_tips, wants_to_send, NotInPack};
use link_replication::peek::{guard_required, DelegateIds, Layout};
use link_replication::refdb::{transact, Aborted};
use link_replication::refs::{scoped, Identity, Oid, PeerId};
use link_replication::transmit::{
    AdvertisedRef, Applied, FilteredRef, Namespaced, Policy, Snapshot, SymrefTarget, Update,
    Updated,
};

fn peer(s: &str) -> PeerId {
    PeerId::from_text(s.as_bytes()).expect("valid peer id")
}

fn oid(b: u8) -> Oid {
    Oid { bytes: vec![b; 20] }
}

fn adv(name: &str, tip: u8) -> AdvertisedRef {
    AdvertisedRef { name: name.as_bytes().to_vec(), tip: oid(tip) }
}

fn direct(name: &str, tip: u8, no_ff: Policy) -> Update {
    Update::Direct { name: name.as_bytes().to_vec(), target: oid(tip), no_ff }
}

fn empty_db() -> Snapshot {
    Snapshot { refs: vec![] }
}

fn identity(content: u8, revision: u8, delegates: Vec<PeerId>) -> VerifiedIdentity {
    VerifiedIdentity {
        content_id: oid(content),
        revision: oid(revision),
        delegate_ids: delegates,
        delegate_urns: vec![],
    }
}

#[test]
fn fresh_clone_from_sole_delegate() {
    let r = peer("remote");
    let local = peer("local");
    let peek = ForClone { remote_id: r.clone() };
    let advertised = vec![
        adv("refs/rad/id", 0xa),
        adv("refs/rad/self", 0xb),
        adv("refs/rad/signed_refs", 0xc),
        adv("refs/heads/main", 0xd),
    ];
    let kept: Vec<FilteredRef> = advertised.iter().filter_map(|a| peek.ref_filter(a)).collect();
    assert_eq!(kept.len(), 3);
    assert_eq!(peek.filter_refs(&advertised), kept);
    let wh = peek.wants_haves(&empty_db(), kept.clone());
    assert_eq!(wh.wants.len(), 3);
    assert!(wh.haves.is_empty());
    let negotiated = peek.negotiate(&empty_db(), &advertised);
    assert_eq!(negotiated.wanted, wh.wanted);
    assert_eq!(negotiated.wants, wh.wants);
    assert_eq!(peek.pre_validate(&kept), Ok(()));
    assert_eq!(peek.identity_ref(&kept), Some(0));
    let groups = peek.prepare(&kept, &vec![r.clone()]);
    assert_eq!(
        groups,
        vec![vec![
            direct("refs/remotes/remote/rad/id", 0xa, Policy::Abort),
            direct("refs/remotes/remote/rad/self", 0xb, Policy::Abort),
            direct("refs/remotes/remote/rad/signed_refs", 0xc, Policy::Abort),
        ]]
    );

    let theirs = identity(0xa, 1, vec![r.clone()]);
    let rad = setup_rad(&local, None, theirs.clone(), None, &vec![], &None).unwrap();
    assert_eq!(rad, vec![direct("refs/rad/id", 0xa, Policy::Reject)]);

    let fetch = Fetch {
        local_id: local.clone(),
        remote_id: r.clone(),
        signed_refs: Combined {
            refs: vec![(
                r.clone(),
                Sigrefs { at: oid(0xc), refs: vec![(b"refs/heads/main".to_vec(), oid(0xd))], remotes: vec![] },
            )],
            remotes: vec![r.clone()],
        },
    };
    let kept: Vec<FilteredRef> = advertised.iter().filter_map(|a| fetch.ref_filter(a)).collect();
    assert_eq!(kept.len(), 1);
    assert_eq!(fetch.filter_refs(&advertised), kept);
    assert_eq!(fetch.pre_validate(&kept), Ok(()));
    let wh = fetch.wants_haves(&empty_db(), kept);
    assert_eq!(wh.wants, vec![oid(0xd)]);
    let groups = fetch.prepare(&wh.wanted);
    assert_eq!(
        groups,
        vec![vec![
            direct("refs/remotes/remote/heads/main", 0xd, Policy::Allow),
            Update::Noop { name: b"refs/remotes/remote/rad/signed_refs".to_vec(), expect: oid(0xc) },
        ]]
    );
    let success = Success { applied: Applied::new(), requires_confirmation: false, validation: vec![] };
    assert!(!success.requires_confirmation());
}

fn tracked_fetch() -> (Fetch, PeerId, PeerId) {
    let r = peer("r");
    let t = peer("t");
    let fetch = Fetch {
        local_id: peer("local"),
        remote_id: r.clone(),
        signed_refs: Combined {
            refs: vec![
                (r.clone(), Sigrefs { at: oid(1), refs: vec![], remotes: vec![t.clone()] }),
                (
                    t.clone(),
                    Sigrefs { at: oid(2), refs: vec![(b"refs/heads/main".to_vec(), oid(0xe))], remotes: vec![] },
                ),
            ],
            remotes: vec![r.clone(), t.clone()],
        },
    };
    (fetch, r, t)
}

#[test]
fn pull_converges_with_tracked_peer() {
    let (fetch, _r, t) = tracked_fetch();
    let a = adv("refs/remotes/t/heads/main", 0xe);
    let kept = fetch.ref_filter(&a).expect("signed ref is kept");
    assert_eq!(kept.remote_id, t);
    let wh = fetch.wants_haves(&empty_db(), vec![kept]);
    assert_eq!(wh.wants, vec![oid(0xe)]);
    let groups = fetch.prepare(&wh.wanted);
    assert_eq!(
        groups,
        vec![vec![
            direct("refs/remotes/t/heads/main", 0xe, Policy::Allow),
            Update::Noop { name: b"refs/remotes/t/rad/signed_refs".to_vec(), expect: oid(2) },
        ]]
    );
}

#[test]
fn concurrent_sigrefs_change_is_pinned() {
    let (fetch, r, _t) = tracked_fetch();
    let kept = vec![
        fetch.ref_filter(&adv("refs/remotes/t/heads/main", 0xe)).unwrap(),
        fetch.ref_filter(&adv("refs/heads/dev", 0xf)).unwrap(),
    ];
    assert_eq!(kept[1].remote_id, r);
    let groups = fetch.prepare(&kept);
    assert_eq!(groups.len(), 2);
    // Between ls-refs and applying, t published new signed refs at 3.
    let t_group = &groups[0];
    let applied = transact(t_group, &vec![None, Some(oid(3))], &vec![false, false]).unwrap();
    assert!(applied.updated.is_empty());
    assert_eq!(&applied.rejected, t_group);
    // r's transaction still commits.
    let r_group = &groups[1];
    let applied = transact(r_group, &vec![None, Some(oid(1))], &vec![false, false]).unwrap();
    assert_eq!(
        applied.updated,
        vec![Updated::Direct { name: b"refs/remotes/r/heads/dev".to_vec(), target: oid(0xf) }]
    );
    assert!(applied.rejected.is_empty());
}

#[test]
fn transaction_policies() {
    let ups = vec![
        direct("refs/rad/self", 1, Policy::Reject),
        direct("refs/rad/id", 2, Policy::Allow),
        Update::Symbolic {
            name: b"refs/rad/ids/u".to_vec(),
            target: SymrefTarget {
                name: Namespaced { namespace: Some(b"u".to_vec()), refname: b"refs/rad/id".to_vec() },
                target: oid(3),
            },
            type_change: Policy::Allow,
        },
    ];
    let applied = transact(&ups, &vec![Some(oid(9)), Some(oid(8)), Some(oid(7))], &vec![false, false, false]).unwrap();
    assert_eq!(applied.rejected, vec![direct("refs/rad/self", 1, Policy::Reject)]);
    assert_eq!(
        applied.updated,
        vec![
            Updated::Direct { name: b"refs/rad/id".to_vec(), target: oid(2) },
            Updated::Symbolic {
                name: b"refs/rad/ids/u".to_vec(),
                target: b"refs/namespaces/u/refs/rad/id".to_vec(),
            },
        ]
    );
    let fast_forwarded = transact(&ups[..1].to_vec(), &vec![Some(oid(9))], &vec![true]).unwrap();
    assert_eq!(fast_forwarded.updated.len(), 1);
    let abort = vec![direct("refs/remotes/d/rad/id", 1, Policy::Abort)];
    assert_eq!(
        transact(&abort, &vec![Some(oid(2))], &vec![false]),
        Err(Aborted { name: b"refs/remotes/d/rad/id".to_vec() })
    );
}

#[test]
fn confirmation_required_when_behind() {
    let local = peer("local");
    let r = peer("r");
    let ours = identity(0x10, 1, vec![local.clone(), r.clone()]);
    let theirs = identity(0x20, 2, vec![local.clone(), r.clone()]);
    assert!(must_compare(&local, &Some(ours.clone()), &theirs));
    let res = setup_rad(&local, Some(ours.clone()), theirs.clone(), Some(oid(0x20)), &vec![], &None);
    assert_eq!(res, Err(OwnRad::ConfirmationRequired));
    let res = setup_rad(&local, Some(ours), theirs, Some(oid(0x10)), &vec![], &None);
    assert_eq!(res, Ok(vec![direct("refs/rad/id", 0x10, Policy::Reject)]));
}

#[test]
fn setup_rad_points_rad_id_at_newest() {
    let local = peer("local");
    let theirs = identity(0x30, 3, vec![peer("r")]);
    let urn = Identity::try_from_id(b"urnx");
    let res = setup_rad(
        &local,
        Some(identity(0x31, 1, vec![peer("r")])),
        theirs,
        None,
        &vec![(urn, oid(0x40))],
        &Some(LocalIdentity { tip: oid(0x50) }),
    )
    .unwrap();
    assert_eq!(
        res,
        vec![
            Update::Symbolic {
                name: b"refs/rad/ids/urnx".to_vec(),
                target: SymrefTarget {
                    name: Namespaced { namespace: Some(b"urnx".to_vec()), refname: b"refs/rad/id".to_vec() },
                    target: oid(0x40),
                },
                type_change: Policy::Allow,
            },
            direct("refs/rad/self", 0x50, Policy::Reject),
            direct("refs/rad/id", 0x30, Policy::Reject),
        ]
    );
}

#[test]
fn unsolicited_ref_is_skipped() {
    let (fetch, _r, _t) = tracked_fetch();
    assert!(fetch.ref_filter(&adv("refs/remotes/q/heads/evil", 0x66)).is_none());
    let sneaked = FilteredRef::new(peer("q"), &adv("refs/remotes/q/heads/evil", 0x66));
    let wh = fetch.wants_haves(&empty_db(), vec![sneaked]);
    assert!(wh.wanted.is_empty());
    assert!(wh.wants.is_empty());
}

#[test]
fn self_loop_is_refused() {
    let local = peer("local");
    assert_eq!(check_remote(&local, &local), Err(Error::SelfReplication));
    assert_eq!(check_remote(&local, &peer("other")), Ok(()));
}

#[test]
fn second_pull_updates_nothing() {
    let (fetch, _r, _t) = tracked_fetch();
    let kept = fetch.ref_filter(&adv("refs/remotes/t/heads/main", 0xe)).unwrap();
    let db = Snapshot { refs: vec![(b"refs/remotes/t/heads/main".to_vec(), oid(0xe))] };
    let wh = fetch.wants_haves(&db, vec![kept]);
    assert!(wh.wanted.is_empty());
    assert!(fetch.prepare(&wh.wanted).is_empty());
    let local = peer("local");
    let rad = setup_rad(&local, None, identity(0xa, 1, vec![peer("r")]), None, &vec![], &None).unwrap();
    let again = transact(&rad, &vec![Some(oid(0xa))], &vec![false]).unwrap();
    assert!(again.updated.is_empty() && again.rejected.is_empty());
    let mut applied = Applied::new();
    record_signed_refs(&mut applied, None);
    assert!(applied.updated.is_empty());
    record_signed_refs(&mut applied, Some(oid(9)));
    assert_eq!(
        applied.updated,
        vec![Updated::Direct { name: b"refs/rad/signed_refs".to_vec(), target: oid(9) }]
    );
}

#[test]
fn fetched_tips_must_be_present() {
    let r = peer("r");
    let refs = vec![
        FilteredRef::new(r.clone(), &adv("refs/heads/a", 1)),
        FilteredRef::new(r.clone(), &adv("refs/heads/b", 2)),
    ];
    assert_eq!(verify_tips(refs.clone(), &vec![true, true]), Ok(refs.clone()));
    assert_eq!(
        verify_tips(refs, &vec![true, false]),
        Err(NotInPack { name: b"refs/heads/b".to_vec(), tip: oid(2) })
    );
}

#[test]
fn for_fetch_peek() {
    let local = peer("local");
    let r = peer("r");
    let d = peer("d");
    let t = peer("t");
    let peek = ForFetch {
        local_id: local.clone(),
        remote_id: r.clone(),
        delegates: vec![local.clone(), d.clone()],
        tracked_peers: vec![t.clone()],
    };
    assert_eq!(peek.peers(), vec![d.clone(), t.clone()]);
    assert_eq!(peek.ref_prefixes().len(), 8);
    assert_eq!(peek.required_refs().len(), 2);
    assert!(peek.ref_filter(&adv("refs/remotes/local/rad/id", 1)).is_none());
    assert!(peek.ref_filter(&adv("refs/remotes/d/heads/main", 1)).is_none());
    let own = peek.ref_filter(&adv("refs/rad/id", 1)).unwrap();
    assert_eq!(own.remote_id, r);
    let kept = vec![
        peek.ref_filter(&adv("refs/remotes/d/rad/id", 1)).unwrap(),
        peek.ref_filter(&adv("refs/remotes/d/rad/signed_refs", 2)).unwrap(),
        peek.ref_filter(&adv("refs/remotes/t/rad/id", 3)).unwrap(),
        own,
    ];
    let db = Snapshot { refs: vec![(b"refs/remotes/r/rad/id".to_vec(), oid(7))] };
    let wh = peek.wants_haves(&db, kept.clone());
    assert_eq!(wh.wanted.len(), 3);
    assert_eq!(wh.haves, vec![oid(7)]);
    assert_eq!(peek.pre_validate(&kept), Ok(()));
    assert_eq!(
        peek.pre_validate(&kept[2..].to_vec()),
        Err(Layout::MissingRequiredRefs(vec![
            b"refs/remotes/d/rad/id".to_vec(),
            b"refs/remotes/d/rad/signed_refs".to_vec(),
        ]))
    );
    assert_eq!(peek.to_verify(&kept), vec![true, false, false, false]);
    let groups = peek.prepare(&kept, &vec![true; 4]).unwrap();
    assert_eq!(groups.len(), 2);
    assert_eq!(
        groups[0],
        vec![
            direct("refs/remotes/d/rad/id", 1, Policy::Abort),
            direct("refs/remotes/d/rad/signed_refs", 2, Policy::Abort),
        ]
    );
    assert_eq!(
        groups[1],
        vec![direct("refs/remotes/t/rad/id", 3, Policy::Abort), direct("refs/remotes/r/rad/id", 1, Policy::Abort)]
    );
    assert_eq!(peek.prepare(&kept, &vec![false, true, false, true]), Err(Prepare::Verification(0)));
}

#[test]
fn guard_allows_empty_advertisement() {
    let a = peer("a");
    let required = vec![scoped(&a, &a, b"refs/rad/id")];
    assert_eq!(guard_required(&required, &vec![]), Ok(()));
    let other = vec![scoped(&a, &a, b"refs/rad/self")];
    assert_eq!(
        guard_required(&required, &other),
        Err(Layout::MissingRequiredRefs(vec![b"refs/rad/id".to_vec()]))
    );
}

#[test]
fn delegate_ids_resolve_last_advertised() {
    let r = peer("r");
    let refs = vec![
        FilteredRef::new(r.clone(), &adv("refs/rad/ids/u1", 1)),
        FilteredRef::new(r.clone(), &adv("refs/rad/id", 2)),
        FilteredRef::new(r.clone(), &adv("refs/rad/ids/u1", 3)),
    ];
    let ids = DelegateIds::from_refs(&refs);
    assert_eq!(ids.for_remote(&r, &Identity::try_from_id(b"u1")), Some(oid(3)));
    assert_eq!(ids.for_remote(&r, &Identity::try_from_id(b"u2")), None);
    assert_eq!(ids.for_remote(&peer("x"), &Identity::try_from_id(b"u1")), None);
}

#[test]
fn symbolic_rad_ids_in_peek() {
    let r = peer("r");
    let peek = ForClone { remote_id: r.clone() };
    let kept = vec![peek.ref_filter(&adv("refs/rad/ids/u1", 4)).unwrap()];
    let groups = peek.prepare(&kept, &vec![r.clone()]);
    assert_eq!(
        groups,
        vec![vec![Update::Symbolic {
            name: b"refs/remotes/r/rad/ids/u1".to_vec(),
            target: SymrefTarget {
                name: Namespaced { namespace: Some(b"u1".to_vec()), refname: b"refs/rad/id".to_vec() },
                target: oid(4),
            },
            type_change: Policy::Allow,
        }]]
    );
    assert!(peek.prepare(&kept, &vec![peer("other")]).is_empty());
}

#[test]
fn tracked_peers_exclude_delegates_and_self() {
    let local = peer("local");
    let d = peer("d");
    let out = tracked_peers(
        &local,
        &vec![d.clone()],
        &vec![vec![peer("a"), d.clone()], vec![local.clone(), peer("b"), peer("a")]],
    );
    assert_eq!(out, vec![peer("a"), peer("b")]);
}

#[test]
fn urns_created_from_symrefs() {
    let mut applied = Applied::new();
    applied.updated.push(Updated::Symbolic {
        name: b"refs/rad/ids/u1".to_vec(),
        target: b"refs/namespaces/u1/refs/rad/id".to_vec(),
    });
    applied.updated.push(Updated::Symbolic {
        name: b"refs/rad/ids/u2".to_vec(),
        target: b"refs/namespaces/u2/refs/rad/self".to_vec(),
    });
    applied.updated.push(Updated::Direct { name: b"refs/rad/id".to_vec(), target: oid(1) });
    let success = Success { applied, requires_confirmation: true, validation: vec![] };
    assert_eq!(success.urns_created(), vec![Identity::try_from_id(b"u1")]);
    assert!(success.requires_confirmation());
    assert_eq!(success.updated_refs().len(), 3);
    assert!(success.rejected_updates().is_empty());
    assert!(success.validation_errors().is_empty());
}

#[test]
fn validation_warnings() {
    let (fetch, _r, _t) = tracked_fetch();
    let db = Snapshot {
        refs: vec![
            (b"refs/remotes/t/heads/main".to_vec(), oid(0xf)),
            (b"refs/remotes/q/heads/x".to_vec(), oid(1)),
            (b"refs/heads/main".to_vec(), oid(1)),
        ],
    };
    assert_eq!(
        validate(&fetch.signed_refs, &db, &Some(oid(0x44))),
        vec![
            Validation::MismatchedTip {
                refname: b"refs/remotes/t/heads/main".to_vec(),
                expected: oid(0xe),
                actual: Some(oid(0xf)),
            },
            Validation::Unexpected { refname: b"refs/remotes/q/heads/x".to_vec() },
            Validation::RadId { expected: oid(0x44), actual: None },
        ]
    );
    let clean = Snapshot {
        refs: vec![(b"refs/remotes/t/heads/main".to_vec(), oid(0xe)), (b"refs/rad/id".to_vec(), oid(0x44))],
    };
    assert!(validate(&fetch.signed_refs, &clean, &Some(oid(0x44))).is_empty());
    assert!(validate(&fetch.signed_refs, &clean, &None).is_empty());
}

#[test]
fn fetch_prefixes() {
    let (fetch, _r, _t) = tracked_fetch();
    let names = ref_prefix_names(&fetch.ref_prefixes());
    assert_eq!(
        names,
        vec![
            b"refs/heads/".to_vec(),
            b"refs/notes/".to_vec(),
            b"refs/tags/".to_vec(),
            b"refs/remotes/t/heads/".to_vec(),
            b"refs/remotes/t/notes/".to_vec(),
            b"refs/remotes/t/tags/".to_vec(),
            b"refs/remotes/t/heads/main".to_vec(),
        ]
    );
}

#[test]
fn wants_minus_haves() {
    assert_eq!(wants_to_send(&vec![oid(1), oid(2), oid(3)], &vec![oid(2)]), vec![oid(1), oid(3)]);
    assert!(wants_to_send(&vec![oid(1)], &vec![oid(1)]).is_empty());
}

#[test]
fn combining_signed_refs() {
    let r = peer("r");
    let t = peer("t");
    let u = peer("u");
    let sr = |at: u8, remotes: Vec<PeerId>| Sigrefs { at: oid(at), refs: vec![], remotes };
    let c = combined(
        vec![(r.clone(), Some(sr(1, vec![t.clone(), u.clone()])))],
        vec![(t.clone(), None), (u.clone(), Some(sr(2, vec![t.clone(), r.clone()])))],
    )
    .unwrap();
    assert_eq!(c.refs, vec![(r.clone(), sr(1, vec![t.clone(), u.clone()])), (u.clone(), sr(2, vec![t.clone(), r.clone()]))]);
    assert_eq!(c.remotes, vec![t.clone(), u.clone(), r.clone()]);
    assert_eq!(
        combined(vec![(r.clone(), Some(sr(1, vec![]))), (t.clone(), None)], vec![]),
        Err(MissingSigrefs { peer: t.clone() })
    );
}
