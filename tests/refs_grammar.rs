use link_replication::refs::{
    owned, parse, remote_tracking, scoped, Cat, Identity, Inner, Parsed, PeerId, Rad, Refs,
};

fn peer(s: &str) -> PeerId {
    PeerId::from_text(s.as_bytes()).expect("valid peer id")
}

#[test]
fn parses_own_rad_id() {
    let p = parse(b"refs/rad/id").expect("parses");
    assert!(p.remote.is_none());
    assert_eq!(p.inner, Inner::Rad(Rad::Id));
}

#[test]
fn parses_remote_heads() {
    let p = parse(b"refs/remotes/hyb123/heads/feature/x").expect("parses");
    assert_eq!(p.remote, Some(peer("hyb123")));
    assert_eq!(
        p.inner,
        Inner::Refs(Refs { cat: Cat::Heads, name: vec![b"feature".to_vec(), b"x".to_vec()] })
    );
}

#[test]
fn parses_rad_ids_and_self() {
    let p = parse(b"refs/rad/ids/abc").expect("parses");
    assert_eq!(p.inner, Inner::Rad(Rad::Ids { urn: Identity::try_from_id(b"abc") }));
    let p = parse(b"refs/remotes/q1/rad/self").expect("parses");
    assert_eq!(p.inner, Inner::Rad(Rad::Me));
    let p = parse(b"refs/rad/signed_refs").expect("parses");
    assert_eq!(p.inner, Inner::Rad(Rad::SignedRefs));
}

#[test]
fn unknown_category_is_kept() {
    let p = parse(b"refs/cobs/issue").expect("parses");
    assert_eq!(
        p.inner,
        Inner::Refs(Refs { cat: Cat::Unknown(b"cobs".to_vec()), name: vec![b"issue".to_vec()] })
    );
}

#[test]
fn rejects_malformed_names() {
    assert!(parse(b"").is_none());
    assert!(parse(b"refs").is_none());
    assert!(parse(b"heads/main").is_none());
    assert!(parse(b"refs/heads").is_none());
    assert!(parse(b"refs//main").is_none());
    assert!(parse(b"refs/rad").is_none());
    assert!(parse(b"refs/rad/other").is_none());
    assert!(parse(b"refs/rad/ids").is_none());
    assert!(parse(b"refs/remotes/bad-peer/heads/main").is_none());
    assert!(parse(b"refs/remotes/hyn1").is_none());
    assert!(parse(&[b'r', b'e', b'f', b's', b'/', b'r', b'a', b'd', b'/', b'i', b'd', b's', b'/', 0xff]).is_none());
}

#[test]
fn render_then_parse_round_trips() {
    let cases = vec![
        Parsed { remote: None, inner: Inner::Rad(Rad::Id) },
        Parsed { remote: Some(peer("abc")), inner: Inner::Rad(Rad::Me) },
        Parsed { remote: Some(peer("abc")), inner: Inner::Rad(Rad::SignedRefs) },
        Parsed { remote: None, inner: Inner::Rad(Rad::Ids { urn: Identity::try_from_id(b"urn1") }) },
        Parsed {
            remote: None,
            inner: Inner::Refs(Refs { cat: Cat::Tags, name: vec![b"v1".to_vec()] }),
        },
        Parsed {
            remote: Some(peer("Z9")),
            inner: Inner::Refs(Refs { cat: Cat::Notes, name: vec![b"a".to_vec(), b"b".to_vec()] }),
        },
        Parsed {
            remote: None,
            inner: Inner::Refs(Refs { cat: Cat::Unknown(b"cobs".to_vec()), name: vec![b"x".to_vec()] }),
        },
    ];
    for p in cases {
        let name = p.to_refname();
        assert_eq!(parse(&name), Some(p));
    }
}

#[test]
fn renders_expected_names() {
    let p = Parsed { remote: Some(peer("abc")), inner: Inner::Rad(Rad::Id) };
    assert_eq!(p.to_refname(), b"refs/remotes/abc/rad/id".to_vec());
    let p = Parsed {
        remote: None,
        inner: Inner::Refs(Refs { cat: Cat::Heads, name: vec![b"main".to_vec()] }),
    };
    assert_eq!(p.to_refname(), b"refs/heads/main".to_vec());
}

#[test]
fn cat_bytes() {
    assert_eq!(Cat::Heads.as_bytes(), b"heads".to_vec());
    assert_eq!(Cat::Notes.as_bytes(), b"notes".to_vec());
    assert_eq!(Cat::Tags.as_bytes(), b"tags".to_vec());
    assert_eq!(Cat::Unknown(b"x".to_vec()).as_bytes(), b"x".to_vec());
}

#[test]
fn remote_tracking_names() {
    assert_eq!(remote_tracking(&peer("hyn1"), b"refs/heads/main"), b"refs/remotes/hyn1/heads/main".to_vec());
    assert_eq!(remote_tracking(&peer("hyn1"), b"rad/id"), b"refs/remotes/hyn1/rad/id".to_vec());
    assert_eq!(
        remote_tracking(&peer("hyn1"), b"refs/remotes/x/heads/main"),
        b"refs/remotes/hyn1/heads/main".to_vec()
    );
}

#[test]
fn owned_names() {
    assert_eq!(owned(b"refs/remotes/hyn1/heads/main"), b"refs/heads/main".to_vec());
    assert_eq!(owned(b"refs/heads/main"), b"refs/heads/main".to_vec());
    assert_eq!(owned(b"refs/remotes/hyn1"), b"refs/remotes/hyn1".to_vec());
}

#[test]
fn scoped_names() {
    let a = peer("a");
    let b = peer("b");
    assert_eq!(scoped(&a, &a, b"refs/rad/id").as_refname(), b"refs/rad/id".to_vec());
    assert_eq!(scoped(&a, &b, b"refs/rad/id").as_refname(), b"refs/remotes/a/rad/id".to_vec());
}

#[test]
fn peer_ids_from_text() {
    assert!(PeerId::from_text(b"").is_none());
    assert!(PeerId::from_text(b"a/b").is_none());
    assert_eq!(PeerId::from_text(b"hyn9").map(|p| p.text), Some(b"hyn9".to_vec()));
}
