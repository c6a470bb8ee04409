use link_replication::refs::Oid;
use link_replication::tracking::{
    convert, decide, find_reference, Applied, Conversion, Find, PreviousError, PreviousValue,
    References, Ref, SymbolicRef, Update, Updated,
};

fn oid(b: u8) -> Oid {
    Oid { bytes: vec![b; 20] }
}

#[test]
fn guards() {
    assert_eq!(PreviousValue::Any.guard(&None), None);
    assert_eq!(PreviousValue::MustExist.guard(&None), Some(PreviousError::DidNotExist));
    assert_eq!(PreviousValue::MustNotExist.guard(&Some(oid(1))), Some(PreviousError::DidExist { actual: oid(1) }));
    assert_eq!(PreviousValue::IfExistsMustMatch(oid(1)).guard(&None), None);
    assert_eq!(
        PreviousValue::IfExistsMustMatch(oid(1)).guard(&Some(oid(2))),
        Some(PreviousError::DidNotMatch { expected: oid(1), actual: Some(oid(2)) })
    );
    assert_eq!(PreviousValue::MustExistAndMatch(oid(1)).guard(&Some(oid(1))), None);
    assert_eq!(
        PreviousValue::MustExistAndMatch(oid(1)).guard(&None),
        Some(PreviousError::DidNotMatch { expected: oid(1), actual: None })
    );
}

#[test]
fn transaction_outcome() {
    let updates = vec![
        Update::Write { name: b"a".to_vec(), target: oid(2), previous: PreviousValue::MustExist },
        Update::Write { name: b"b".to_vec(), target: oid(3), previous: PreviousValue::MustNotExist },
        Update::Delete { name: b"c".to_vec(), previous: PreviousValue::Any },
        Update::Delete { name: b"d".to_vec(), previous: PreviousValue::MustExist },
        Update::Delete { name: b"e".to_vec(), previous: PreviousValue::MustExistAndMatch(oid(5)) },
    ];
    let current = vec![Some(oid(1)), Some(oid(9)), None, None, Some(oid(5))];
    assert_eq!(
        decide(&updates, &current),
        Applied {
            updates: vec![
                Updated::Written { name: b"a".to_vec(), target: oid(2) },
                Updated::Deleted { name: b"e".to_vec(), previous: oid(5) },
            ],
            rejections: vec![PreviousError::DidExist { actual: oid(9) }, PreviousError::DidNotExist],
        }
    );
}

#[test]
fn reading_refs() {
    assert_eq!(convert(b"refs/x", &Some(oid(1))), Ok(Ref { name: b"refs/x".to_vec(), target: oid(1) }));
    assert_eq!(convert(b"refs/x", &None), Err(Conversion::SymbolicRef(SymbolicRef)));
    assert_eq!(convert(&[0xff], &Some(oid(1))), Err(Conversion::Format));
    assert_eq!(find_reference(b"refs/x", &None), Ok(None));
    assert_eq!(find_reference(b"refs/x", &Some(None)), Err(Find::SymbolicRef(SymbolicRef)));
    let mut it = References { inner: vec![(b"refs/a".to_vec(), Some(oid(1))), (b"refs/b".to_vec(), None)], pos: 0 };
    assert_eq!(it.next(), Some(Ok(Ref { name: b"refs/a".to_vec(), target: oid(1) })));
    assert!(matches!(it.next(), Some(Err(_))));
    assert_eq!(it.next(), None);
}
