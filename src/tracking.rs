//! The tracking refdb: ref updates guarded by the ref's previous value,
//! applied as one transaction, and the reading of refs that must be direct.
use vstd::prelude::*;

use crate::bytes::to_vec;
use crate::refs::{Oid, is_utf8, utf8_check};

verus! {

/// A reference loaded from a reference database: a direct ref.
#[derive(Clone, Debug, PartialEq, Eq)]
pub struct Ref {
    pub name: Vec<u8>,
    pub target: Oid,
}

/// What an update expects of the ref's current value.
#[derive(Clone, Debug, PartialEq, Eq)]
pub enum PreviousValue {
    Any,
    MustExist,
    MustNotExist,
    IfExistsMustMatch(Oid),
    MustExistAndMatch(Oid),
}

/// Why an update was rejected.
#[derive(Clone, Debug, PartialEq, Eq)]
pub enum PreviousError {
    DidNotExist,
    DidExist { actual: Oid },
    DidNotMatch { expected: Oid, actual: Option<Oid> },
}

pub enum PreviousErrorView {
    DidNotExist,
    DidExist(Seq<u8>),
    DidNotMatch(Seq<u8>, Option<Seq<u8>>),
}

impl View for PreviousError {
    type V = PreviousErrorView;

    open spec fn view(&self) -> PreviousErrorView {
        match self {
            PreviousError::DidNotExist => PreviousErrorView::DidNotExist,
            PreviousError::DidExist { actual } => PreviousErrorView::DidExist(actual@),
            PreviousError::DidNotMatch { expected, actual } => PreviousErrorView::DidNotMatch(
                expected@,
                match actual {
                    Some(a) => Some(a@),
                    None => None,
                },
            ),
        }
    }
}

pub open spec fn opt_view(o: Option<Oid>) -> Option<Seq<u8>> {
    match o {
        Some(x) => Some(x@),
        None => None,
    }
}

/// Whether the current value `given` meets `p`, and if not, why.
pub open spec fn guard_spec(p: PreviousValue, given: Option<Seq<u8>>) -> Option<PreviousErrorView> {
    match p {
        PreviousValue::Any => None,
        PreviousValue::MustExist => if given is Some {
            None
        } else {
            Some(PreviousErrorView::DidNotExist)
        },
        PreviousValue::MustNotExist => match given {
            Some(a) => Some(PreviousErrorView::DidExist(a)),
            None => None,
        },
        PreviousValue::IfExistsMustMatch(e) => match given {
            Some(a) => if a == e@ {
                None
            } else {
                Some(PreviousErrorView::DidNotMatch(e@, given))
            },
            None => None,
        },
        PreviousValue::MustExistAndMatch(e) => match given {
            Some(a) => if a == e@ {
                None
            } else {
                Some(PreviousErrorView::DidNotMatch(e@, given))
            },
            None => Some(PreviousErrorView::DidNotMatch(e@, None)),
        },
    }
}

impl PreviousValue {
    /// Checks the current value `given` against this expectation.
    pub fn guard(&self, given: &Option<Oid>) -> (r: Option<PreviousError>)
        ensures
            opt_err_view(r) == guard_spec(*self, opt_view(*given)),
    {
        match self {
            PreviousValue::Any => None,
            PreviousValue::MustExist => match given {
                Some(_) => None,
                None => Some(PreviousError::DidNotExist),
            },
            PreviousValue::MustNotExist => match given {
                Some(a) => Some(PreviousError::DidExist { actual: a.copied() }),
                None => None,
            },
            PreviousValue::IfExistsMustMatch(e) => match given {
                Some(a) => if a.same(e) {
                    None
                } else {
                    Some(PreviousError::DidNotMatch { expected: e.copied(), actual: Some(a.copied()) })
                },
                None => None,
            },
            PreviousValue::MustExistAndMatch(e) => match given {
                Some(a) => if a.same(e) {
                    None
                } else {
                    Some(PreviousError::DidNotMatch { expected: e.copied(), actual: Some(a.copied()) })
                },
                None => Some(PreviousError::DidNotMatch { expected: e.copied(), actual: None }),
            },
        }
    }
}

pub open spec fn opt_err_view(e: Option<PreviousError>) -> Option<PreviousErrorView> {
    match e {
        Some(x) => Some(x@),
        None => None,
    }
}

/// One update of a transaction.
#[derive(Clone, Debug, PartialEq, Eq)]
pub enum Update {
    /// Points `name` at `target`, if `previous` holds.
    Write { name: Vec<u8>, target: Oid, previous: PreviousValue },
    /// Deletes `name`, if `previous` holds.
    Delete { name: Vec<u8>, previous: PreviousValue },
}

/// An update that was carried out.
#[derive(Clone, Debug, PartialEq, Eq)]
pub enum Updated {
    Written { name: Vec<u8>, target: Oid },
    Deleted { name: Vec<u8>, previous: Oid },
}

pub enum UpdatedView {
    Written(Seq<u8>, Seq<u8>),
    Deleted(Seq<u8>, Seq<u8>),
}

impl View for Updated {
    type V = UpdatedView;

    open spec fn view(&self) -> UpdatedView {
        match self {
            Updated::Written { name, target } => UpdatedView::Written(name@, target@),
            Updated::Deleted { name, previous } => UpdatedView::Deleted(name@, previous@),
        }
    }
}

/// The outcome of a transaction: the updates carried out and the
/// rejections.
#[derive(Clone, Debug, PartialEq, Eq)]
pub struct Applied {
    pub updates: Vec<Updated>,
    pub rejections: Vec<PreviousError>,
}

/// What one update does given the ref's current value: carried out,
/// rejected, or, for deleting a ref that is absent and may be, nothing.
pub open spec fn step_spec(u: Update, current: Option<Seq<u8>>) -> (Option<UpdatedView>, Option<
    PreviousErrorView,
>) {
    match u {
        Update::Write { name, target, previous } => match guard_spec(previous, current) {
            None => (Some(UpdatedView::Written(name@, target@)), None),
            Some(e) => (None, Some(e)),
        },
        Update::Delete { name, previous } => match current {
            Some(c) => match guard_spec(previous, current) {
                None => (Some(UpdatedView::Deleted(name@, c)), None),
                Some(e) => (None, Some(e)),
            },
            None => match previous {
                PreviousValue::Any | PreviousValue::MustNotExist | PreviousValue::IfExistsMustMatch(
                    _,
                ) => (None, None),
                _ => (None, Some(PreviousErrorView::DidNotExist)),
            },
        },
    }
}

pub open spec fn push_opt<A>(s: Seq<A>, o: Option<A>) -> Seq<A> {
    match o {
        Some(x) => s.push(x),
        None => s,
    }
}

/// The outcome of a transaction of `us` over refs whose current values are
/// `cur`, update by update.
pub open spec fn outcome(us: Seq<Update>, cur: Seq<Option<Oid>>) -> (Seq<UpdatedView>, Seq<
    PreviousErrorView,
>)
    decreases us.len(),
{
    if us.len() == 0 {
        (Seq::empty(), Seq::empty())
    } else {
        let (u, e) = outcome(us.drop_last(), cur);
        let (a, b) = step_spec(us.last(), opt_view(cur[us.len() - 1]));
        (push_opt(u, a), push_opt(e, b))
    }
}

/// Decides a transaction: `current[k]` is the value of `updates[k]`'s ref,
/// read under the transaction's lock. The updates carried out are the ones
/// to write before committing.
pub fn decide(updates: &Vec<Update>, current: &Vec<Option<Oid>>) -> (r: Applied)
    requires
        current@.len() == updates@.len(),
    ensures
        r.updates@.map_values(|u: Updated| u@) == outcome(updates@, current@).0,
        r.rejections@.map_values(|e: PreviousError| e@) == outcome(updates@, current@).1,
{
    let mut applied = Applied { updates: Vec::new(), rejections: Vec::new() };
    let mut i: usize = 0;
    while i < updates.len()
        invariant
            i <= updates@.len(),
            current@.len() == updates@.len(),
            applied.updates@.map_values(|u: Updated| u@) == outcome(
                updates@.subrange(0, i as int),
                current@,
            ).0,
            applied.rejections@.map_values(|e: PreviousError| e@) == outcome(
                updates@.subrange(0, i as int),
                current@,
            ).1,
        decreases updates.len() - i,
    {
        let ghost next = updates@.subrange(0, i + 1);
        assert(next.drop_last() =~= updates@.subrange(0, i as int));
        assert(next.last() == updates@[i as int]);
        let ghost u0 = applied.updates@;
        let ghost e0 = applied.rejections@;
        let cur = &current[i];
        match &updates[i] {
            Update::Write { name, target, previous } => match previous.guard(cur) {
                None => {
                    applied.updates.push(Updated::Written { name: to_vec(name.as_slice()), target: target.copied() });
                },
                Some(e) => {
                    applied.rejections.push(e);
                },
            },
            Update::Delete { name, previous } => match cur {
                Some(c) => match previous.guard(cur) {
                    None => {
                        applied.updates.push(Updated::Deleted { name: to_vec(name.as_slice()), previous: c.copied() });
                    },
                    Some(e) => {
                        applied.rejections.push(e);
                    },
                },
                None => match previous {
                    PreviousValue::Any | PreviousValue::MustNotExist | PreviousValue::IfExistsMustMatch(
                        _,
                    ) => {},
                    _ => {
                        applied.rejections.push(PreviousError::DidNotExist);
                    },
                },
            },
        }
        assert(applied.updates@.map_values(|u: Updated| u@) =~= push_opt(
            u0.map_values(|u: Updated| u@),
            step_spec(updates@[i as int], opt_view(current@[i as int])).0,
        ));
        assert(applied.rejections@.map_values(|e: PreviousError| e@) =~= push_opt(
            e0.map_values(|e: PreviousError| e@),
            step_spec(updates@[i as int], opt_view(current@[i as int])).1,
        ));
        i = i + 1;
    }
    assert(updates@.subrange(0, updates@.len() as int) =~= updates@);
    applied
}

/// A store that applies ref updates as one transaction: all or none.
pub trait Write {
    type TxnError;

    fn update(&self, updates: Vec<Update>) -> Result<Applied, Self::TxnError>;
}

/// The reference was symbolic, but it is expected to be direct.
#[derive(Clone, Copy, Debug, PartialEq, Eq)]
pub struct SymbolicRef;

/// A ref that could not be read as a [`Ref`].
#[derive(Clone, Debug, PartialEq, Eq)]
pub enum Conversion {
    /// Its name is not UTF-8.
    Format,
    SymbolicRef(SymbolicRef),
}

/// A failure to find a ref.
#[derive(Clone, Debug, PartialEq, Eq)]
pub enum Find {
    /// The storage failed, with its message.
    Storage(String),
    SymbolicRef(SymbolicRef),
}

/// A failure while iterating over refs.
#[derive(Clone, Debug, PartialEq, Eq)]
pub enum Iter {
    /// The storage failed, with its message.
    Storage(String),
    Conversion(Conversion),
}

/// Reads a stored ref, given its name and, for a direct ref, its target.
pub fn convert(name: &[u8], target: &Option<Oid>) -> (r: Result<Ref, Conversion>)
    ensures
        !is_utf8(name@) ==> r == Err::<Ref, Conversion>(Conversion::Format),
        is_utf8(name@) && target is None ==> r == Err::<Ref, Conversion>(
            Conversion::SymbolicRef(SymbolicRef),
        ),
        r is Ok == (is_utf8(name@) && target is Some),
        r matches Ok(x) ==> x.name@ == name@ && x.target@ == target->0@,
{
    if !utf8_check(name) {
        return Err(Conversion::Format);
    }
    match target {
        Some(t) => Ok(Ref { name: to_vec(name), target: t.copied() }),
        None => Err(Conversion::SymbolicRef(SymbolicRef)),
    }
}

/// The ref `name`, given what the storage found under it: nothing, or a
/// ref with its target if direct.
pub fn find_reference(name: &[u8], found: &Option<Option<Oid>>) -> (r: Result<Option<Ref>, Find>)
    ensures
        found is None ==> r matches Ok(None),
        found matches Some(None) ==> r == Err::<Option<Ref>, Find>(Find::SymbolicRef(SymbolicRef)),
        found matches Some(Some(t)) ==> r matches Ok(Some(x)) && x.name@ == name@ && x.target@ == t@,
{
    match found {
        None => Ok(None),
        Some(None) => Err(Find::SymbolicRef(SymbolicRef)),
        Some(Some(t)) => Ok(Some(Ref { name: to_vec(name), target: t.copied() })),
    }
}

/// The refs that matched a pattern, read one at a time.
pub struct References {
    /// Each stored ref: its name and, for a direct ref, its target.
    pub inner: Vec<(Vec<u8>, Option<Oid>)>,
    pub pos: usize,
}

impl References {
    /// The next ref, or why it could not be read.
    pub fn next(&mut self) -> (r: Option<Result<Ref, Iter>>)
        ensures
            old(self).pos >= old(self).inner@.len() ==> r is None && final(self).pos == old(self).pos,
            old(self).pos < old(self).inner@.len() ==> final(self).pos == old(self).pos + 1 && r is Some
                && (r->0 is Ok == (is_utf8(old(self).inner@[old(self).pos as int].0@)
                && old(self).inner@[old(self).pos as int].1 is Some)),
            r matches Some(Ok(x)) ==> x.name@ == old(self).inner@[old(self).pos as int].0@
                && x.target@ == old(self).inner@[old(self).pos as int].1->0@,
            r matches Some(Err(e)) ==> e == (if is_utf8(old(self).inner@[old(self).pos as int].0@) {
                Iter::Conversion(Conversion::SymbolicRef(SymbolicRef))
            } else {
                Iter::Conversion(Conversion::Format)
            }),
            final(self).inner@ == old(self).inner@,
    {
        if self.pos >= self.inner.len() {
            return None;
        }
        let item = &self.inner[self.pos];
        let r = match convert(item.0.as_slice(), &item.1) {
            Ok(x) => Ok(x),
            Err(e) => Err(Iter::Conversion(e)),
        };
        self.pos = self.pos + 1;
        Some(r)
    }
}

} // verus!
