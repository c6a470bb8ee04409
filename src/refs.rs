//! The grammar of ref names under a URN's namespace, and the names this
//! library writes: remote-tracking names and scoped names.
use vstd::prelude::*;

use crate::bytes::{
    SEP,
    bytes_eq,
    extend,
    join,
    join_components,
    lemma_split_concat,
    lemma_split_join,
    lemma_split_no_sep,
    no_sep,
    split,
    split_components,
    starts_with,
    to_vec,
    views,
};

verus! {

/// `refs`
pub open spec fn c_refs() -> Seq<u8> {
    seq![114u8, 101u8, 102u8, 115u8]
}

/// `remotes`
pub open spec fn c_remotes() -> Seq<u8> {
    seq![114u8, 101u8, 109u8, 111u8, 116u8, 101u8, 115u8]
}

/// `rad`
pub open spec fn c_rad() -> Seq<u8> {
    seq![114u8, 97u8, 100u8]
}

/// `id`
pub open spec fn c_id() -> Seq<u8> {
    seq![105u8, 100u8]
}

/// `self`
pub open spec fn c_self() -> Seq<u8> {
    seq![115u8, 101u8, 108u8, 102u8]
}

/// `signed_refs`
pub open spec fn c_signed_refs() -> Seq<u8> {
    seq![115u8, 105u8, 103u8, 110u8, 101u8, 100u8, 95u8, 114u8, 101u8, 102u8, 115u8]
}

/// `ids`
pub open spec fn c_ids() -> Seq<u8> {
    seq![105u8, 100u8, 115u8]
}

/// `heads`
pub open spec fn c_heads() -> Seq<u8> {
    seq![104u8, 101u8, 97u8, 100u8, 115u8]
}

/// `notes`
pub open spec fn c_notes() -> Seq<u8> {
    seq![110u8, 111u8, 116u8, 101u8, 115u8]
}

/// `tags`
pub open spec fn c_tags() -> Seq<u8> {
    seq![116u8, 97u8, 103u8, 115u8]
}

pub fn refs_lit() -> (r: Vec<u8>)
    ensures
        r@ == c_refs(),
{
    vec![114u8, 101u8, 102u8, 115u8]
}

pub fn remotes_lit() -> (r: Vec<u8>)
    ensures
        r@ == c_remotes(),
{
    vec![114u8, 101u8, 109u8, 111u8, 116u8, 101u8, 115u8]
}

pub fn rad_lit() -> (r: Vec<u8>)
    ensures
        r@ == c_rad(),
{
    vec![114u8, 97u8, 100u8]
}

pub fn id_lit() -> (r: Vec<u8>)
    ensures
        r@ == c_id(),
{
    vec![105u8, 100u8]
}

pub fn self_lit() -> (r: Vec<u8>)
    ensures
        r@ == c_self(),
{
    vec![115u8, 101u8, 108u8, 102u8]
}

pub fn signed_refs_lit() -> (r: Vec<u8>)
    ensures
        r@ == c_signed_refs(),
{
    vec![115u8, 105u8, 103u8, 110u8, 101u8, 100u8, 95u8, 114u8, 101u8, 102u8, 115u8]
}

pub fn ids_lit() -> (r: Vec<u8>)
    ensures
        r@ == c_ids(),
{
    vec![105u8, 100u8, 115u8]
}

pub fn heads_lit() -> (r: Vec<u8>)
    ensures
        r@ == c_heads(),
{
    vec![104u8, 101u8, 97u8, 100u8, 115u8]
}

pub fn notes_lit() -> (r: Vec<u8>)
    ensures
        r@ == c_notes(),
{
    vec![110u8, 111u8, 116u8, 101u8, 115u8]
}

pub fn tags_lit() -> (r: Vec<u8>)
    ensures
        r@ == c_tags(),
{
    vec![116u8, 97u8, 103u8, 115u8]
}

/// Whether `b` is valid UTF-8, as `std::str::from_utf8` decides it.
pub uninterp spec fn is_utf8(b: Seq<u8>) -> bool;

/// Relies on `std::str::from_utf8`: `Ok` exactly for valid UTF-8.
#[verifier::external_body]
pub(crate) fn utf8_check(b: &[u8]) -> (r: bool)
    ensures
        r == is_utf8(b@),
{
    std::str::from_utf8(b).is_ok()
}

/// Whether `b` is an ASCII letter or digit.
pub open spec fn is_alnum(b: u8) -> bool {
    (48u8 <= b <= 57u8) || (97u8 <= b <= 122u8) || (65u8 <= b <= 90u8)
}

/// The text form of a peer's public key: ASCII letters and digits, at least one.
pub open spec fn peer_text_ok(s: Seq<u8>) -> bool {
    s.len() > 0 && forall|i: int| 0 <= i < s.len() ==> is_alnum(#[trigger] s[i])
}

/// An object identifier: a fixed-size content hash, ordered by its bytes.
#[derive(Clone, Debug, PartialEq, Eq, PartialOrd, Ord, Hash)]
pub struct Oid {
    pub bytes: Vec<u8>,
}

impl View for Oid {
    type V = Seq<u8>;

    open spec fn view(&self) -> Seq<u8> {
        self.bytes@
    }
}

impl Oid {
    pub fn copied(&self) -> (r: Oid)
        ensures
            r@ == self@,
    {
        Oid { bytes: to_vec(self.bytes.as_slice()) }
    }

    pub fn same(&self, other: &Oid) -> (r: bool)
        ensures
            r == (self@ == other@),
    {
        bytes_eq(self.bytes.as_slice(), other.bytes.as_slice())
    }
}

/// A peer, named by the stable text encoding of its public key. Two peers
/// are equal exactly when their encodings are.
#[derive(Clone, Debug, PartialEq, Eq, PartialOrd, Ord, Hash)]
pub struct PeerId {
    pub text: Vec<u8>,
}

impl View for PeerId {
    type V = Seq<u8>;

    open spec fn view(&self) -> Seq<u8> {
        self.text@
    }
}

impl PeerId {
    pub open spec fn wf(&self) -> bool {
        peer_text_ok(self@)
    }

    /// Reads a peer id from its text form.
    pub fn from_text(s: &[u8]) -> (r: Option<PeerId>)
        ensures
            r is Some == peer_text_ok(s@),
            r is Some ==> r->0@ == s@,
    {
        if s.len() == 0 {
            return None;
        }
        let mut i: usize = 0;
        while i < s.len()
            invariant
                i <= s@.len(),
                forall|j: int| 0 <= j < i ==> is_alnum(#[trigger] s@[j]),
            decreases s.len() - i,
        {
            let b = s[i];
            if !((48u8 <= b && b <= 57u8) || (97u8 <= b && b <= 122u8) || (65u8 <= b && b <= 90u8)) {
                return None;
            }
            i = i + 1;
        }
        Some(PeerId { text: to_vec(s) })
    }

    pub fn copied(&self) -> (r: PeerId)
        ensures
            r@ == self@,
    {
        PeerId { text: to_vec(self.text.as_slice()) }
    }

    pub fn same(&self, other: &PeerId) -> (r: bool)
        ensures
            r == (self@ == other@),
    {
        bytes_eq(self.text.as_slice(), other.text.as_slice())
    }
}

pub proof fn lemma_peer_no_sep(s: Seq<u8>)
    requires
        peer_text_ok(s),
    ensures
        no_sep(s),
{
    assert forall|i: int| 0 <= i < s.len() implies s[i] != SEP by {
        assert(is_alnum(s[i]));
    }
}

/// A URN, held as its textual id.
#[derive(Clone, Debug, PartialEq, Eq, PartialOrd, Ord, Hash)]
pub struct Identity {
    pub id: Vec<u8>,
}

impl View for Identity {
    type V = Seq<u8>;

    open spec fn view(&self) -> Seq<u8> {
        self.id@
    }
}

impl Identity {
    /// The URN whose textual id is `s`.
    pub fn try_from_id(s: &[u8]) -> (r: Identity)
        ensures
            r@ == s@,
    {
        Identity { id: to_vec(s) }
    }

    /// The textual id.
    pub fn encode_id(&self) -> (r: Vec<u8>)
        ensures
            r@ == self@,
    {
        to_vec(self.id.as_slice())
    }
}

/// The category of a non-`rad` ref.
#[derive(Clone, Debug, PartialEq, Eq, PartialOrd, Ord, Hash)]
pub enum Cat {
    Heads,
    Notes,
    Tags,
    Unknown(Vec<u8>),
}

pub enum CatView {
    Heads,
    Notes,
    Tags,
    Unknown(Seq<u8>),
}

impl View for Cat {
    type V = CatView;

    open spec fn view(&self) -> CatView {
        match self {
            Cat::Heads => CatView::Heads,
            Cat::Notes => CatView::Notes,
            Cat::Tags => CatView::Tags,
            Cat::Unknown(x) => CatView::Unknown(x@),
        }
    }
}

pub open spec fn cat_bytes(c: CatView) -> Seq<u8> {
    match c {
        CatView::Heads => c_heads(),
        CatView::Notes => c_notes(),
        CatView::Tags => c_tags(),
        CatView::Unknown(x) => x,
    }
}

/// The category that a leading component names.
pub open spec fn cat_of(t: Seq<u8>) -> CatView {
    if t == c_heads() {
        CatView::Heads
    } else if t == c_notes() {
        CatView::Notes
    } else if t == c_tags() {
        CatView::Tags
    } else {
        CatView::Unknown(t)
    }
}

impl Cat {
    /// The component that names this category.
    pub fn as_bytes(&self) -> (r: Vec<u8>)
        ensures
            r@ == cat_bytes(self@),
    {
        match self {
            Cat::Heads => heads_lit(),
            Cat::Notes => notes_lit(),
            Cat::Tags => tags_lit(),
            Cat::Unknown(x) => to_vec(x.as_slice()),
        }
    }

    fn of(t: &[u8]) -> (r: Cat)
        ensures
            r@ == cat_of(t@),
    {
        if bytes_eq(t, heads_lit().as_slice()) {
            Cat::Heads
        } else if bytes_eq(t, notes_lit().as_slice()) {
            Cat::Notes
        } else if bytes_eq(t, tags_lit().as_slice()) {
            Cat::Tags
        } else {
            Cat::Unknown(to_vec(t))
        }
    }
}

/// The refs under `rad/`.
#[derive(Clone, Debug, PartialEq, Eq, PartialOrd, Ord, Hash)]
pub enum Rad {
    Id,
    /// `rad/self`
    Me,
    SignedRefs,
    Ids { urn: Identity },
}

pub enum RadView {
    Id,
    Me,
    SignedRefs,
    Ids(Seq<u8>),
}

impl View for Rad {
    type V = RadView;

    open spec fn view(&self) -> RadView {
        match self {
            Rad::Id => RadView::Id,
            Rad::Me => RadView::Me,
            Rad::SignedRefs => RadView::SignedRefs,
            Rad::Ids { urn } => RadView::Ids(urn@),
        }
    }
}

/// A ref of some category, with the components of its name after it.
#[derive(Clone, Debug, PartialEq, Eq, PartialOrd, Ord, Hash)]
pub struct Refs {
    pub cat: Cat,
    pub name: Vec<Vec<u8>>,
}

/// A `rad` ref, or one of some category.
#[derive(Clone, Debug, PartialEq, Eq, PartialOrd, Ord, Hash)]
pub enum Inner {
    Rad(Rad),
    Refs(Refs),
}

pub enum InnerView {
    Rad(RadView),
    Refs(CatView, Seq<Seq<u8>>),
}

impl View for Inner {
    type V = InnerView;

    open spec fn view(&self) -> InnerView {
        match self {
            Inner::Rad(r) => InnerView::Rad(r@),
            Inner::Refs(r) => InnerView::Refs(r.cat@, views(r.name@)),
        }
    }
}

/// A parsed ref name: the peer whose view it is, if it is not our own, and
/// what it names.
#[derive(Clone, Debug, PartialEq, Eq, PartialOrd, Ord, Hash)]
pub struct Parsed {
    pub remote: Option<PeerId>,
    pub inner: Inner,
}

pub struct ParsedView {
    pub remote: Option<Seq<u8>>,
    pub inner: InnerView,
}

impl View for Parsed {
    type V = ParsedView;

    open spec fn view(&self) -> ParsedView {
        ParsedView {
            remote: match self.remote {
                Some(p) => Some(p@),
                None => None,
            },
            inner: self.inner@,
        }
    }
}

/// What follows `refs/` and the optional `remotes/<peer>/`.
pub open spec fn parse_rest(remote: Option<Seq<u8>>, rest: Seq<Seq<u8>>) -> Option<ParsedView> {
    if rest.len() == 0 || rest[0].len() == 0 {
        None
    } else if rest[0] == c_rad() {
        if rest.len() < 2 {
            None
        } else if rest[1] == c_id() {
            Some(ParsedView { remote, inner: InnerView::Rad(RadView::Id) })
        } else if rest[1] == c_self() {
            Some(ParsedView { remote, inner: InnerView::Rad(RadView::Me) })
        } else if rest[1] == c_signed_refs() {
            Some(ParsedView { remote, inner: InnerView::Rad(RadView::SignedRefs) })
        } else if rest[1] == c_ids() && rest.len() >= 3 && is_utf8(rest[2]) {
            Some(ParsedView { remote, inner: InnerView::Rad(RadView::Ids(rest[2])) })
        } else {
            None
        }
    } else if rest.len() < 2 {
        None
    } else {
        Some(
            ParsedView {
                remote,
                inner: InnerView::Refs(cat_of(rest[0]), rest.subrange(1, rest.len() as int)),
            },
        )
    }
}

pub open spec fn parse_components(cs: Seq<Seq<u8>>) -> Option<ParsedView> {
    if cs.len() < 2 || cs[0] != c_refs() {
        None
    } else if cs[1] == c_remotes() {
        if cs.len() < 3 || !peer_text_ok(cs[2]) {
            None
        } else {
            parse_rest(Some(cs[2]), cs.subrange(3, cs.len() as int))
        }
    } else {
        parse_rest(None, cs.subrange(1, cs.len() as int))
    }
}

/// The meaning of a ref name, if it follows the grammar.
pub open spec fn parse_spec(s: Seq<u8>) -> Option<ParsedView> {
    parse_components(split(s))
}

pub open spec fn inner_components(i: InnerView) -> Seq<Seq<u8>> {
    match i {
        InnerView::Rad(RadView::Id) => seq![c_rad(), c_id()],
        InnerView::Rad(RadView::Me) => seq![c_rad(), c_self()],
        InnerView::Rad(RadView::SignedRefs) => seq![c_rad(), c_signed_refs()],
        InnerView::Rad(RadView::Ids(u)) => seq![c_rad(), c_ids(), u],
        InnerView::Refs(cat, name) => seq![cat_bytes(cat)] + name,
    }
}

pub open spec fn components(p: ParsedView) -> Seq<Seq<u8>> {
    seq![c_refs()] + match p.remote {
        Some(r) => seq![c_remotes(), r],
        None => Seq::<Seq<u8>>::empty(),
    } + inner_components(p.inner)
}

/// The ref name that a parsed ref stands for.
pub open spec fn render_spec(p: ParsedView) -> Seq<u8> {
    join(components(p))
}

/// The parsed refs that render to a name which parses back to them.
pub open spec fn parsed_wf(p: ParsedView) -> bool {
    &&& p.remote matches Some(r) ==> peer_text_ok(r)
    &&& match p.inner {
        InnerView::Rad(RadView::Ids(u)) => no_sep(u) && is_utf8(u),
        InnerView::Rad(_) => true,
        InnerView::Refs(cat, name) => {
            &&& name.len() >= 1
            &&& forall|i: int| 0 <= i < name.len() ==> no_sep(#[trigger] name[i])
            &&& cat matches CatView::Unknown(t) ==> {
                &&& t.len() > 0
                &&& no_sep(t)
                &&& t != c_rad() && t != c_heads() && t != c_notes() && t != c_tags()
                &&& p.remote is None ==> t != c_remotes()
            }
        },
    }
}

fn tail_from(cs: &Vec<Vec<u8>>, k: usize) -> (r: Vec<Vec<u8>>)
    requires
        k <= cs@.len(),
    ensures
        views(r@) == views(cs@).subrange(k as int, cs@.len() as int),
{
    let mut r: Vec<Vec<u8>> = Vec::new();
    let mut i: usize = k;
    while i < cs.len()
        invariant
            k <= i <= cs@.len(),
            views(r@) == views(cs@).subrange(k as int, i as int),
        decreases cs.len() - i,
    {
        let c = to_vec(cs[i].as_slice());
        let ghost before = r@;
        r.push(c);
        assert(views(r@) =~= views(before).push(cs@[i as int]@));
        i = i + 1;
        assert(views(r@) =~= views(cs@).subrange(k as int, i as int));
    }
    r
}

fn parse_rest_exec(remote: Option<PeerId>, cs: &Vec<Vec<u8>>, k: usize) -> (r: Option<Parsed>)
    requires
        k <= cs@.len(),
    ensures
        r is Some == parse_rest(
            match remote {
                Some(p) => Some(p@),
                None => None,
            },
            views(cs@).subrange(k as int, cs@.len() as int),
        ) is Some,
        r is Some ==> parse_rest(
            match remote {
                Some(p) => Some(p@),
                None => None,
            },
            views(cs@).subrange(k as int, cs@.len() as int),
        ) == Some(r->0@),
{
    let ghost rest = views(cs@).subrange(k as int, cs@.len() as int);
    if k >= cs.len() {
        return None;
    }
    assert(rest[0] == cs@[k as int]@);
    let head = cs[k].as_slice();
    if head.len() == 0 {
        return None;
    }
    if bytes_eq(head, rad_lit().as_slice()) {
        if k + 1 >= cs.len() {
            return None;
        }
        assert(rest[1] == cs@[k + 1]@);
        let what = cs[k + 1].as_slice();
        if bytes_eq(what, id_lit().as_slice()) {
            Some(Parsed { remote, inner: Inner::Rad(Rad::Id) })
        } else if bytes_eq(what, self_lit().as_slice()) {
            Some(Parsed { remote, inner: Inner::Rad(Rad::Me) })
        } else if bytes_eq(what, signed_refs_lit().as_slice()) {
            Some(Parsed { remote, inner: Inner::Rad(Rad::SignedRefs) })
        } else if bytes_eq(what, ids_lit().as_slice()) {
            if k + 2 >= cs.len() {
                return None;
            }
            assert(rest[2] == cs@[k + 2]@);
            let u = cs[k + 2].as_slice();
            if utf8_check(u) {
                Some(Parsed { remote, inner: Inner::Rad(Rad::Ids { urn: Identity::try_from_id(u) }) })
            } else {
                None
            }
        } else {
            None
        }
    } else if k + 1 >= cs.len() {
        None
    } else {
        let cat = Cat::of(head);
        let name = tail_from(cs, k + 1);
        assert(views(name@) =~= rest.subrange(1, rest.len() as int));
        Some(Parsed { remote, inner: Inner::Refs(Refs { cat, name }) })
    }
}

/// Parses a ref name: `refs/`, then optionally `remotes/<peer>/`, then a
/// `rad` ref or a category followed by a non-empty name.
pub fn parse(orig: &[u8]) -> (r: Option<Parsed>)
    ensures
        r is Some == parse_spec(orig@) is Some,
        r is Some ==> parse_spec(orig@) == Some(r->0@),
{
    let cs = split_components(orig);
    let ghost v = views(cs@);
    if cs.len() < 2 {
        return None;
    }
    assert(v[0] == cs@[0]@ && v[1] == cs@[1]@);
    if !bytes_eq(cs[0].as_slice(), refs_lit().as_slice()) {
        return None;
    }
    if bytes_eq(cs[1].as_slice(), remotes_lit().as_slice()) {
        if cs.len() < 3 {
            return None;
        }
        assert(v[2] == cs@[2]@);
        match PeerId::from_text(cs[2].as_slice()) {
            None => None,
            Some(remote) => parse_rest_exec(Some(remote), &cs, 3),
        }
    } else {
        parse_rest_exec(None, &cs, 1)
    }
}

proof fn lemma_literals()
    ensures
        no_sep(c_refs()),
        no_sep(c_remotes()),
        no_sep(c_rad()),
        no_sep(c_id()),
        no_sep(c_self()),
        no_sep(c_signed_refs()),
        no_sep(c_ids()),
        no_sep(c_heads()),
        no_sep(c_notes()),
        no_sep(c_tags()),
        c_heads() != c_notes(),
        c_refs() != c_remotes(),
{
    assert(c_heads()[0] != c_notes()[0]);
}

/// Rendering a well-formed parsed ref and parsing the name gives it back.
pub proof fn lemma_parse_render(p: ParsedView)
    requires
        parsed_wf(p),
    ensures
        parse_spec(render_spec(p)) == Some(p),
{
    lemma_literals();
    let cs = components(p);
    let inner = inner_components(p.inner);
    let pre = seq![c_refs()] + match p.remote {
        Some(r) => seq![c_remotes(), r],
        None => Seq::<Seq<u8>>::empty(),
    };
    assert(cs == pre + inner);
    if let Some(r) = p.remote {
        lemma_peer_no_sep(r);
    }
    if let InnerView::Refs(cat, name) = p.inner {
        assert forall|i: int| 0 <= i < inner.len() implies no_sep(#[trigger] inner[i]) by {
            if i > 0 {
                assert(inner[i] == name[i - 1]);
            }
        }
    }
    assert forall|i: int| 0 <= i < cs.len() implies no_sep(#[trigger] cs[i]) by {
        if i >= pre.len() {
            assert(cs[i] == inner[i - pre.len()]);
        }
    }
    lemma_split_join(cs);
    let off: int = pre.len() as int;
    assert(cs.subrange(off, cs.len() as int) =~= inner);
    match p.inner {
        InnerView::Refs(cat, name) => {
            assert(inner.subrange(1, inner.len() as int) =~= name);
            assert(cat_of(cat_bytes(cat)) == cat);
        },
        _ => {},
    }
}

impl Parsed {
    /// The ref name for this parsed ref.
    pub fn to_refname(&self) -> (r: Vec<u8>)
        ensures
            r@ == render_spec(self@),
    {
        let mut cs: Vec<Vec<u8>> = Vec::new();
        cs.push(refs_lit());
        match &self.remote {
            Some(peer) => {
                cs.push(remotes_lit());
                cs.push(to_vec(peer.text.as_slice()));
            },
            None => {},
        }
        let ghost pre = views(cs@);
        match &self.inner {
            Inner::Rad(rad) => {
                cs.push(rad_lit());
                match rad {
                    Rad::Id => cs.push(id_lit()),
                    Rad::Me => cs.push(self_lit()),
                    Rad::SignedRefs => cs.push(signed_refs_lit()),
                    Rad::Ids { urn } => {
                        cs.push(ids_lit());
                        cs.push(urn.encode_id());
                    },
                }
            },
            Inner::Refs(refs) => {
                cs.push(refs.cat.as_bytes());
                let mut i: usize = 0;
                while i < refs.name.len()
                    invariant
                        i <= refs.name@.len(),
                        views(cs@) == pre + seq![cat_bytes(refs.cat@)] + views(refs.name@).subrange(
                            0,
                            i as int,
                        ),
                    decreases refs.name.len() - i,
                {
                    let ghost before = cs@;
                    cs.push(to_vec(refs.name[i].as_slice()));
                    assert(views(cs@) =~= views(before).push(refs.name@[i as int]@));
                    i = i + 1;
                    assert(views(cs@) =~= pre + seq![cat_bytes(refs.cat@)] + views(
                        refs.name@,
                    ).subrange(0, i as int));
                }
                assert(views(refs.name@).subrange(0, refs.name@.len() as int) =~= views(
                    refs.name@,
                ));
            },
        }
        assert(views(cs@) =~= components(self@));
        join_components(&cs)
    }
}

/// `refs/rad/id`
pub open spec fn rad_id_name() -> Seq<u8> {
    join(seq![c_refs(), c_rad(), c_id()])
}

/// `refs/rad/self`
pub open spec fn rad_self_name() -> Seq<u8> {
    join(seq![c_refs(), c_rad(), c_self()])
}

/// `refs/rad/signed_refs`
pub open spec fn signed_refs_name() -> Seq<u8> {
    join(seq![c_refs(), c_rad(), c_signed_refs()])
}

/// `refs/rad/ids/`
pub open spec fn rad_ids_prefix() -> Seq<u8> {
    join(seq![c_refs(), c_rad(), c_ids(), Seq::<u8>::empty()])
}

/// `refs/<cat>/`
pub open spec fn cat_prefix(cat: Seq<u8>) -> Seq<u8> {
    join(seq![c_refs(), cat, Seq::<u8>::empty()])
}

fn join3(a: Vec<u8>, b: Vec<u8>, c: Vec<u8>) -> (r: Vec<u8>)
    ensures
        r@ == join(seq![a@, b@, c@]),
{
    let v = vec![a, b, c];
    assert(views(v@) =~= seq![v@[0]@, v@[1]@, v@[2]@]);
    join_components(&v)
}

fn join4(a: Vec<u8>, b: Vec<u8>, c: Vec<u8>, d: Vec<u8>) -> (r: Vec<u8>)
    ensures
        r@ == join(seq![a@, b@, c@, d@]),
{
    let v = vec![a, b, c, d];
    assert(views(v@) =~= seq![v@[0]@, v@[1]@, v@[2]@, v@[3]@]);
    join_components(&v)
}

pub fn rad_id_ref() -> (r: Vec<u8>)
    ensures
        r@ == rad_id_name(),
{
    join3(refs_lit(), rad_lit(), id_lit())
}

pub fn rad_self_ref() -> (r: Vec<u8>)
    ensures
        r@ == rad_self_name(),
{
    join3(refs_lit(), rad_lit(), self_lit())
}

pub fn signed_refs_ref() -> (r: Vec<u8>)
    ensures
        r@ == signed_refs_name(),
{
    join3(refs_lit(), rad_lit(), signed_refs_lit())
}

pub fn rad_ids_ref_prefix() -> (r: Vec<u8>)
    ensures
        r@ == rad_ids_prefix(),
{
    join4(refs_lit(), rad_lit(), ids_lit(), Vec::new())
}

pub fn cat_ref_prefix(cat: &Cat) -> (r: Vec<u8>)
    ensures
        r@ == cat_prefix(cat_bytes(cat@)),
{
    join3(refs_lit(), cat.as_bytes(), Vec::new())
}

/// `refs/`
pub open spec fn refs_slash() -> Seq<u8> {
    c_refs().push(SEP)
}

/// `name` without a leading `refs/`.
pub open spec fn strip_refs(name: Seq<u8>) -> Seq<u8> {
    if refs_slash().len() <= name.len() && name.subrange(0, refs_slash().len() as int)
        == refs_slash() {
        name.subrange(refs_slash().len() as int, name.len() as int)
    } else {
        name
    }
}

/// `refs/remotes/<peer>/` followed by the owned form of `name` without its
/// leading `refs/`.
pub open spec fn remote_tracking_spec(peer: Seq<u8>, name: Seq<u8>) -> Seq<u8> {
    c_refs() + seq![SEP] + c_remotes() + seq![SEP] + peer + seq![SEP] + strip_refs(owned_spec(name))
}

/// The peer whose view a ref name is under, if it is a remote-tracking name.
pub open spec fn ref_remote(name: Seq<u8>) -> Option<Seq<u8>> {
    let cs = split(name);
    if cs.len() >= 3 && cs[0] == c_refs() && cs[1] == c_remotes() {
        Some(cs[2])
    } else {
        None
    }
}

/// A remote-tracking name is under the view of the peer it was made for.
pub proof fn lemma_remote_tracking_remote(peer: Seq<u8>, name: Seq<u8>)
    requires
        peer_text_ok(peer),
    ensures
        ref_remote(remote_tracking_spec(peer, name)) == Some(peer),
{
    lemma_literals();
    lemma_peer_no_sep(peer);
    let a = c_refs() + seq![SEP] + c_remotes();
    let b = a + seq![SEP] + peer;
    lemma_split_no_sep(c_refs());
    lemma_split_no_sep(c_remotes());
    lemma_split_no_sep(peer);
    lemma_split_concat(c_refs(), c_remotes());
    lemma_split_concat(a, peer);
    lemma_split_concat(b, strip_refs(owned_spec(name)));
    assert(remote_tracking_spec(peer, name) == b + seq![SEP] + strip_refs(owned_spec(name)));
    let cs = split(remote_tracking_spec(peer, name));
    assert(split(b) =~= seq![c_refs(), c_remotes(), peer]);
    assert(cs[0] == c_refs() && cs[1] == c_remotes() && cs[2] == peer);
}

/// The remote-tracking name of `name` under `peer`'s view.
pub fn remote_tracking(peer: &PeerId, name: &[u8]) -> (r: Vec<u8>)
    ensures
        r@ == remote_tracking_spec(peer@, name@),
{
    let own = owned(name);
    let n = own.as_slice();
    let mut r = refs_lit();
    r.push(SEP);
    extend(&mut r, remotes_lit().as_slice());
    r.push(SEP);
    extend(&mut r, peer.text.as_slice());
    r.push(SEP);
    let mut prefix = refs_lit();
    prefix.push(SEP);
    assert(prefix@ =~= refs_slash());
    if starts_with(n, prefix.as_slice()) {
        let mut i: usize = prefix.len();
        let ghost base = r@;
        while i < n.len()
            invariant
                prefix@.len() <= i <= n@.len(),
                r@ == base + n@.subrange(prefix@.len() as int, i as int),
            decreases n.len() - i,
        {
            r.push(n[i]);
            i = i + 1;
            assert(r@ =~= base + n@.subrange(prefix@.len() as int, i as int));
        }
    } else {
        extend(&mut r, n);
    }
    assert(n@ == owned_spec(name@));
    assert(r@ =~= remote_tracking_spec(peer@, name@));
    r
}

/// The owned form of a name: `refs/remotes/<peer>/<rest>` becomes
/// `refs/<rest>`; any other name stays as it is.
pub open spec fn owned_spec(name: Seq<u8>) -> Seq<u8> {
    let cs = split(name);
    if cs.len() >= 4 && cs[0] == c_refs() && cs[1] == c_remotes() {
        join(seq![c_refs()] + cs.subrange(3, cs.len() as int))
    } else {
        name
    }
}

pub fn owned(name: &[u8]) -> (r: Vec<u8>)
    ensures
        r@ == owned_spec(name@),
{
    let cs = split_components(name);
    let ghost v = views(cs@);
    if cs.len() >= 4 {
        assert(v[0] == cs@[0]@ && v[1] == cs@[1]@);
        if bytes_eq(cs[0].as_slice(), refs_lit().as_slice()) && bytes_eq(
            cs[1].as_slice(),
            remotes_lit().as_slice(),
        ) {
            let mut out: Vec<Vec<u8>> = Vec::new();
            out.push(refs_lit());
            let mut i: usize = 3;
            while i < cs.len()
                invariant
                    3 <= i <= cs@.len(),
                    v == views(cs@),
                    views(out@) == seq![c_refs()] + v.subrange(3, i as int),
                decreases cs.len() - i,
            {
                let ghost before = out@;
                out.push(to_vec(cs[i].as_slice()));
                assert(views(out@) =~= views(before).push(v[i as int]));
                i = i + 1;
                assert(views(out@) =~= seq![c_refs()] + v.subrange(3, i as int));
            }
            return join_components(&out);
        }
    }
    to_vec(name)
}

/// A name as seen through a peer: `owner`'s view of `name`, asked of the
/// peer we talk to. No scope means the peer's own ref.
#[derive(Clone, Debug, PartialEq, Eq, PartialOrd, Ord, Hash)]
pub struct Scoped {
    pub scope: Option<PeerId>,
    pub name: Vec<u8>,
}

/// The ref name a scoped name stands for.
pub open spec fn scoped_name(scope: Option<Seq<u8>>, name: Seq<u8>) -> Seq<u8> {
    match scope {
        None => name,
        Some(owner) => remote_tracking_spec(owner, name),
    }
}

impl Scoped {
    pub open spec fn scope_view(&self) -> Option<Seq<u8>> {
        match self.scope {
            Some(p) => Some(p@),
            None => None,
        }
    }

    pub open spec fn refname_spec(&self) -> Seq<u8> {
        scoped_name(self.scope_view(), self.name@)
    }

    /// The ref name, as sent in a `ref-prefix` or compared to what came back.
    pub fn as_refname(&self) -> (r: Vec<u8>)
        ensures
            r@ == self.refname_spec(),
    {
        match &self.scope {
            None => to_vec(self.name.as_slice()),
            Some(owner) => remote_tracking(owner, self.name.as_slice()),
        }
    }
}

/// `owner`'s view of `name`, asked of `remote_id`: unscoped when the owner is
/// the peer asked.
pub fn scoped(owner: &PeerId, remote_id: &PeerId, name: &[u8]) -> (r: Scoped)
    ensures
        r.scope_view() == (if owner@ == remote_id@ {
            None::<Seq<u8>>
        } else {
            Some(owner@)
        }),
        r.name@ == owned_spec(name@),
{
    let scope = if owner.same(remote_id) {
        None
    } else {
        Some(owner.copied())
    };
    Scoped { scope, name: owned(name) }
}

/// A name of components, starting with `refs` and not followed by
/// `remotes`, is its own owned form.
pub proof fn lemma_owned_plain(cs: Seq<Seq<u8>>)
    requires
        cs.len() >= 2,
        cs[0] == c_refs(),
        cs[1] != c_remotes(),
        forall|i: int| 0 <= i < cs.len() ==> no_sep(#[trigger] cs[i]),
    ensures
        owned_spec(join(cs)) == join(cs),
{
    lemma_split_join(cs);
}

/// The fixed names of this grammar are their own owned forms.
pub proof fn lemma_owned_names()
    ensures
        owned_spec(rad_id_name()) == rad_id_name(),
        owned_spec(rad_self_name()) == rad_self_name(),
        owned_spec(signed_refs_name()) == signed_refs_name(),
        owned_spec(rad_ids_prefix()) == rad_ids_prefix(),
        owned_spec(cat_prefix(c_heads())) == cat_prefix(c_heads()),
        owned_spec(cat_prefix(c_notes())) == cat_prefix(c_notes()),
        owned_spec(cat_prefix(c_tags())) == cat_prefix(c_tags()),
{
    lemma_literals();
    assert(no_sep(Seq::<u8>::empty()));
    let e = Seq::<u8>::empty();
    let a = seq![c_refs(), c_rad(), c_id()];
    assert(a[0] == c_refs() && a[1] == c_rad() && a[2] == c_id());
    lemma_owned_plain(a);
    let a = seq![c_refs(), c_rad(), c_self()];
    assert(a[0] == c_refs() && a[1] == c_rad() && a[2] == c_self());
    lemma_owned_plain(a);
    let a = seq![c_refs(), c_rad(), c_signed_refs()];
    assert(a[0] == c_refs() && a[1] == c_rad() && a[2] == c_signed_refs());
    lemma_owned_plain(a);
    let a = seq![c_refs(), c_rad(), c_ids(), e];
    assert(a[0] == c_refs() && a[1] == c_rad() && a[2] == c_ids() && a[3] == e);
    lemma_owned_plain(a);
    let a = seq![c_refs(), c_heads(), e];
    assert(a[0] == c_refs() && a[1] == c_heads() && a[2] == e);
    lemma_owned_plain(a);
    let a = seq![c_refs(), c_notes(), e];
    assert(a[0] == c_refs() && a[1] == c_notes() && a[2] == e);
    lemma_owned_plain(a);
    let a = seq![c_refs(), c_tags(), e];
    assert(a[0] == c_refs() && a[1] == c_tags() && a[2] == e);
    lemma_owned_plain(a);
}

} // verus!
