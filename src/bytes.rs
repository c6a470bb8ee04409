//! Byte strings: equality, affixes, and splitting and joining on `/`.
use vstd::prelude::*;

verus! {

/// The separator of ref name components.
pub const SEP: u8 = 0x2f;

/// The components of `s` between separators, as `<[u8]>::split` yields
/// them: an empty input gives one empty component.
pub open spec fn split(s: Seq<u8>) -> Seq<Seq<u8>>
    decreases s.len(),
{
    if s.len() == 0 {
        seq![Seq::<u8>::empty()]
    } else {
        let r = split(s.drop_last());
        if s.last() == SEP {
            r.push(Seq::<u8>::empty())
        } else {
            r.update(r.len() - 1, r.last().push(s.last()))
        }
    }
}

/// The components of `cs` with one separator between each two.
pub open spec fn join(cs: Seq<Seq<u8>>) -> Seq<u8>
    decreases cs.len(),
{
    if cs.len() == 0 {
        Seq::<u8>::empty()
    } else if cs.len() == 1 {
        cs[0]
    } else {
        join(cs.drop_last()) + seq![SEP] + cs.last()
    }
}

pub open spec fn no_sep(c: Seq<u8>) -> bool {
    forall|i: int| 0 <= i < c.len() ==> c[i] != SEP
}

pub open spec fn views(v: Seq<Vec<u8>>) -> Seq<Seq<u8>> {
    v.map_values(|x: Vec<u8>| x@)
}

pub proof fn lemma_split_nonempty(s: Seq<u8>)
    ensures
        split(s).len() >= 1,
    decreases s.len(),
{
    if s.len() > 0 {
        lemma_split_nonempty(s.drop_last());
    }
}

pub proof fn lemma_split_no_sep(c: Seq<u8>)
    requires
        no_sep(c),
    ensures
        split(c) == seq![c],
    decreases c.len(),
{
    if c.len() == 0 {
        assert(c =~= Seq::<u8>::empty());
    } else {
        assert(c[c.len() - 1] != SEP);
        assert(no_sep(c.drop_last()));
        lemma_split_no_sep(c.drop_last());
        assert(seq![c.drop_last()].last().push(c.last()) =~= c);
        assert(seq![c.drop_last()].update(0, c) =~= seq![c]);
    }
}

/// Splitting at one separator splits each side on its own.
pub proof fn lemma_split_concat(a: Seq<u8>, b: Seq<u8>)
    ensures
        split(a + seq![SEP] + b) == split(a) + split(b),
    decreases b.len(),
{
    let x = a + seq![SEP] + b;
    lemma_split_nonempty(a);
    if b.len() == 0 {
        assert(x.drop_last() =~= a);
        assert(b =~= Seq::<u8>::empty());
        assert(split(a).push(Seq::<u8>::empty()) =~= split(a) + split(b));
    } else {
        assert(x.drop_last() =~= a + seq![SEP] + b.drop_last());
        lemma_split_concat(a, b.drop_last());
        lemma_split_nonempty(b.drop_last());
        assert(x.last() == b.last());
        let r = split(a) + split(b.drop_last());
        if b.last() == SEP {
            assert(r.push(Seq::<u8>::empty()) =~= split(a) + split(b));
        } else {
            let rb = split(b.drop_last());
            assert(r.update(r.len() - 1, r.last().push(x.last())) =~= split(a) + rb.update(
                rb.len() - 1,
                rb.last().push(b.last()),
            ));
        }
    }
}

pub proof fn lemma_split_append(a: Seq<u8>, c: Seq<u8>)
    requires
        no_sep(c),
    ensures
        split(a + seq![SEP] + c) == split(a).push(c),
{
    lemma_split_concat(a, c);
    lemma_split_no_sep(c);
    assert(split(a) + seq![c] =~= split(a).push(c));
}

/// Splitting what was joined gives back the components.
pub proof fn lemma_split_join(cs: Seq<Seq<u8>>)
    requires
        cs.len() >= 1,
        forall|i: int| 0 <= i < cs.len() ==> no_sep(#[trigger] cs[i]),
    ensures
        split(join(cs)) == cs,
    decreases cs.len(),
{
    if cs.len() == 1 {
        lemma_split_no_sep(cs[0]);
        assert(seq![cs[0]] =~= cs);
    } else {
        let init = cs.drop_last();
        assert forall|i: int| 0 <= i < init.len() implies no_sep(#[trigger] init[i]) by {
            assert(init[i] == cs[i]);
        }
        lemma_split_join(init);
        assert(no_sep(cs[cs.len() - 1]));
        lemma_split_append(join(init), cs.last());
        assert(init.push(cs.last()) =~= cs);
    }
}

/// Whether two byte strings are equal.
pub fn bytes_eq(a: &[u8], b: &[u8]) -> (r: bool)
    ensures
        r == (a@ == b@),
{
    if a.len() != b.len() {
        return false;
    }
    let mut i: usize = 0;
    while i < a.len()
        invariant
            a@.len() == b@.len(),
            i <= a@.len(),
            forall|j: int| 0 <= j < i ==> a@[j] == b@[j],
        decreases a.len() - i,
    {
        if a[i] != b[i] {
            return false;
        }
        i = i + 1;
    }
    assert(a@ =~= b@);
    true
}

/// Whether `s` ends with `suffix`.
pub fn ends_with(s: &[u8], suffix: &[u8]) -> (r: bool)
    ensures
        r == (suffix@.len() <= s@.len() && s@.subrange(s@.len() - suffix@.len(), s@.len() as int)
            == suffix@),
{
    if suffix.len() > s.len() {
        return false;
    }
    let n: usize = s.len();
    let off: usize = n - suffix.len();
    let mut i: usize = 0;
    while i < suffix.len()
        invariant
            n == s@.len(),
            off + suffix@.len() == s@.len(),
            i <= suffix@.len(),
            forall|j: int| 0 <= j < i ==> s@[off + j] == suffix@[j],
        decreases suffix.len() - i,
    {
        if s[off + i] != suffix[i] {
            assert(s@.subrange(off as int, s@.len() as int)[i as int] != suffix@[i as int]);
            return false;
        }
        i = i + 1;
    }
    assert(s@.subrange(off as int, s@.len() as int) =~= suffix@);
    true
}

/// Whether `s` starts with `prefix`.
pub fn starts_with(s: &[u8], prefix: &[u8]) -> (r: bool)
    ensures
        r == (prefix@.len() <= s@.len() && s@.subrange(0, prefix@.len() as int) == prefix@),
{
    if prefix.len() > s.len() {
        return false;
    }
    let mut i: usize = 0;
    while i < prefix.len()
        invariant
            prefix@.len() <= s@.len(),
            i <= prefix@.len(),
            forall|j: int| 0 <= j < i ==> s@[j] == prefix@[j],
        decreases prefix.len() - i,
    {
        if s[i] != prefix[i] {
            assert(s@.subrange(0, prefix@.len() as int)[i as int] != prefix@[i as int]);
            return false;
        }
        i = i + 1;
    }
    assert(s@.subrange(0, prefix@.len() as int) =~= prefix@);
    true
}

/// A copy of `s`.
pub fn to_vec(s: &[u8]) -> (r: Vec<u8>)
    ensures
        r@ == s@,
{
    let mut r: Vec<u8> = Vec::new();
    let mut i: usize = 0;
    while i < s.len()
        invariant
            i <= s@.len(),
            r@ == s@.subrange(0, i as int),
        decreases s.len() - i,
    {
        r.push(s[i]);
        i = i + 1;
        assert(r@ =~= s@.subrange(0, i as int));
    }
    assert(r@ =~= s@);
    r
}

/// Appends all of `s` to `out`.
pub fn extend(out: &mut Vec<u8>, s: &[u8])
    ensures
        final(out)@ == old(out)@ + s@,
{
    let mut i: usize = 0;
    while i < s.len()
        invariant
            i <= s@.len(),
            out@ == old(out)@ + s@.subrange(0, i as int),
        decreases s.len() - i,
    {
        out.push(s[i]);
        i = i + 1;
        assert(out@ =~= old(out)@ + s@.subrange(0, i as int));
    }
    assert(s@.subrange(0, s@.len() as int) =~= s@);
}

/// The components of `s` between separators.
pub fn split_components(s: &[u8]) -> (r: Vec<Vec<u8>>)
    ensures
        views(r@) == split(s@),
{
    let mut parts: Vec<Vec<u8>> = Vec::new();
    let mut cur: Vec<u8> = Vec::new();
    let mut i: usize = 0;
    assert(s@.subrange(0, 0) =~= Seq::<u8>::empty());
    assert(views(parts@).push(cur@) =~= split(s@.subrange(0, 0)));
    while i < s.len()
        invariant
            i <= s@.len(),
            views(parts@).push(cur@) == split(s@.subrange(0, i as int)),
        decreases s.len() - i,
    {
        let ghost pre = s@.subrange(0, i as int);
        let ghost next = s@.subrange(0, i + 1);
        assert(next.drop_last() =~= pre);
        assert(next.last() == s@[i as int]);
        if s[i] == SEP {
            let done = cur;
            parts.push(done);
            cur = Vec::new();
            assert(views(parts@).push(cur@) =~= split(pre).push(Seq::<u8>::empty()));
        } else {
            cur.push(s[i]);
            let ghost r = split(pre);
            assert(views(parts@).push(cur@) =~= r.update(r.len() - 1, r.last().push(s@[i as int])));
        }
        i = i + 1;
    }
    parts.push(cur);
    assert(s@.subrange(0, s@.len() as int) =~= s@);
    assert(views(parts@) =~= split(s@));
    parts
}

/// The components of `cs` joined by separators.
pub fn join_components(cs: &Vec<Vec<u8>>) -> (r: Vec<u8>)
    ensures
        r@ == join(views(cs@)),
{
    let mut r: Vec<u8> = Vec::new();
    let mut i: usize = 0;
    while i < cs.len()
        invariant
            i <= cs@.len(),
            r@ == join(views(cs@.subrange(0, i as int))),
        decreases cs.len() - i,
    {
        let ghost pre = views(cs@.subrange(0, i as int));
        let ghost next = views(cs@.subrange(0, i + 1));
        assert(next.drop_last() =~= pre);
        if i > 0 {
            r.push(SEP);
        }
        extend(&mut r, cs[i].as_slice());
        if i == 0 {
            assert(r@ =~= next[0]);
        } else {
            assert(r@ =~= join(pre) + seq![SEP] + next.last());
        }
        i = i + 1;
    }
    assert(cs@.subrange(0, cs@.len() as int) =~= cs@);
    r
}

} // verus!
