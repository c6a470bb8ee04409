//! A git remote to set up in a working copy: its URL, name and refspecs.
use vstd::prelude::*;

verus! {

/// A remote, with its refspecs in their text form.
#[derive(Clone, Debug, PartialEq, Eq)]
pub struct Remote<Url> {
    /// The location of the monorepo.
    pub url: Url,
    /// Name of the remote, e.g. `"rad"`, `"origin"`.
    pub name: String,
    /// The fetch spec to create the remote with, if any.
    pub fetch_spec: Option<String>,
    /// The push specs to add upon creation.
    pub push_specs: Vec<String>,
}

impl<Url> Remote<Url> {
    /// A `"rad"` remote with a single fetch spec, if given.
    pub fn rad_remote(url: Url, fetch_spec: Option<String>) -> (r: Self)
        ensures
            r.url == url,
            r.name@ == "rad"@,
            r.fetch_spec == fetch_spec,
            r.push_specs@.len() == 0,
    {
        Remote { url, name: "rad".to_owned(), fetch_spec, push_specs: Vec::new() }
    }

    /// Adds push specs, after those already there.
    pub fn add_pushes(&mut self, specs: Vec<String>)
        ensures
            final(self).push_specs@ == old(self).push_specs@ + specs@,
            final(self).url == old(self).url,
            final(self).name == old(self).name,
            final(self).fetch_spec == old(self).fetch_spec,
    {
        let mut i: usize = 0;
        while i < specs.len()
            invariant
                i <= specs@.len(),
                self.push_specs@ == old(self).push_specs@ + specs@.subrange(0, i as int),
                self.url == old(self).url,
                self.name == old(self).name,
                self.fetch_spec == old(self).fetch_spec,
            decreases specs.len() - i,
        {
            self.push_specs.push(specs[i].clone());
            i = i + 1;
            assert(self.push_specs@ =~= old(self).push_specs@ + specs@.subrange(0, i as int));
        }
        assert(specs@.subrange(0, specs@.len() as int) =~= specs@);
    }
}

} // verus!
