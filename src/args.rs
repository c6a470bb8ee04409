//! The global arguments of the command line, and how they are handed on
//! to an external subcommand.
use vstd::prelude::*;

verus! {

/// `--rad-profile` command line name
pub const RAD_PROFILE_ARG: &'static str = "--rad-profile";

/// `--rad-quiet` command line name
pub const RAD_QUIET_ARG: &'static str = "--rad-quiet";

/// `--rad-verbose` command line name
pub const RAD_VERBOSE_ARG: &'static str = "--rad-verbose";

#[derive(Clone, Debug, PartialEq, Eq)]
pub struct Args {
    /// The profile identifier; if not given, the active profile is used.
    pub rad_profile: Option<String>,
    /// No output printed to stdout.
    pub rad_quiet: bool,
    /// Use verbose output.
    pub rad_verbose: bool,
    pub command: Command,
}

#[derive(Clone, Debug, PartialEq, Eq)]
pub enum Command {
    Profile,
    External(Vec<String>),
}

/// The values of the global arguments' environment variables.
#[derive(Clone, Debug, PartialEq, Eq)]
pub struct Env {
    /// `RAD_PROFILE`, if set.
    pub profile: Option<String>,
    /// Whether `RAD_QUIET` is set.
    pub quiet: bool,
    /// Whether `RAD_VERBOSE` is set.
    pub verbose: bool,
}

pub open spec fn texts(v: Seq<String>) -> Seq<Seq<char>> {
    v.map_values(|s: String| s@)
}

/// The position of the first `needle` in `v`.
pub open spec fn first_index(v: Seq<Seq<char>>, needle: Seq<char>) -> Option<int>
    decreases v.len(),
{
    if v.len() == 0 {
        None
    } else if v[0] == needle {
        Some(0)
    } else {
        match first_index(v.drop_first(), needle) {
            Some(i) => Some(i + 1),
            None => None,
        }
    }
}

proof fn lemma_first_index(v: Seq<Seq<char>>, needle: Seq<char>)
    ensures
        first_index(v, needle) matches Some(i) ==> 0 <= i < v.len() && v[i] == needle && forall|
            j: int,
        |
            0 <= j < i ==> v[j] != needle,
        first_index(v, needle) is None ==> forall|j: int| 0 <= j < v.len() ==> v[j] != needle,
    decreases v.len(),
{
    if v.len() > 0 {
        lemma_first_index(v.drop_first(), needle);
        assert forall|j: int| 0 < j < v.len() implies v[j] == v.drop_first()[j - 1] by {}
    }
}

/// Get the position of an argument name, if present.
pub fn find_arg(needle: &str, external: &Vec<String>) -> (r: Option<usize>)
    ensures
        r is Some == first_index(texts(external@), needle@) is Some,
        r matches Some(i) ==> first_index(texts(external@), needle@) == Some(i as int),
{
    proof {
        lemma_first_index(texts(external@), needle@);
    }
    let n = needle.to_owned();
    let mut i: usize = 0;
    while i < external.len()
        invariant
            i <= external@.len(),
            n@ == needle@,
            forall|j: int| 0 <= j < i ==> external@[j]@ != needle@,
        decreases external.len() - i,
    {
        if external[i] == n {
            proof {
                let v = texts(external@);
                lemma_first_index(v, needle@);
                assert(v[i as int] == needle@);
                assert forall|j: int| 0 <= j < i implies v[j] != needle@ by {
                    assert(v[j] == external@[j]@);
                }
                if let Some(k) = first_index(v, needle@) {
                    assert(k == i);
                }
            }
            return Some(i);
        }
        i = i + 1;
    }
    proof {
        let v = texts(external@);
        lemma_first_index(v, needle@);
        if let Some(k) = first_index(v, needle@) {
            assert(v[k] == external@[k]@);
        }
    }
    None
}

/// A global option handed on: its occurrence in `ext` (the name and the
/// value after it) is taken out, and the name with the first of the global
/// value, that value, and the environment's is put at the end.
pub open spec fn option_spec(
    arg: Seq<char>,
    env: Option<Seq<char>>,
    global: Option<Seq<char>>,
    ext: Seq<Seq<char>>,
) -> Seq<Seq<char>> {
    let (rest, ex) = match first_index(ext, arg) {
        Some(i) => (ext.remove(i).remove(i), Some(ext[i + 1])),
        None => (ext, None),
    };
    let value = match global {
        Some(g) => Some(g),
        None => match ex {
            Some(x) => Some(x),
            None => env,
        },
    };
    match value {
        Some(v) => rest + seq![arg, v],
        None => rest,
    }
}

/// A global flag handed on: its occurrence in `ext` is taken out, and it
/// is put at the end if set globally, in `ext`, or in the environment.
pub open spec fn flag_spec(arg: Seq<char>, env: bool, val: bool, ext: Seq<Seq<char>>) -> Seq<
    Seq<char>,
> {
    let (rest, ex) = match first_index(ext, arg) {
        Some(i) => (ext.remove(i), true),
        None => (ext, false),
    };
    if val || ex || env {
        rest.push(arg)
    } else {
        rest
    }
}

/// An option's name in `ext` is followed by its value.
pub open spec fn has_value(arg: Seq<char>, ext: Seq<Seq<char>>) -> bool {
    first_index(ext, arg) matches Some(i) ==> i + 1 < ext.len()
}

fn opt_view(o: &Option<String>) -> (r: Option<String>)
    ensures
        r == *o,
{
    match o {
        Some(s) => Some(s.clone()),
        None => None,
    }
}

pub fn sanitise_option(arg: &str, env: Option<String>, global: Option<String>, external: &mut Vec<String>)
    requires
        has_value(arg@, texts(old(external)@)),
    ensures
        texts(final(external)@) == option_spec(
            arg@,
            match env {
                Some(e) => Some(e@),
                None => None,
            },
            match global {
                Some(g) => Some(g@),
                None => None,
            },
            texts(old(external)@),
        ),
{
    proof {
        lemma_first_index(texts(external@), arg@);
    }
    let ghost ext = texts(external@);
    let ex_arg = match find_arg(arg, external) {
        Some(index) => {
            external.remove(index);
            let v = external.remove(index);
            assert(texts(external@) =~= ext.remove(index as int).remove(index as int));
            Some(v)
        },
        None => None,
    };
    let value = match global {
        Some(g) => Some(g),
        None => match ex_arg {
            Some(x) => Some(x),
            None => env,
        },
    };
    let ghost rest = texts(external@);
    match value {
        Some(v) => {
            external.push(arg.to_owned());
            external.push(v);
            assert(texts(external@) =~= rest + seq![arg@, external@.last()@]);
        },
        None => {},
    }
}

pub fn sanitise_flag(arg: &str, env: bool, val: bool, external: &mut Vec<String>)
    ensures
        texts(final(external)@) == flag_spec(arg@, env, val, texts(old(external)@)),
{
    let ghost ext = texts(external@);
    let ex_arg = match find_arg(arg, external) {
        Some(index) => {
            proof {
                lemma_first_index(ext, arg@);
            }
            external.remove(index);
            assert(texts(external@) =~= ext.remove(index as int));
            true
        },
        None => false,
    };
    let ghost rest = texts(external@);
    if val || ex_arg || env {
        external.push(arg.to_owned());
        assert(texts(external@) =~= rest.push(arg@));
    }
}

/// For an external subcommand, hands on the global arguments: each given
/// once, taken from the command line before the subcommand, then from the
/// subcommand's own arguments, then from the environment.
pub fn sanitise_globals(args: Args, env: Env) -> (r: Args)
    requires
        args.command matches Command::External(ext) ==> has_value(RAD_PROFILE_ARG@, texts(ext@)),
    ensures
        r.rad_profile == args.rad_profile,
        r.rad_quiet == args.rad_quiet,
        r.rad_verbose == args.rad_verbose,
        args.command is Profile ==> r.command is Profile,
        args.command matches Command::External(ext) ==> r.command matches Command::External(out)
            && texts(out@) == flag_spec(
            RAD_VERBOSE_ARG@,
            env.verbose,
            args.rad_quiet,
            flag_spec(
                RAD_QUIET_ARG@,
                env.quiet,
                args.rad_quiet,
                option_spec(
                    RAD_PROFILE_ARG@,
                    match env.profile {
                        Some(e) => Some(e@),
                        None => None,
                    },
                    match args.rad_profile {
                        Some(g) => Some(g@),
                        None => None,
                    },
                    texts(ext@),
                ),
            ),
        ),
{
    let Args { rad_profile, rad_quiet, rad_verbose, command } = args;
    match command {
        Command::External(mut external) => {
            sanitise_option(RAD_PROFILE_ARG, env.profile, opt_view(&rad_profile), &mut external);
            sanitise_flag(RAD_QUIET_ARG, env.quiet, rad_quiet, &mut external);
            sanitise_flag(RAD_VERBOSE_ARG, env.verbose, rad_quiet, &mut external);
            Args { rad_profile, rad_quiet, rad_verbose, command: Command::External(external) }
        },
        Command::Profile => Args { rad_profile, rad_quiet, rad_verbose, command: Command::Profile },
    }
}

} // verus!
