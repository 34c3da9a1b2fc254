//! What the one-shot commands decide before the formatter is run: which
//! configurations to ask, and which files go to the formatter together.

use vstd::prelude::*;
use crate::config::{expanded, DprintxConfig, ProfileResolution, ProfileResolutionView};
use crate::matcher::{resolved_view, ResolveError, ResolveErrorView};

verus! {

/// Runs the formatter with the configuration that a file resolves to.
#[derive(Debug)]
pub struct DprintRunner {
    dprint_bin: String,
}

impl DprintRunner {
    /// The path of the formatter binary as the model sees it.
    pub closed spec fn spec_dprint_bin(&self) -> Seq<char> {
        self.dprint_bin@
    }

    /// A runner for the formatter that the configuration names.
    pub fn new(config: &DprintxConfig) -> (r: DprintRunner)
        ensures
            r.spec_dprint_bin() == expanded(config.dprint@, config.home.deep_view()),
    {
        DprintRunner { dprint_bin: config.dprint_path() }
    }

    /// The path of the formatter binary.
    pub fn dprint_bin(&self) -> (r: &str)
        ensures
            r@ == self.spec_dprint_bin(),
    {
        self.dprint_bin.as_str()
    }
}


/// The arguments that are, or that are not, among the directories, in
/// their order.
pub open spec fn chosen(args: Seq<Seq<char>>, dirs: Seq<Seq<char>>, want_dirs: bool) -> Seq<
    Seq<char>,
>
    decreases args.len(),
{
    if args.len() == 0 {
        Seq::empty()
    } else {
        let before = chosen(args.drop_last(), dirs, want_dirs);
        if dirs.contains(args.last()) == want_dirs {
            before.push(args.last())
        } else {
            before
        }
    }
}

/// Parts the arguments into plain files and directories, each in the order
/// of the arguments. `dirs` names the arguments that are directories;
/// every other argument counts as a file, whether or not it exists.
pub fn split_files_and_dirs(args: &[String], dirs: &Vec<String>) -> (r: (Vec<String>, Vec<String>))
    ensures
        r.0.deep_view() == chosen(args.deep_view(), dirs.deep_view(), false),
        r.1.deep_view() == chosen(args.deep_view(), dirs.deep_view(), true),
{
    let mut files: Vec<String> = Vec::new();
    let mut found: Vec<String> = Vec::new();
    let mut i: usize = 0;
    assert(args.deep_view().take(0) =~= Seq::<Seq<char>>::empty());
    assert(files.deep_view() =~= Seq::<Seq<char>>::empty());
    assert(found.deep_view() =~= Seq::<Seq<char>>::empty());
    while i < args.len()
        invariant
            i <= args.len(),
            files.deep_view() == chosen(args.deep_view().take(i as int), dirs.deep_view(), false),
            found.deep_view() == chosen(args.deep_view().take(i as int), dirs.deep_view(), true),
        decreases args.len() - i,
    {
        let ghost all = args.deep_view();
        let ghost files_before = files.deep_view();
        let ghost found_before = found.deep_view();
        assert(all.take(i + 1).drop_last() =~= all.take(i as int));
        assert(all.take(i + 1).last() == args@[i as int]@);
        if crate::config::contains_path(dirs, args[i].as_str()) {
            found.push(args[i].clone());
            assert(found.deep_view() =~= found_before.push(args@[i as int]@));
        } else {
            files.push(args[i].clone());
            assert(files.deep_view() =~= files_before.push(args@[i as int]@));
        }
        i += 1;
    }
    assert(args.deep_view().take(i as int) =~= args.deep_view());
    (files, found)
}

/// Whether the arguments ask the formatter for help.
pub fn is_help_request(args: &[String]) -> (r: bool)
    ensures
        r == exists|i: int| 0 <= i < args.len() && crate::cli::is_help(#[trigger] args.deep_view()[i]),
{
    let mut i: usize = 0;
    while i < args.len()
        invariant
            i <= args.len(),
            forall|k: int| 0 <= k < i ==> !crate::cli::is_help(#[trigger] args.deep_view()[k]),
        decreases args.len() - i,
    {
        assert(args.deep_view()[i as int] == args@[i as int]@);
        if crate::text::str_eq(args[i].as_str(), "--help") || crate::text::str_eq(
            args[i].as_str(),
            "-h",
        ) {
            return true;
        }
        i += 1;
    }
    false
}

/// The position of the group of a configuration, or the number of groups
/// where it has none.
pub open spec fn group_of(groups: Seq<(Seq<char>, Seq<Seq<char>>)>, config: Seq<char>) -> int {
    crate::order::first_index(groups, |g: (Seq<char>, Seq<Seq<char>>)| g.0 == config)
}

/// The groups with one more file: it joins the group of its configuration,
/// and a configuration without a group gets a new one behind the others.
pub open spec fn grouped(
    groups: Seq<(Seq<char>, Seq<Seq<char>>)>,
    config: Seq<char>,
    file: Seq<char>,
) -> Seq<(Seq<char>, Seq<Seq<char>>)> {
    let at = group_of(groups, config);
    if at < groups.len() {
        groups.update(at, (config, groups[at].1.push(file)))
    } else {
        groups.push((config, seq![file]))
    }
}

/// Puts a file into the group of its effective configuration, so that the
/// formatter is run once for each configuration.
pub fn group_file(groups: &mut Vec<(String, Vec<String>)>, config: &str, file: &str)
    ensures
        final(groups).deep_view() == grouped(old(groups).deep_view(), config@, file@),
{
    let ghost before = groups.deep_view();
    let ghost hit = |g: (Seq<char>, Seq<Seq<char>>)| g.0 == config@;
    let mut i: usize = 0;
    while i < groups.len()
        invariant
            i <= groups.len(),
            groups.deep_view() == before,
            *groups == *old(groups),
            hit == |g: (Seq<char>, Seq<Seq<char>>)| g.0 == config@,
            forall|k: int| 0 <= k < i ==> !hit(#[trigger] before[k]),
        decreases groups.len() - i,
    {
        assert(before[i as int].0 == groups@[i as int].0@);
        if crate::text::str_eq(groups[i].0.as_str(), config) {
            proof {
                crate::order::lemma_first_index_is(before, hit, i as int);
            }
            let (name, mut files) = groups.remove(i);
            let ghost files_before = files.deep_view();
            files.push(file.to_owned());
            assert(files.deep_view() =~= files_before.push(file@));
            groups.insert(i, (name, files));
            assert(groups.deep_view() =~= before.update(
                i as int,
                (config@, before[i as int].1.push(file@)),
            ));
            return ;
        }
        i += 1;
    }
    proof {
        crate::order::lemma_first_index_is(before, hit, before.len() as int);
    }
    let mut files: Vec<String> = Vec::new();
    files.push(file.to_owned());
    assert(files.deep_view() =~= seq![file@]);
    groups.push((config.to_owned(), files));
    assert(groups.deep_view() =~= before.push((config@, seq![file@])));
}

/// The arguments of one run of the formatter: the subcommand, the
/// configuration, and the files.
pub fn command_args(subcommand: &str, config: &str, files: &Vec<String>) -> (r: Vec<String>)
    ensures
        r.deep_view() == seq![subcommand@, "--config"@, config@] + files.deep_view(),
{
    let mut r: Vec<String> = Vec::new();
    r.push(subcommand.to_owned());
    r.push("--config".to_owned());
    r.push(config.to_owned());
    let mut i: usize = 0;
    while i < files.len()
        invariant
            i <= files.len(),
            r.len() == 3 + i,
            r@[0]@ == subcommand@,
            r@[1]@ == "--config"@,
            r@[2]@ == config@,
            forall|j: int| 3 <= j < r.len() ==> (#[trigger] r@[j])@ == files@[j - 3]@,
        decreases files.len() - i,
    {
        r.push(files[i].clone());
        i += 1;
    }
    assert(r.deep_view() =~= seq![subcommand@, "--config"@, config@] + files.deep_view());
    r
}

/// Whether a file belongs to a profile: it resolves, and to the
/// configuration of that profile.
pub fn resolves_to(resolution: &Result<Option<ProfileResolution>, ResolveError>, config: &str) -> (r:
    bool)
    ensures
        r == (resolved_view(*resolution) == Ok::<Option<ProfileResolutionView>, ResolveErrorView>(
            Some(ProfileResolutionView::Config(config@)),
        )),
{
    match resolution {
        Ok(Some(ProfileResolution::Config(path))) => crate::text::str_eq(path.as_str(), config),
        _ => false,
    }
}

/// The paths without those that stood earlier in the list already.
pub open spec fn distinct(paths: Seq<Seq<char>>) -> Seq<Seq<char>>
    decreases paths.len(),
{
    if paths.len() == 0 {
        Seq::empty()
    } else {
        let before = distinct(paths.drop_last());
        if paths.drop_last().contains(paths.last()) {
            before
        } else {
            before.push(paths.last())
        }
    }
}

/// `distinct` holds every path of the list, and none twice.
pub proof fn lemma_distinct(paths: Seq<Seq<char>>)
    ensures
        distinct(paths).no_duplicates(),
        forall|p: Seq<char>| distinct(paths).contains(p) <==> paths.contains(p),
    decreases paths.len(),
{
    if paths.len() > 0 {
        let front = paths.drop_last();
        let last = paths.last();
        lemma_distinct(front);
        assert forall|p: Seq<char>| distinct(paths).contains(p) <==> paths.contains(p) by {
            if paths.contains(p) {
                let i = choose|i: int| 0 <= i < paths.len() && paths[i] == p;
                if i < front.len() {
                    assert(front[i] == p);
                    assert(front.contains(p));
                    assert(distinct(front).contains(p));
                    let k = choose|k: int| 0 <= k < distinct(front).len() && distinct(front)[k] == p;
                    assert(distinct(paths)[k] == p);
                } else if front.contains(last) {
                    assert(distinct(front).contains(p));
                } else {
                    assert(distinct(paths)[distinct(front).len() as int] == p);
                }
            }
            if distinct(paths).contains(p) {
                let k = choose|k: int| 0 <= k < distinct(paths).len() && distinct(paths)[k] == p;
                if k < distinct(front).len() {
                    assert(distinct(front)[k] == p);
                    assert(distinct(front).contains(p));
                    assert(front.contains(p));
                    let i = choose|i: int| 0 <= i < front.len() && front[i] == p;
                    assert(front[i] == paths[i]);
                } else {
                    assert(paths[paths.len() - 1] == p);
                }
            }
        }
        if !front.contains(last) {
            assert forall|i: int, j: int|
                0 <= i < distinct(paths).len() && 0 <= j < distinct(paths).len() && i
                    != j implies distinct(paths)[i] != distinct(paths)[j] by {
                if i < distinct(front).len() && j < distinct(front).len() {
                } else if i < distinct(front).len() {
                    assert(distinct(front).contains(distinct(front)[i]));
                } else {
                    assert(distinct(front).contains(distinct(front)[j]));
                }
            }
        }
    }
}

/// The paths, each once, in the order in which they first stand in the
/// list.
pub fn distinct_paths(paths: &Vec<String>) -> (r: Vec<String>)
    ensures
        r.deep_view() == distinct(paths.deep_view()),
{
    let mut r: Vec<String> = Vec::new();
    let mut i: usize = 0;
    assert(paths.deep_view().take(0) =~= Seq::<Seq<char>>::empty());
    assert(r.deep_view() =~= Seq::<Seq<char>>::empty());
    while i < paths.len()
        invariant
            i <= paths.len(),
            r.deep_view() == distinct(paths.deep_view().take(i as int)),
        decreases paths.len() - i,
    {
        let ghost all = paths.deep_view();
        let ghost before = r.deep_view();
        assert(all.take(i + 1).drop_last() =~= all.take(i as int));
        assert(all.take(i + 1).last() == paths@[i as int]@);
        proof {
            lemma_distinct(all.take(i as int));
        }
        if !crate::config::contains_path(&r, paths[i].as_str()) {
            r.push(paths[i].clone());
            assert(r.deep_view() =~= before.push(paths@[i as int]@));
        }
        i += 1;
    }
    assert(paths.deep_view().take(i as int) =~= paths.deep_view());
    r
}

} // verus!
