//! Exclusion rules: glob patterns over package names, and the hand-curated
//! changes to the list of requested packages.

use crate::names::{name_set, strictly_ascending};
use globset::{Glob, GlobSet, GlobSetBuilder};
use vstd::prelude::*;

verus! {

/// `globset::GlobSet`, a set of compiled globs. Nothing inside it is seen
/// here: what it holds goes by the name [`glob_set_patterns`].
#[verifier::external_type_specification]
#[verifier::external_body]
pub struct ExGlobSet(GlobSet);

/// The patterns that a set of globs was built from, in the order given.
pub uninterp spec fn glob_set_patterns(set: GlobSet) -> Seq<Seq<char>>;

/// Whether a text is accepted as a glob pattern.
pub uninterp spec fn glob_is_valid(pattern: Seq<char>) -> bool;

/// Whether the glob written as `pattern` matches `name`, the whole of it and
/// with regard to case.
pub uninterp spec fn glob_matches(pattern: Seq<char>, name: Seq<char>) -> bool;

/// Whether the globs written as `patterns`, each of them a glob, can be
/// compiled into one set: what `GlobSetBuilder::build` decides of them.
pub uninterp spec fn glob_set_compiles(patterns: Seq<Seq<char>>) -> bool;

/// Whether every text of a list is accepted as a glob pattern.
pub open spec fn all_globs(patterns: Seq<Seq<char>>) -> bool {
    forall|j: int| 0 <= j < patterns.len() ==> glob_is_valid(#[trigger] patterns[j])
}

/// The texts of a list of strings.
pub open spec fn texts(strings: Seq<String>) -> Seq<Seq<char>> {
    Seq::new(strings.len(), |i: int| strings[i]@)
}

/// Whether any of the patterns matches `name`.
pub open spec fn any_matches(patterns: Seq<Seq<char>>, name: Seq<char>) -> bool {
    exists|i: int| 0 <= i < patterns.len() && glob_matches(#[trigger] patterns[i], name)
}

/// Asks `globset::Glob::new` whether it accepts the pattern. The answer is
/// not proved: it stands under the name [`glob_is_valid`].
#[verifier::external_body]
fn glob_parses(pattern: &str) -> (valid: bool)
    ensures
        valid == glob_is_valid(pattern@),
{
    Glob::new(pattern).is_ok()
}

/// `globset::GlobSet::empty`: a set built from no pattern.
#[verifier::external_body]
fn empty_glob_set() -> (set: GlobSet)
    ensures
        glob_set_patterns(set) == Seq::<Seq<char>>::empty(),
{
    GlobSet::empty()
}

/// Parses each pattern with `globset::Glob::new`, adds it to a
/// `GlobSetBuilder` and calls `build`. There is a set exactly where each
/// pattern is a glob and `build` compiles them, which stands under the name
/// [`glob_set_compiles`]; the set then holds the patterns given, in their
/// order.
#[verifier::external_body]
fn build_glob_set(patterns: &Vec<String>) -> (set: Option<GlobSet>)
    ensures
        set.is_some() == ((forall|j: int|
            0 <= j < patterns@.len() ==> glob_is_valid((#[trigger] patterns@[j])@))
            && glob_set_compiles(texts(patterns@))),
        set matches Some(s) ==> glob_set_patterns(s) == texts(patterns@),
{
    let mut builder = GlobSetBuilder::new();
    for pattern in patterns.iter() {
        match Glob::new(pattern.as_str()) {
            Ok(glob) => {
                builder.add(glob);
            },
            Err(_) => {
                return None;
            },
        }
    }
    builder.build().ok()
}

/// `globset::GlobSet::is_match`, which is documented to tell whether any glob
/// of the set matches. What it means for one glob to match is not proved: it
/// stands under the name [`glob_matches`].
#[verifier::external_body]
fn glob_set_matches(set: &GlobSet, name: &str) -> (hit: bool)
    ensures
        hit == (exists|i: int|
            0 <= i < glob_set_patterns(*set).len() && glob_matches(
                #[trigger] glob_set_patterns(*set)[i],
                name@,
            )),
{
    set.is_match(name)
}

/// Why a list of patterns could not be made into exclusion rules.
#[derive(Clone, Copy, Debug, PartialEq, Eq, Structural)]
pub enum ConfigError {
    /// The pattern at this position is no glob.
    InvalidGlob(usize),
    /// Each pattern is a glob, but the set of them could not be compiled.
    SetRefused,
}

/// The exclusion rules: a package is excluded where any of the globs matches
/// its name.
#[derive(Debug)]
pub struct Exclusions {
    pub globs: GlobSet,
}

/// Finds the first pattern that is no glob.
pub fn find_invalid_glob(patterns: &Vec<String>) -> (found: Option<usize>)
    ensures
        match found {
            Some(i) => i < patterns@.len() && !glob_is_valid(patterns@[i as int]@) && forall|j: int|
                0 <= j < i ==> glob_is_valid((#[trigger] patterns@[j])@),
            None => forall|j: int|
                0 <= j < patterns@.len() ==> glob_is_valid((#[trigger] patterns@[j])@),
        },
{
    let mut i: usize = 0;
    while i < patterns.len()
        invariant
            i <= patterns@.len(),
            forall|j: int| 0 <= j < i ==> glob_is_valid((#[trigger] patterns@[j])@),
        decreases patterns@.len() - i,
    {
        if !glob_parses(patterns[i].as_str()) {
            return Some(i);
        }
        i = i + 1;
    }
    None
}

impl Exclusions {
    /// The patterns of the rules.
    pub open spec fn patterns(&self) -> Seq<Seq<char>> {
        glob_set_patterns(self.globs)
    }

    /// Whether the rules exclude `name`.
    pub open spec fn excludes(&self, name: Seq<char>) -> bool {
        any_matches(self.patterns(), name)
    }

    /// Rules that exclude nothing.
    pub fn empty() -> (rules: Exclusions)
        ensures
            rules.patterns() == Seq::<Seq<char>>::empty(),
            forall|name: Seq<char>| !rules.excludes(name),
    {
        Exclusions { globs: empty_glob_set() }
    }

    /// Compiles a list of patterns into exclusion rules. There are rules
    /// exactly where each pattern is a glob and the set of them compiles, and
    /// they hold exactly the patterns given, in their order. Else the first
    /// pattern that is no glob is reported by its position, or, where each is
    /// a glob, that the set was refused.
    pub fn new(patterns: &Vec<String>) -> (made: Result<Exclusions, ConfigError>)
        ensures
            made is Ok <==> all_globs(texts(patterns@)) && glob_set_compiles(texts(patterns@)),
            match made {
                Ok(rules) => rules.patterns() == texts(patterns@),
                Err(ConfigError::InvalidGlob(i)) => i < patterns@.len() && !glob_is_valid(
                    patterns@[i as int]@,
                ) && forall|j: int| 0 <= j < i ==> glob_is_valid((#[trigger] patterns@[j])@),
                Err(ConfigError::SetRefused) => all_globs(texts(patterns@)) && !glob_set_compiles(
                    texts(patterns@),
                ),
            },
    {
        match find_invalid_glob(patterns) {
            Some(i) => {
                assert(!glob_is_valid(texts(patterns@)[i as int]));
                Err(ConfigError::InvalidGlob(i))
            },
            None => {
                assert(all_globs(texts(patterns@))) by {
                    assert forall|j: int| 0 <= j < patterns@.len() implies glob_is_valid(
                        #[trigger] texts(patterns@)[j],
                    ) by {
                        assert(glob_is_valid(patterns@[j]@));
                    }
                }
                match build_glob_set(patterns) {
                    Some(globs) => Ok(Exclusions { globs }),
                    None => Err(ConfigError::SetRefused),
                }
            },
        }
    }

    /// Whether the rules exclude the package called `name`.
    pub fn is_excluded(&self, name: &str) -> (excluded: bool)
        ensures
            excluded == self.excludes(name@),
    {
        glob_set_matches(&self.globs, name)
    }
}

/// Hand-curated changes to the list of requested packages: the rules that
/// exclude packages, the packages that are always requested, and the packages
/// that are resolved on their own and merged in.
#[derive(Debug)]
pub struct Modifications {
    pub exclusions: Exclusions,
    pub additions: Vec<String>,
    pub commands: Vec<String>,
}

impl Modifications {
    /// The invariant of the changes: the additions and the commands are
    /// sets, each held as a list in ascending order without repetitions.
    pub open spec fn wf(&self) -> bool {
        strictly_ascending(texts(self.additions@)) && strictly_ascending(texts(self.commands@))
    }

    /// Puts changes together from the rules and from two lists of names.
    /// Each list is made into a set: the same names, each once, in ascending
    /// order.
    pub fn new(exclusions: Exclusions, additions: &Vec<String>, commands: &Vec<String>) -> (made:
        Modifications)
        ensures
            made.wf(),
            made.exclusions == exclusions,
            forall|n: Seq<char>|
                texts(made.additions@).contains(n) <==> texts(additions@).contains(n),
            forall|n: Seq<char>| texts(made.commands@).contains(n) <==> texts(commands@).contains(n),
    {
        Modifications { exclusions, additions: name_set(additions), commands: name_set(commands) }
    }

    /// No changes at all.
    pub fn empty() -> (none: Modifications)
        ensures
            none.wf(),
            none.additions@.len() == 0,
            none.commands@.len() == 0,
            forall|name: Seq<char>| !none.exclusions.excludes(name),
    {
        Modifications {
            exclusions: Exclusions::empty(),
            additions: Vec::new(),
            commands: Vec::new(),
        }
    }

    /// Whether the package called `name` is excluded.
    pub fn excluded(&self, name: &str) -> (excluded: bool)
        ensures
            excluded == self.exclusions.excludes(name@),
    {
        self.exclusions.is_excluded(name)
    }
}

impl Default for Exclusions {
    /// Rules that exclude nothing.
    fn default() -> (rules: Exclusions)
        ensures
            rules.patterns() == Seq::<Seq<char>>::empty(),
            forall|name: Seq<char>| !rules.excludes(name),
    {
        Exclusions::empty()
    }
}

impl Default for Modifications {
    /// No changes at all.
    fn default() -> (none: Modifications)
        ensures
            none.wf(),
            none.additions@.len() == 0,
            none.commands@.len() == 0,
            forall|name: Seq<char>| !none.exclusions.excludes(name),
    {
        Modifications::empty()
    }
}

/// The names of a request list that the rules let through, in their order.
pub open spec fn admitted(names: Seq<Seq<char>>, rules: Exclusions) -> Seq<Seq<char>>
    decreases names.len(),
{
    if names.len() == 0 {
        Seq::<Seq<char>>::empty()
    } else if rules.excludes(names.last()) {
        admitted(names.drop_last(), rules)
    } else {
        admitted(names.drop_last(), rules).push(names.last())
    }
}

/// Drops the excluded names from a request list and keeps the others in
/// their order.
pub fn admit_requests(names: &Vec<String>, modifications: &Modifications) -> (kept: Vec<String>)
    ensures
        texts(kept@) == admitted(texts(names@), modifications.exclusions),
{
    let mut kept: Vec<String> = Vec::new();
    let mut i: usize = 0;
    while i < names.len()
        invariant
            i <= names@.len(),
            texts(kept@) == admitted(texts(names@).subrange(0, i as int), modifications.exclusions),
        decreases names@.len() - i,
    {
        let ghost upto = texts(names@).subrange(0, i as int + 1);
        assert(upto.drop_last() =~= texts(names@).subrange(0, i as int));
        if !modifications.excluded(names[i].as_str()) {
            kept.push(names[i].clone());
        }
        i = i + 1;
    }
    assert(texts(names@).subrange(0, names@.len() as int) =~= texts(names@));
    kept
}

/// No name that the rules exclude is let through, and each name let through
/// was asked for.
pub proof fn lemma_admitted_are_not_excluded(names: Seq<Seq<char>>, rules: Exclusions, k: int)
    requires
        0 <= k < admitted(names, rules).len(),
    ensures
        !rules.excludes(admitted(names, rules)[k]),
        names.contains(admitted(names, rules)[k]),
    decreases names.len(),
{
    if names.len() > 0 {
        let rest = admitted(names.drop_last(), rules);
        if k < rest.len() {
            lemma_admitted_are_not_excluded(names.drop_last(), rules, k);
        }
    }
}

} // verus!
