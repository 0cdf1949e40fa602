//! Policy: the user's dials, parsed (not validated) at construction so the
//! classifier never sees an invalid glob.

use crate::model::{SafetyClass, SafetyView};
use crate::text::{clone_texts, views};
use vstd::prelude::*;

verus! {

/// The type `globset::GlobSetBuilder`.
#[verifier::external_type_specification]
#[verifier::external_body]
pub struct ExGlobSetBuilder(globset::GlobSetBuilder);

/// The type `globset::GlobSet`.
#[verifier::external_type_specification]
#[verifier::external_body]
pub struct ExGlobSet(globset::GlobSet);

/// The patterns added to a builder, in the order in which they were added.
pub uninterp spec fn builder_globs(builder: globset::GlobSetBuilder) -> Seq<Seq<char>>;

/// The patterns that a set was built from, in order.
pub uninterp spec fn set_globs(set: globset::GlobSet) -> Seq<Seq<char>>;

/// Why `globset::Glob::new` rejects a pattern, or `None` where it accepts it.
pub uninterp spec fn glob_error(pattern: Seq<char>) -> Option<Seq<char>>;

/// Why `globset::GlobSetBuilder::build` rejects a list of accepted patterns,
/// or `None` where it builds them.
pub uninterp spec fn glob_set_error(patterns: Seq<Seq<char>>) -> Option<Seq<char>>;

/// Whether a glob pattern matches a path, as `globset::GlobSet::matches` has it.
pub uninterp spec fn glob_matches(pattern: Seq<char>, path: Seq<char>) -> bool;

/// `globset::GlobSetBuilder::new`: a builder that holds no pattern.
#[verifier::external_body]
fn new_builder() -> (r: globset::GlobSetBuilder)
    ensures
        builder_globs(r) == Seq::<Seq<char>>::empty(),
{
    globset::GlobSetBuilder::new()
}

/// `globset::Glob::new`, and `globset::GlobSetBuilder::add` of what it gives:
/// an accepted pattern comes last in the builder, a rejected one leaves the
/// builder as it was and gives the error's text.
#[verifier::external_body]
fn add_glob(builder: &mut globset::GlobSetBuilder, pattern: &str) -> (r: Result<(), String>)
    ensures
        r is Ok <==> glob_error(pattern@) is None,
        r matches Err(e) ==> glob_error(pattern@) == Some(e@),
        r is Ok ==> builder_globs(*final(builder)) == builder_globs(*old(builder)).push(pattern@),
        r is Err ==> builder_globs(*final(builder)) == builder_globs(*old(builder)),
{
    let glob = globset::Glob::new(pattern).map_err(|e| e.to_string())?;
    builder.add(glob);
    Ok(())
}

/// `globset::GlobSetBuilder::build`: the set of the builder's patterns, in the
/// order in which they were added, or the error's text. A builder that holds
/// no pattern always builds.
#[verifier::external_body]
fn build_globs(builder: &globset::GlobSetBuilder) -> (r: Result<globset::GlobSet, String>)
    ensures
        r is Ok <==> glob_set_error(builder_globs(*builder)) is None,
        r matches Err(e) ==> glob_set_error(builder_globs(*builder)) == Some(e@),
        r matches Ok(set) ==> set_globs(set) == builder_globs(*builder),
        builder_globs(*builder).len() == 0 ==> r is Ok,
{
    builder.build().map_err(|e| e.to_string())
}

/// `globset::GlobSet::matches`: the position of every pattern of the set that
/// matches the path, each once, in ascending order.
#[verifier::external_body]
fn matching_globs(set: &globset::GlobSet, path: &str) -> (r: Vec<usize>)
    ensures
        forall|i: int| 0 <= i < r@.len() ==> 0 <= #[trigger] r@[i] < set_globs(*set).len(),
        forall|i: int, j: int| 0 <= i < j < r@.len() ==> r@[i] < r@[j],
        forall|i: int| 0 <= i < r@.len() ==> glob_matches(set_globs(*set)[#[trigger] r@[i] as int], path@),
        forall|k: int|
            0 <= k < set_globs(*set).len() && #[trigger] glob_matches(set_globs(*set)[k], path@)
                ==> exists|i: int| 0 <= i < r@.len() && #[trigger] r@[i] == k,
{
    set.matches(camino::Utf8Path::new(path).as_std_path())
}

/// Per-safety-class idle floors: a worktree deserves a long fuse; a build
/// directory is one rebuild away; a shared cache is colder still.
#[derive(Debug, Clone, Copy, PartialEq, Eq)]
pub struct IdlePolicy {
    pub worktree_days: u64,
    pub regenerable_days: u64,
    pub cache_days: u64,
}

impl Default for IdlePolicy {
    fn default() -> (r: Self)
        ensures
            r == default_idle(),
    {
        IdlePolicy { worktree_days: 7, regenerable_days: 3, cache_days: 30 }
    }
}

/// The floors that hold unless the user sets others.
pub open spec fn default_idle() -> IdlePolicy {
    IdlePolicy { worktree_days: 7, regenerable_days: 3, cache_days: 30 }
}

/// The floor that a policy sets for a safety class.
pub open spec fn idle_floor(idle: IdlePolicy, class: SafetyView) -> u64 {
    match class {
        SafetyView::Regenerable { .. } => idle.regenerable_days,
        SafetyView::GitWorktree => idle.worktree_days,
        SafetyView::PackageCache => idle.cache_days,
    }
}

impl IdlePolicy {
    /// The number of idle days below which a candidate of this class is refused.
    pub fn floor_days(&self, class: &SafetyClass) -> (r: u64)
        ensures
            r == idle_floor(*self, class@),
    {
        // A new class does not compile until it picks its idle floor here.
        match class {
            SafetyClass::Regenerable { .. } => self.regenerable_days,
            SafetyClass::GitWorktree => self.worktree_days,
            SafetyClass::PackageCache => self.cache_days,
        }
    }
}

/// The protect patterns, compiled. Only [`Policy::new`] makes one.
#[derive(Debug)]
pub struct ProtectList {
    patterns: Vec<String>,
    globs: globset::GlobSet,
}

impl ProtectList {
    #[verifier::type_invariant]
    spec fn compiled(self) -> bool {
        set_globs(self.globs) == views(self.patterns@)
    }
}

impl View for ProtectList {
    type V = Seq<Seq<char>>;

    /// The patterns, in the order in which they were given.
    closed spec fn view(&self) -> Seq<Seq<char>> {
        views(self.patterns@)
    }
}

/// The user's dials.
#[derive(Debug)]
pub struct Policy {
    pub min_idle: IdlePolicy,
    pub min_size_bytes: u64,
    pub include_caches: bool,
    pub protect: ProtectList,
}

/// The view of a [`Policy`].
pub struct PolicyView {
    pub min_idle: IdlePolicy,
    pub min_size_bytes: u64,
    pub include_caches: bool,
    pub protect: Seq<Seq<char>>,
}

impl View for Policy {
    type V = PolicyView;

    open spec fn view(&self) -> PolicyView {
        PolicyView {
            min_idle: self.min_idle,
            min_size_bytes: self.min_size_bytes,
            include_caches: self.include_caches,
            protect: self.protect@,
        }
    }
}

/// A protect list that does not compile: the text says which pattern and why.
#[derive(Debug, PartialEq, Eq)]
pub struct PatternError(pub String);

/// Why a protect list does not compile: what is wrong with the first pattern
/// that is rejected, else what is wrong with the patterns together.
pub open spec fn protect_error(patterns: Seq<Seq<char>>) -> Option<Seq<char>> {
    if exists|i: int| 0 <= i < patterns.len() && glob_error(#[trigger] patterns[i]) is Some {
        glob_error(patterns[first_rejected(patterns)])
    } else {
        glob_set_error(patterns)
    }
}

/// The position of the first pattern that is rejected on its own.
pub open spec fn first_rejected(patterns: Seq<Seq<char>>) -> int {
    choose|i: int|
        0 <= i < patterns.len() && glob_error(#[trigger] patterns[i]) is Some && forall|j: int|
            0 <= j < i ==> glob_error(#[trigger] patterns[j]) is None
}

/// The first pattern, in list order, that matches the path.
pub open spec fn first_match(patterns: Seq<Seq<char>>, path: Seq<char>) -> Option<Seq<char>>
    decreases patterns.len(),
{
    if patterns.len() == 0 {
        None
    } else if glob_matches(patterns[0], path) {
        Some(patterns[0])
    } else {
        first_match(patterns.skip(1), path)
    }
}

/// The first match is the pattern at the first matching position.
pub proof fn lemma_first_match_at(patterns: Seq<Seq<char>>, path: Seq<char>, k: int)
    requires
        0 <= k < patterns.len(),
        glob_matches(patterns[k], path),
        forall|j: int| 0 <= j < k ==> !glob_matches(#[trigger] patterns[j], path),
    ensures
        first_match(patterns, path) == Some(patterns[k]),
    decreases k,
{
    if k > 0 {
        let rest = patterns.skip(1);
        assert(!glob_matches(patterns[0], path));
        assert forall|j: int| 0 <= j < k - 1 implies !glob_matches(#[trigger] rest[j], path) by {
            assert(rest[j] == patterns[j + 1]);
        }
        lemma_first_match_at(rest, path, k - 1);
    }
}

/// Where no pattern matches there is no first match.
pub proof fn lemma_first_match_none(patterns: Seq<Seq<char>>, path: Seq<char>)
    requires
        forall|j: int| 0 <= j < patterns.len() ==> !glob_matches(#[trigger] patterns[j], path),
    ensures
        first_match(patterns, path) is None,
    decreases patterns.len(),
{
    if patterns.len() > 0 {
        let rest = patterns.skip(1);
        assert(!glob_matches(patterns[0], path));
        assert forall|j: int| 0 <= j < rest.len() implies !glob_matches(#[trigger] rest[j], path) by {
            assert(rest[j] == patterns[j + 1]);
        }
        lemma_first_match_none(rest, path);
    }
}

impl Default for Policy {
    fn default() -> (r: Self)
        ensures
            r@ == (PolicyView {
                min_idle: default_idle(),
                min_size_bytes: 0,
                include_caches: false,
                protect: Seq::empty(),
            }),
    {
        let none: [String; 0] = [];
        assert(views(none@) =~= Seq::<Seq<char>>::empty());
        let policy = Policy::new(IdlePolicy::default(), 0, false, &none);
        policy.unwrap()
    }
}

impl Policy {
    /// Parse, don't validate: a bad glob is a construction error, never a
    /// silently-skipped protection.
    pub fn new(
        min_idle: IdlePolicy,
        min_size_bytes: u64,
        include_caches: bool,
        protect: &[String],
    ) -> (r: Result<Self, PatternError>)
        ensures
            r is Ok <==> protect_error(views(protect@)) is None,
            r matches Err(e) ==> protect_error(views(protect@)) == Some(e.0@),
            r matches Ok(policy) ==> policy@ == (PolicyView {
                min_idle,
                min_size_bytes,
                include_caches,
                protect: views(protect@),
            }),
            protect@.len() == 0 ==> r is Ok,
    {
        let ghost patterns = views(protect@);
        let mut builder = new_builder();
        let mut i: usize = 0;
        while i < protect.len()
            invariant
                i <= protect@.len(),
                patterns == views(protect@),
                builder_globs(builder) == patterns.take(i as int),
                forall|j: int| 0 <= j < i ==> glob_error(#[trigger] patterns[j]) is None,
            decreases protect@.len() - i,
        {
            match add_glob(&mut builder, protect[i].as_str()) {
                Ok(()) => {},
                Err(e) => {
                    proof {
                        assert(glob_error(patterns[i as int]) is Some);
                        let k = first_rejected(patterns);
                        assert(k == i);
                    }
                    return Err(PatternError(e));
                },
            }
            assert(patterns.take(i + 1) =~= patterns.take(i as int).push(patterns[i as int]));
            i += 1;
        }
        assert(patterns.take(patterns.len() as int) =~= patterns);
        match build_globs(&builder) {
            Ok(globs) => Ok(
                Policy {
                    min_idle,
                    min_size_bytes,
                    include_caches,
                    protect: ProtectList { patterns: clone_texts(protect), globs },
                },
            ),
            Err(e) => Err(PatternError(e)),
        }
    }

    /// The protect list wins over everything: first matching pattern, if any.
    pub fn protected_by(&self, path: &str) -> (r: Option<&str>)
        ensures
            r is Some <==> first_match(self@.protect, path@) is Some,
            r matches Some(pattern) ==> first_match(self@.protect, path@) == Some(pattern@),
    {
        proof {
            use_type_invariant(&self.protect);
        }
        let ghost patterns = self@.protect;
        let hits = matching_globs(&self.protect.globs, path);
        if hits.len() == 0 {
            proof {
                lemma_first_match_none(patterns, path@);
            }
            None
        } else {
            let first: usize = hits[0];
            proof {
                lemma_first_match_at(patterns, path@, first as int);
            }
            Some(self.protect.patterns[first].as_str())
        }
    }
}

} // verus!
