//! Path resolution: turning declared override paths into deduplicated
//! external paths.
//!
//! The caller canonicalizes each declared path against the filesystem and
//! hands the outcome to [`Resolver::record_resolution`]; the resolver
//! classifies the canonical path as inside or outside the primary project
//! tree, deduplicates equal canonical paths, and collects the warnings that
//! the pipeline surfaces instead of aborting.

use vstd::prelude::*;

use crate::bytes::{bytes_eq, SLASH};
use crate::manifest::ParsedManifest;

verus! {

/// A recoverable finding: logged by the caller, never a pipeline abort.
#[derive(Clone, Debug, PartialEq, Eq)]
pub enum Warning {
    /// A declared override path does not exist on the local filesystem.
    PatchPathMissing { name: Vec<u8>, path: Vec<u8> },
    /// A patch-section entry (or patch header) the manifest subset cannot
    /// read; `line` is the offending trimmed manifest line.
    MalformedOverride { manifest: Vec<u8>, line: Vec<u8> },
}

/// Spec-level warning.
#[verifier::ext_equal]
pub enum WarningView {
    PatchPathMissing { name: Seq<u8>, path: Seq<u8> },
    MalformedOverride { manifest: Seq<u8>, line: Seq<u8> },
}

impl View for Warning {
    type V = WarningView;

    open spec fn view(&self) -> WarningView {
        match self {
            Warning::PatchPathMissing { name, path } => WarningView::PatchPathMissing {
                name: name@,
                path: path@,
            },
            Warning::MalformedOverride { manifest, line } => WarningView::MalformedOverride {
                manifest: manifest@,
                line: line@,
            },
        }
    }
}

impl DeepView for Warning {
    type V = WarningView;

    open spec fn deep_view(&self) -> WarningView {
        self.view()
    }
}

/// Whether canonical path `p` lies inside the tree rooted at canonical `root`
/// (the root itself counts as inside).
pub open spec fn spec_inside(root: Seq<u8>, p: Seq<u8>) -> bool {
    p == root || (p.len() > root.len() && p.subrange(0, root.len() as int) == root && p[root.len() as int]
        == SLASH)
}

/// Absolute form of a declared override path: an already absolute path is
/// kept; a relative one is resolved against the declaring manifest's
/// directory.
pub open spec fn spec_join(dir: Seq<u8>, raw: Seq<u8>) -> Seq<u8> {
    if raw.len() > 0 && raw[0] == SLASH {
        raw
    } else {
        dir + seq![SLASH] + raw
    }
}

/// Join a declared override path to the directory of its manifest.
pub fn join_path(dir: &[u8], raw: &[u8]) -> (r: Vec<u8>)
    ensures
        r@ == spec_join(dir@, raw@),
{
    if raw.len() > 0 && raw[0] == SLASH {
        let r = vstd::slice::slice_to_vec(raw);
        r
    } else {
        let mut r = vstd::slice::slice_to_vec(dir);
        r.push(SLASH);
        crate::bytes::push_all(&mut r, raw);
        assert(r@ =~= spec_join(dir@, raw@));
        r
    }
}

/// Whether canonical path `p` lies inside the tree rooted at `root`.
pub fn is_inside(root: &[u8], p: &[u8]) -> (r: bool)
    ensures
        r == spec_inside(root@, p@),
{
    if bytes_eq(root, p) {
        return true;
    }
    if p.len() > root.len() {
        let prefix = vstd::slice::slice_subrange(p, 0, root.len());
        if bytes_eq(prefix, root) && p[root.len()] == SLASH {
            return true;
        }
    }
    false
}

/// Spec-level resolver state.
#[verifier::ext_equal]
pub struct ResolverView {
    pub root: Seq<u8>,
    pub externals: Seq<Seq<u8>>,
    pub warnings: Seq<WarningView>,
}

/// No two collected external paths are equal.
pub open spec fn distinct_externals(ext: Seq<Seq<u8>>) -> bool {
    forall|i: int, j: int| 0 <= i < j < ext.len() ==> ext[i] != ext[j]
}

/// Every collected external path lies outside the project tree.
pub open spec fn all_outside(root: Seq<u8>, ext: Seq<Seq<u8>>) -> bool {
    forall|i: int| 0 <= i < ext.len() ==> !spec_inside(root, ext[i])
}

/// How recording one canonicalization outcome advances the resolver: a
/// missing path warns; a path inside the project tree or already collected
/// changes nothing; a new outside path is appended.
pub open spec fn spec_record(
    st: ResolverView,
    name: Seq<u8>,
    declared: Seq<u8>,
    canon: Option<Seq<u8>>,
) -> ResolverView {
    match canon {
        None => ResolverView {
            warnings: st.warnings.push(WarningView::PatchPathMissing { name, path: declared }),
            ..st
        },
        Some(c) => if spec_inside(st.root, c) || st.externals.contains(c) {
            st
        } else {
            ResolverView { externals: st.externals.push(c), ..st }
        },
    }
}

/// Collects external paths and warnings for one planning run.
#[derive(Clone, Debug, PartialEq, Eq)]
pub struct Resolver {
    /// Canonical path of the primary project tree's root.
    pub root: Vec<u8>,
    /// Deduplicated canonical paths outside the project tree, in the order
    /// first seen.
    pub externals: Vec<Vec<u8>>,
    /// Recoverable findings, in the order they arose.
    pub warnings: Vec<Warning>,
}

impl View for Resolver {
    type V = ResolverView;

    open spec fn view(&self) -> ResolverView {
        ResolverView {
            root: self.root@,
            externals: self.externals.deep_view(),
            warnings: self.warnings.deep_view(),
        }
    }
}

fn contains_path(v: &Vec<Vec<u8>>, x: &[u8]) -> (r: bool)
    ensures
        r == v.deep_view().contains(x@),
{
    let n = v.len();
    let mut i: usize = 0;
    while i < n
        invariant
            0 <= i <= n,
            n == v@.len(),
            forall|j: int| 0 <= j < i ==> v.deep_view()[j] != x@,
        decreases n - i,
    {
        assert(v.deep_view()[i as int] =~= v@[i as int]@);
        if bytes_eq(v[i].as_slice(), x) {
            assert(v.deep_view()[i as int] == x@);
            return true;
        }
        i = i + 1;
    }
    assert(!v.deep_view().contains(x@));
    false
}

impl Resolver {
    /// A fresh resolver for a project tree: nothing collected yet.
    pub fn new(root: Vec<u8>) -> (r: Resolver)
        ensures
            r@.root == root@,
            r@.externals == Seq::<Seq<u8>>::empty(),
            r@.warnings == Seq::<WarningView>::empty(),
    {
        let r = Resolver { root, externals: Vec::new(), warnings: Vec::new() };
        assert(r@.externals =~~= Seq::<Seq<u8>>::empty());
        assert(r@.warnings =~~= Seq::<WarningView>::empty());
        r
    }

    /// Record the canonicalization outcome of one declared override path.
    ///
    /// `canon` is the canonical absolute path, or `None` when the declared
    /// path does not exist on the filesystem.  Returns true exactly when the
    /// path became a new external path — the caller then reads that tree's
    /// own manifest so chained overrides fold into the same pass.
    pub fn record_resolution(
        &mut self,
        name: Vec<u8>,
        declared: Vec<u8>,
        canon: Option<Vec<u8>>,
    ) -> (fresh: bool)
        ensures
            final(self)@ == spec_record(old(self)@, name@, declared@, canon.deep_view()),
            fresh == (canon matches Some(c) && !spec_inside(old(self)@.root, c@) && !old(
                self,
            )@.externals.contains(c@)),
    {
        match canon {
            None => {
                self.warnings.push(Warning::PatchPathMissing { name, path: declared });
                assert(self@ =~~= spec_record(
                    old(self)@,
                    name@,
                    declared@,
                    None::<Vec<u8>>.deep_view(),
                ));
                false
            },
            Some(c) => {
                let ghost cv = c@;
                proof {
                    assert(c.deep_view() =~= c@);
                }
                if is_inside(self.root.as_slice(), c.as_slice()) {
                    assert(self@ =~~= spec_record(old(self)@, name@, declared@, Some(cv)));
                    false
                } else if contains_path(&self.externals, c.as_slice()) {
                    assert(self@ =~~= spec_record(old(self)@, name@, declared@, Some(cv)));
                    false
                } else {
                    self.externals.push(c);
                    assert(self@ =~~= spec_record(old(self)@, name@, declared@, Some(cv)));
                    true
                }
            },
        }
    }

    /// Record one malformed-override warning for each line of a manifest the
    /// parser could not read, naming the manifest it came from.
    pub fn note_malformed(&mut self, manifest: &[u8], m: &ParsedManifest)
        ensures
            final(self)@.root == old(self)@.root,
            final(self)@.externals == old(self)@.externals,
            final(self)@.warnings.len() == old(self)@.warnings.len() + m@.malformed.len(),
            forall|k: int|
                0 <= k < old(self)@.warnings.len() ==> final(self)@.warnings[k] == old(
                    self,
                )@.warnings[k],
            forall|k: int|
                0 <= k < m@.malformed.len() ==> final(self)@.warnings[old(self)@.warnings.len()
                    + k] == (WarningView::MalformedOverride {
                    manifest: manifest@,
                    line: m@.malformed[k],
                }),
    {
        let n = m.malformed.len();
        let ghost w0 = old(self)@.warnings.len() as int;
        let mut i: usize = 0;
        while i < n
            invariant
                0 <= i <= n,
                n == m.malformed.len(),
                w0 == old(self)@.warnings.len(),
                self@.root == old(self)@.root,
                self@.externals == old(self)@.externals,
                self@.warnings.len() == w0 + i,
                forall|k: int| 0 <= k < w0 ==> self@.warnings[k] == old(self)@.warnings[k],
                forall|k: int|
                    0 <= k < i ==> self@.warnings[w0 + k] == (WarningView::MalformedOverride {
                        manifest: manifest@,
                        line: m@.malformed[k],
                    }),
            decreases n - i,
        {
            let w = Warning::MalformedOverride {
                manifest: vstd::slice::slice_to_vec(manifest),
                line: vstd::slice::slice_to_vec(m.malformed[i].as_slice()),
            };
            assert(w@ =~~= (WarningView::MalformedOverride {
                manifest: manifest@,
                line: m@.malformed[i as int],
            }));
            self.warnings.push(w);
            i = i + 1;
        }
    }
}

// --- laws ---

/// Law: recording keeps the external paths deduplicated and outside the
/// project tree, whatever outcome is recorded.
pub proof fn lemma_record_preserves_wf(
    st: ResolverView,
    name: Seq<u8>,
    declared: Seq<u8>,
    canon: Option<Seq<u8>>,
)
    requires
        distinct_externals(st.externals),
        all_outside(st.root, st.externals),
    ensures
        distinct_externals(spec_record(st, name, declared, canon).externals),
        all_outside(st.root, spec_record(st, name, declared, canon).externals),
        spec_record(st, name, declared, canon).root == st.root,
{
    let st2 = spec_record(st, name, declared, canon);
    match canon {
        None => {},
        Some(c) => {
            if spec_inside(st.root, c) || st.externals.contains(c) {
            } else {
                assert forall|i: int, j: int|
                    0 <= i < j < st2.externals.len() implies st2.externals[i]
                    != st2.externals[j] by {
                    if j == st.externals.len() as int {
                        assert(st.externals.contains(st.externals[i])) by {
                            assert(st.externals[i] == st.externals[i]);
                        }
                    }
                }
            }
        },
    }
}

/// Law: two override entries resolving to the same canonical path collapse
/// to one external path — after the first recording the path is present
/// exactly once, and recording it again (from any entry) changes nothing.
pub proof fn lemma_same_canonical_deduplicated(
    st: ResolverView,
    name1: Seq<u8>,
    declared1: Seq<u8>,
    name2: Seq<u8>,
    declared2: Seq<u8>,
    c: Seq<u8>,
)
    requires
        distinct_externals(st.externals),
        all_outside(st.root, st.externals),
        !spec_inside(st.root, c),
    ensures
        ({
            let st1 = spec_record(st, name1, declared1, Some(c));
            let st2 = spec_record(st1, name2, declared2, Some(c));
            &&& st1.externals.contains(c)
            &&& st2.externals == st1.externals
            &&& exists|i: int|
                0 <= i < st1.externals.len() && st1.externals[i] == c && forall|j: int|
                    0 <= j < st1.externals.len() && st1.externals[j] == c ==> j == i
        }),
{
    let st1 = spec_record(st, name1, declared1, Some(c));
    lemma_record_preserves_wf(st, name1, declared1, Some(c));
    if st.externals.contains(c) {
        let i = choose|i: int| 0 <= i < st.externals.len() && st.externals[i] == c;
        assert(st1 == st);
        assert(st1.externals[i] == c);
        assert forall|j: int|
            0 <= j < st1.externals.len() && st1.externals[j] == c implies j == i by {
            if j != i {
                assert(st1.externals[i] != st1.externals[j]);
            }
        }
    } else {
        let i = st.externals.len() as int;
        assert(st1.externals == st.externals.push(c));
        assert(st1.externals[i] == c);
        assert(st1.externals.contains(c));
        assert forall|j: int|
            0 <= j < st1.externals.len() && st1.externals[j] == c implies j == i by {
            if j != i {
                assert(st.externals[j] == c);
                assert(st.externals.contains(c)) by {
                    assert(st.externals[j] == c);
                }
            }
        }
    }
    assert(st1.externals.contains(c));
    let st2 = spec_record(st1, name2, declared2, Some(c));
    assert(st2.externals == st1.externals);
}

/// Law: a canonical path inside the primary project tree never becomes an
/// external path — recording it changes nothing, and no collected external
/// path lies inside the tree.
pub proof fn lemma_inside_paths_excluded(
    st: ResolverView,
    name: Seq<u8>,
    declared: Seq<u8>,
    c: Seq<u8>,
)
    requires
        spec_inside(st.root, c),
        all_outside(st.root, st.externals),
    ensures
        spec_record(st, name, declared, Some(c)) == st,
        !spec_record(st, name, declared, Some(c)).externals.contains(c),
{
    let st2 = spec_record(st, name, declared, Some(c));
    assert(st2 == st);
    if st.externals.contains(c) {
        let i = choose|i: int| 0 <= i < st.externals.len() && st.externals[i] == c;
        assert(!spec_inside(st.root, st.externals[i]));
    }
}

/// Law: a missing declared path only adds a warning: the external paths are
/// unchanged, so the plan is unaffected, and the pipeline does not abort.
pub proof fn lemma_missing_path_only_warns(st: ResolverView, name: Seq<u8>, declared: Seq<u8>)
    ensures
        spec_record(st, name, declared, None).externals == st.externals,
        spec_record(st, name, declared, None).root == st.root,
        spec_record(st, name, declared, None).warnings == st.warnings.push(
            WarningView::PatchPathMissing { name, path: declared },
        ),
{
}

} // verus!
