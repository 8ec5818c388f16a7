//! Mirror planning: assigning each external path a deterministic destination
//! under the remote staging root.
//!
//! The destination keeps the external tree's own leaf directory name, and an
//! ordinal prefix derived from the path's position among the deduplicated
//! externals keeps two externals with the same leaf name apart.  Planning is
//! a pure function of its inputs, so repeated runs over an unchanged
//! manifest set produce identical plans.

use vstd::prelude::*;

use crate::bytes::{SLASH, UNDERSCORE};
use crate::resolve::Resolver;

verus! {

/// Spec-level mirror plan entry.
#[verifier::ext_equal]
pub struct PlanEntryView {
    pub source: Seq<u8>,
    pub dest: Seq<u8>,
}

/// One transfer request: mirror the external tree at `source` to `dest` on
/// the remote host.
#[derive(Clone, Debug, PartialEq, Eq)]
pub struct MirrorPlanEntry {
    /// Canonical local path of the external tree.
    pub source: Vec<u8>,
    /// Destination path under the remote staging root.
    pub dest: Vec<u8>,
}

impl View for MirrorPlanEntry {
    type V = PlanEntryView;

    open spec fn view(&self) -> PlanEntryView {
        PlanEntryView { source: self.source@, dest: self.dest@ }
    }
}

impl DeepView for MirrorPlanEntry {
    type V = PlanEntryView;

    open spec fn deep_view(&self) -> PlanEntryView {
        self.view()
    }
}

/// Decimal digits of `n`, most significant first.
pub open spec fn dec_digits(n: nat) -> Seq<u8>
    decreases n,
{
    if n < 10 {
        seq![(48 + n) as u8]
    } else {
        dec_digits(n / 10).push((48 + n % 10) as u8)
    }
}

/// Start of the leaf (last path component) of `p`: the index after the last
/// slash strictly before `i`, or `0`.
pub open spec fn leaf_start(p: Seq<u8>, i: int) -> int
    decreases i when 0 <= i <= p.len()
{
    if i <= 0 {
        0
    } else if p[i - 1] == SLASH {
        i
    } else {
        leaf_start(p, i - 1)
    }
}

/// The last path component of `p`.
pub open spec fn spec_leaf(p: Seq<u8>) -> Seq<u8> {
    p.subrange(leaf_start(p, p.len() as int), p.len() as int)
}

/// Destination of the external path `p` holding ordinal `i`: the staging
/// root, then `/`, the ordinal's digits, `_`, and the path's own leaf name.
pub open spec fn spec_dest(staging: Seq<u8>, i: nat, p: Seq<u8>) -> Seq<u8> {
    staging + seq![SLASH] + dec_digits(i) + seq![UNDERSCORE] + spec_leaf(p)
}

/// The mirror plan for the ordered external paths `ext`.
pub open spec fn spec_plan(ext: Seq<Seq<u8>>, staging: Seq<u8>) -> Seq<PlanEntryView> {
    Seq::new(ext.len(), |i: int| PlanEntryView { source: ext[i], dest: spec_dest(staging, i as nat, ext[i]) })
}

/// No two plan entries share a destination.
pub open spec fn no_dest_collision(plan: Seq<PlanEntryView>) -> bool {
    forall|i: int, j: int| 0 <= i < j < plan.len() ==> plan[i].dest != plan[j].dest
}

fn dec_exec(n: u64) -> (r: Vec<u8>)
    ensures
        r@ == dec_digits(n as nat),
    decreases n,
{
    if n < 10 {
        let mut v: Vec<u8> = Vec::new();
        v.push(48 + (n as u8));
        assert(v@ =~= dec_digits(n as nat));
        v
    } else {
        let mut v = dec_exec(n / 10);
        v.push(48 + ((n % 10) as u8));
        assert(v@ =~= dec_digits(n as nat));
        v
    }
}

fn leaf_exec(p: &[u8]) -> (r: &[u8])
    ensures
        r@ == spec_leaf(p@),
{
    let n = p.len();
    let mut j: usize = n;
    while j > 0 && p[j - 1] != SLASH
        invariant
            0 <= j <= n,
            n == p@.len(),
            leaf_start(p@, n as int) == leaf_start(p@, j as int),
        decreases j,
    {
        j = j - 1;
    }
    assert(leaf_start(p@, j as int) == j as int);
    vstd::slice::slice_subrange(p, j, n)
}

impl Resolver {
    /// Plan the mirror transfers for the collected external paths: one entry
    /// per external path, in order, each with its deterministic destination
    /// under `staging`.
    pub fn plan(&self, staging: &[u8]) -> (r: Vec<MirrorPlanEntry>)
        ensures
            r.deep_view() == spec_plan(self@.externals, staging@),
            no_dest_collision(r.deep_view()),
    {
        let n = self.externals.len();
        let mut r: Vec<MirrorPlanEntry> = Vec::new();
        let mut i: usize = 0;
        while i < n
            invariant
                0 <= i <= n,
                n == self.externals.len(),
                r@.len() == i,
                forall|k: int|
                    0 <= k < i ==> r.deep_view()[k] == spec_plan(self@.externals, staging@)[k],
            decreases n - i,
        {
            let src = self.externals[i].as_slice();
            assert(src@ =~= self@.externals[i as int]);
            let mut dest = vstd::slice::slice_to_vec(staging);
            dest.push(SLASH);
            let digits = dec_exec(i as u64);
            crate::bytes::push_all(&mut dest, digits.as_slice());
            dest.push(UNDERSCORE);
            let leaf = leaf_exec(src);
            crate::bytes::push_all(&mut dest, leaf);
            assert(dest@ =~= spec_dest(staging@, i as nat, self@.externals[i as int]));
            let entry = MirrorPlanEntry { source: vstd::slice::slice_to_vec(src), dest };
            assert(entry@ =~~= spec_plan(self@.externals, staging@)[i as int]);
            let ghost dpre = r.deep_view();
            let ghost rpre = r@;
            r.push(entry);
            assert forall|k: int| 0 <= k <= i as int implies r.deep_view()[k] == spec_plan(
                self@.externals,
                staging@,
            )[k] by {
                if k < i as int {
                    assert(dpre[k] == spec_plan(self@.externals, staging@)[k]);
                    assert(dpre[k] == rpre[k].deep_view());
                    assert(r@[k] == rpre[k]);
                    assert(r.deep_view()[k] == r@[k].deep_view());
                } else {
                    assert(r@[k] == entry);
                    assert(r.deep_view()[k] == entry.deep_view());
                }
            }
            i = i + 1;
        }
        assert(r.deep_view() =~~= spec_plan(self@.externals, staging@));
        proof {
            lemma_plan_destinations_distinct(self@.externals, staging@);
        }
        r
    }
}

/// Every decimal digit byte is in the digit range, and there is at least one.
proof fn lemma_dec_digits_shape(n: nat)
    ensures
        dec_digits(n).len() >= 1,
        forall|k: int|
            0 <= k < dec_digits(n).len() ==> (48 <= #[trigger] dec_digits(n)[k] && dec_digits(
                n,
            )[k] <= 57),
    decreases n,
{
    if n >= 10 {
        lemma_dec_digits_shape(n / 10);
    }
}

/// Distinct ordinals have distinct decimal digit strings.
proof fn lemma_dec_digits_injective(a: nat, b: nat)
    requires
        a != b,
    ensures
        dec_digits(a) != dec_digits(b),
    decreases a + b,
{
    lemma_dec_digits_shape(a);
    lemma_dec_digits_shape(b);
    if a < 10 && b < 10 {
        assert(dec_digits(a) == seq![(48 + a) as u8]);
        assert(dec_digits(b) == seq![(48 + b) as u8]);
        assert(48 + a < 256 && 48 + b < 256);
        assert(dec_digits(a)[0] == (48 + a) as u8);
        assert(dec_digits(b)[0] == (48 + b) as u8);
        assert(dec_digits(a)[0] != dec_digits(b)[0]);
    } else if a < 10 && b >= 10 {
        lemma_dec_digits_shape(b / 10);
        assert(dec_digits(b).len() >= 2);
        assert(dec_digits(a).len() == 1);
    } else if a >= 10 && b < 10 {
        lemma_dec_digits_shape(a / 10);
        assert(dec_digits(a).len() >= 2);
        assert(dec_digits(b).len() == 1);
    } else {
        if a % 10 != b % 10 {
            assert(dec_digits(a).last() != dec_digits(b).last());
        } else {
            assert(a / 10 != b / 10);
            lemma_dec_digits_injective(a / 10, b / 10);
            if dec_digits(a) == dec_digits(b) {
                assert(dec_digits(a).drop_last() =~= dec_digits(b).drop_last());
                assert(dec_digits(a).drop_last() == dec_digits(a / 10));
                assert(dec_digits(b).drop_last() == dec_digits(b / 10));
            }
        }
    }
}

/// Two destinations with different ordinals differ, whatever their leaves:
/// the digit prefixes either differ within their common length or the
/// shorter is followed by `_`, which is no digit.
proof fn lemma_dest_injective(staging: Seq<u8>, i: nat, j: nat, p: Seq<u8>, q: Seq<u8>)
    requires
        i != j,
    ensures
        spec_dest(staging, i, p) != spec_dest(staging, j, q),
{
    lemma_dec_digits_shape(i);
    lemma_dec_digits_shape(j);
    lemma_dec_digits_injective(i, j);
    let di = dec_digits(i);
    let dj = dec_digits(j);
    let a = spec_dest(staging, i, p);
    let b = spec_dest(staging, j, q);
    let base = staging.len() as int + 1;
    if a == b {
        if di.len() == dj.len() {
            assert forall|k: int| 0 <= k < di.len() implies di[k] == dj[k] by {
                assert(a[base + k] == di[k]);
                assert(b[base + k] == dj[k]);
            }
            assert(di =~= dj);
        } else if di.len() < dj.len() {
            assert(a[base + di.len() as int] == UNDERSCORE);
            assert(b[base + di.len() as int] == dj[di.len() as int]);
            assert(48 <= dj[di.len() as int] <= 57);
        } else {
            assert(b[base + dj.len() as int] == UNDERSCORE);
            assert(a[base + dj.len() as int] == di[dj.len() as int]);
            assert(48 <= di[dj.len() as int] <= 57);
        }
    }
}

/// Law: no two mirror plan entries share a destination, whatever the
/// external paths are.
pub proof fn lemma_plan_destinations_distinct(ext: Seq<Seq<u8>>, staging: Seq<u8>)
    ensures
        no_dest_collision(spec_plan(ext, staging)),
{
    assert forall|i: int, j: int|
        0 <= i < j < spec_plan(ext, staging).len() implies spec_plan(ext, staging)[i].dest
        != spec_plan(ext, staging)[j].dest by {
        lemma_dest_injective(staging, i as nat, j as nat, ext[i], ext[j]);
    }
}

/// Law: planning is deterministic — the plan is a function of the external
/// paths and the staging root alone, so two plans computed from the same
/// inputs are identical, entry for entry.
pub proof fn lemma_plan_deterministic(
    ext: Seq<Seq<u8>>,
    staging: Seq<u8>,
    plan1: Seq<PlanEntryView>,
    plan2: Seq<PlanEntryView>,
)
    requires
        plan1 == spec_plan(ext, staging),
        plan2 == spec_plan(ext, staging),
    ensures
        plan1 == plan2,
{
}

/// Law: with no override entries there are no external paths, and the mirror
/// plan of no external paths is empty.
pub proof fn lemma_empty_externals_empty_plan(staging: Seq<u8>)
    ensures
        spec_plan(Seq::<Seq<u8>>::empty(), staging) == Seq::<PlanEntryView>::empty(),
{
    assert(spec_plan(Seq::<Seq<u8>>::empty(), staging) =~= Seq::<PlanEntryView>::empty());
}

/// Law: a manifest set with no patch sections yields an empty mirror plan —
/// parsing such text produces no override entries, so nothing is ever
/// recorded and the externals stay empty, and the plan over no externals is
/// empty.
pub proof fn lemma_no_patch_sections_empty_plan(s: Seq<u8>, staging: Seq<u8>)
    requires
        forall|k: int|
            0 <= k < crate::manifest::spec_lines(s).len()
                ==> !crate::manifest::opens_patch_section(crate::manifest::spec_lines(s)[k]),
    ensures
        crate::manifest::spec_parse(s).overrides == Seq::<crate::manifest::OverrideView>::empty(),
        spec_plan(Seq::<Seq<u8>>::empty(), staging) == Seq::<PlanEntryView>::empty(),
{
    crate::manifest::lemma_no_patch_sections_no_overrides(s);
    lemma_empty_externals_empty_plan(staging);
}

/// Law: a canonical path inside the primary project tree never appears as a
/// plan entry's source: the externals all lie outside the tree, and plan
/// sources come from the externals alone.
pub proof fn lemma_inside_path_never_planned(
    ext: Seq<Seq<u8>>,
    root: Seq<u8>,
    c: Seq<u8>,
    staging: Seq<u8>,
)
    requires
        crate::resolve::all_outside(root, ext),
        crate::resolve::spec_inside(root, c),
    ensures
        forall|k: int|
            0 <= k < spec_plan(ext, staging).len() ==> spec_plan(ext, staging)[k].source != c,
{
    assert forall|k: int|
        0 <= k < spec_plan(ext, staging).len() implies spec_plan(ext, staging)[k].source != c by {
        assert(!crate::resolve::spec_inside(root, ext[k]));
        assert(spec_plan(ext, staging)[k].source == ext[k]);
    }
}

/// Law: each canonical path among the externals yields exactly one plan
/// entry with it as source — externals are deduplicated, and the plan maps
/// them one to one.
pub proof fn lemma_one_entry_per_external(ext: Seq<Seq<u8>>, staging: Seq<u8>, c: Seq<u8>)
    requires
        crate::resolve::distinct_externals(ext),
        ext.contains(c),
    ensures
        exists|i: int|
            0 <= i < spec_plan(ext, staging).len() && spec_plan(ext, staging)[i].source == c
                && forall|j: int|
                0 <= j < spec_plan(ext, staging).len() && spec_plan(ext, staging)[j].source == c
                    ==> j == i,
{
    let plan = spec_plan(ext, staging);
    let i = choose|i: int| 0 <= i < ext.len() && ext[i] == c;
    assert(plan[i].source == c);
    assert forall|j: int| 0 <= j < plan.len() && plan[j].source == c implies j == i by {
        if j != i {
            assert(ext[i] != ext[j] || ext[j] != ext[i]);
        }
    }
    assert(0 <= i < plan.len() && plan[i].source == c && forall|j: int|
        0 <= j < plan.len() && plan[j].source == c ==> j == i);
}

} // verus!

