//! Manifest parsing: recognizing patch sections in a dependency manifest and
//! collecting the override entries they declare.
//!
//! The grammar handled here is the line-oriented subset of a manifest that
//! override resolution needs: full-line comments, `[section]` headers,
//! `key = value` pairs whose value is a basic string or a single-line inline
//! table (brackets inside the table, as in a feature list, are respected when
//! splitting it at commas).  An override entry whose value names a `path` key
//! is a local-path target; any other well-formed value is a registry target,
//! which later stages drop.  A line inside a patch section that this subset
//! cannot read is recorded as a malformed entry, never a parse failure; the
//! only parse failure is a section header without its closing bracket.
//! Multi-line values are outside the subset: inside a patch section they are
//! reported as malformed entries, elsewhere they are ignored.

use vstd::prelude::*;

use crate::bytes::{
    contains_byte, find_byte, find_from, seq_contains_byte, spec_trim, trim, COMMA, DOT, EQUALS,
    HASH, LBRACE, LBRACK, NL, QUOTE, RBRACE, RBRACK,
};

verus! {

/// Which kind of section the parser is inside.
#[derive(Clone, Copy, Debug, PartialEq, Eq, Structural)]
pub enum SectionKind {
    /// An ordinary section: its entries are opaque to override resolution.
    Outside,
    /// A patch section: its entries are override declarations.
    Patch,
    /// A patch-like section the subset cannot read; its entries are skipped.
    Skipped,
}

/// Spec-level target of one override declaration.
#[verifier::ext_equal]
pub enum TargetView {
    LocalPath(Seq<u8>),
    Registry,
}

/// Spec-level override entry.
#[verifier::ext_equal]
pub struct OverrideView {
    pub name: Seq<u8>,
    pub target: TargetView,
}

/// Spec-level result of parsing a manifest.
#[verifier::ext_equal]
pub struct ParseView {
    /// False when the manifest itself could not be read as a sequence of
    /// sections (an unterminated section header).
    pub ok: bool,
    /// Section the parser ended in.
    pub section: SectionKind,
    /// Override entries of all patch sections, in declaration order.
    pub overrides: Seq<OverrideView>,
    /// Trimmed patch-section lines (and unreadable patch headers) that the
    /// subset could not read; each becomes a malformed-override warning.
    pub malformed: Seq<Seq<u8>>,
}

/// The declared target of one override declaration.
#[derive(Clone, Debug, PartialEq, Eq)]
pub enum OverrideTarget {
    /// A local filesystem path, as declared (possibly relative).
    LocalPath(Vec<u8>),
    /// A version, registry or other non-path reference; opaque here.
    Registry,
}

impl View for OverrideTarget {
    type V = TargetView;

    open spec fn view(&self) -> TargetView {
        match self {
            OverrideTarget::LocalPath(p) => TargetView::LocalPath(p@),
            OverrideTarget::Registry => TargetView::Registry,
        }
    }
}

impl DeepView for OverrideTarget {
    type V = TargetView;

    open spec fn deep_view(&self) -> TargetView {
        self.view()
    }
}

/// One override declaration from a patch section.
#[derive(Clone, Debug, PartialEq, Eq)]
pub struct OverrideEntry {
    pub name: Vec<u8>,
    pub target: OverrideTarget,
}

impl View for OverrideEntry {
    type V = OverrideView;

    open spec fn view(&self) -> OverrideView {
        OverrideView { name: self.name@, target: self.target@ }
    }
}

impl DeepView for OverrideEntry {
    type V = OverrideView;

    open spec fn deep_view(&self) -> OverrideView {
        self.view()
    }
}

/// A parsed manifest: the outcome of reading one manifest's text.
#[derive(Clone, Debug, PartialEq, Eq)]
pub struct ParsedManifest {
    /// False when the text could not be parsed at all.
    pub ok: bool,
    /// Section the parser ended in.
    pub section: SectionKind,
    /// Override entries of all patch sections, in declaration order.
    pub overrides: Vec<OverrideEntry>,
    /// Trimmed patch-section lines the parser could not read.
    pub malformed: Vec<Vec<u8>>,
}

impl View for ParsedManifest {
    type V = ParseView;

    open spec fn view(&self) -> ParseView {
        ParseView {
            ok: self.ok,
            section: self.section,
            overrides: self.overrides.deep_view(),
            malformed: self.malformed.deep_view(),
        }
    }
}

/// Fatal failure on the primary manifest: the build must abort.
#[derive(Clone, Debug, PartialEq, Eq)]
pub enum FatalError {
    /// The primary manifest could not be read from disk; `cause` is the
    /// reading failure as the caller reported it.
    PrimaryManifestUnreadable { path: Vec<u8>, cause: Vec<u8> },
    /// The primary manifest text could not be parsed: a section header
    /// without its closing bracket.
    PrimaryManifestMalformed { path: Vec<u8> },
}

// --- spec-level grammar ---

/// Lines of `s`, split at newline bytes; `start` is the current line's first
/// index, `i` the scan position.
pub open spec fn lines_from(s: Seq<u8>, i: int, start: int) -> Seq<Seq<u8>>
    decreases s.len() - i when 0 <= i <= s.len()
{
    if i >= s.len() {
        seq![s.subrange(start, i)]
    } else if s[i] == NL {
        seq![s.subrange(start, i)] + lines_from(s, i + 1, i + 1)
    } else {
        lines_from(s, i + 1, start)
    }
}

pub open spec fn spec_lines(s: Seq<u8>) -> Seq<Seq<u8>> {
    lines_from(s, 0, 0)
}

/// A trimmed header line has its closing bracket.
pub open spec fn well_bracketed(t: Seq<u8>) -> bool {
    t.len() >= 2 && t[0] == LBRACK && t[t.len() - 1] == RBRACK
}

/// The trimmed text between a header line's brackets.
pub open spec fn header_inner(t: Seq<u8>) -> Seq<u8> {
    spec_trim(t.subrange(1, t.len() - 1))
}

/// The bytes of `patch.`.
pub open spec fn patch_prefix() -> Seq<u8> {
    seq![112u8, 97u8, 116u8, 99u8, 104u8, 46u8]
}

/// The bytes of `path`.
pub open spec fn path_key() -> Seq<u8> {
    seq![112u8, 97u8, 116u8, 104u8]
}

pub open spec fn has_patch_prefix(h: Seq<u8>) -> bool {
    h.len() >= 6 && h.subrange(0, 6) == patch_prefix()
}

/// Classify a header's inner text.  A name after `patch.` may be bare or a
/// quoted source address; a dotted (sub-table) or empty name is outside the
/// subset and its section is skipped with a warning.
pub open spec fn classify_header(h: Seq<u8>) -> SectionKind {
    if !has_patch_prefix(h) {
        SectionKind::Outside
    } else {
        let rest = h.subrange(6, h.len() as int);
        if rest.len() == 0 {
            SectionKind::Skipped
        } else if rest[0] == QUOTE {
            if rest.len() >= 2 && rest[rest.len() - 1] == QUOTE {
                SectionKind::Patch
            } else {
                SectionKind::Skipped
            }
        } else if seq_contains_byte(rest, DOT) {
            SectionKind::Skipped
        } else {
            SectionKind::Patch
        }
    }
}

/// A bare key byte: letter, digit, dash or underscore.
pub open spec fn is_bare(b: u8) -> bool {
    (48 <= b <= 57) || (65 <= b <= 90) || (97 <= b <= 122) || b == 45 || b == 95
}

pub open spec fn bare_key_ok(k: Seq<u8>) -> bool {
    k.len() > 0 && forall|i: int| 0 <= i < k.len() ==> is_bare(k[i])
}

/// A basic string: quote-delimited, no interior quote.
pub open spec fn is_basic_string(v: Seq<u8>) -> bool {
    v.len() >= 2 && v[0] == QUOTE && v[v.len() - 1] == QUOTE && forall|i: int|
        1 <= i < v.len() - 1 ==> v[i] != QUOTE
}

/// The text between a basic string's quotes.
pub open spec fn string_content(v: Seq<u8>) -> Seq<u8> {
    v.subrange(1, v.len() - 1)
}

/// Index of the first `=` of an item or line.
pub open spec fn item_eq_idx(t: Seq<u8>) -> int {
    find_from(t, 0, EQUALS)
}

/// Trimmed key of a `key = value` item.
pub open spec fn item_key(t: Seq<u8>) -> Seq<u8> {
    spec_trim(t.subrange(0, item_eq_idx(t)))
}

/// Trimmed value of a `key = value` item.
pub open spec fn item_val(t: Seq<u8>) -> Seq<u8> {
    spec_trim(t.subrange(item_eq_idx(t) + 1, t.len() as int))
}

/// An inline-table item the subset can read: a bare key, a non-empty value,
/// and a basic string when the key is `path`.
pub open spec fn item_ok(t: Seq<u8>) -> bool {
    &&& item_eq_idx(t) < t.len()
    &&& bare_key_ok(item_key(t))
    &&& item_val(t).len() > 0
    &&& (item_key(t) == path_key() ==> is_basic_string(item_val(t)))
}

/// Split an inline table's inner text at top-level commas: commas inside
/// basic strings or inside square brackets (arrays) do not split.
pub open spec fn items_from(s: Seq<u8>, i: int, start: int, in_str: bool, depth: int) -> Seq<
    Seq<u8>,
>
    decreases s.len() - i when 0 <= i <= s.len()
{
    if i >= s.len() {
        seq![s.subrange(start, i)]
    } else if in_str {
        items_from(s, i + 1, start, s[i] != QUOTE, depth)
    } else if s[i] == QUOTE {
        items_from(s, i + 1, start, true, depth)
    } else if s[i] == LBRACK {
        items_from(s, i + 1, start, false, depth + 1)
    } else if s[i] == RBRACK {
        items_from(s, i + 1, start, false, depth - 1)
    } else if s[i] == COMMA && depth == 0 {
        seq![s.subrange(start, i)] + items_from(s, i + 1, i + 1, false, 0)
    } else {
        items_from(s, i + 1, start, false, depth)
    }
}

pub open spec fn spec_items(s: Seq<u8>) -> Seq<Seq<u8>> {
    items_from(s, 0, 0, false, 0)
}

pub open spec fn all_items_ok(items: Seq<Seq<u8>>) -> bool {
    forall|i: int| 0 <= i < items.len() ==> item_ok(items[i])
}

/// Content of the first item whose key is `path`, if any.
pub open spec fn first_path_val(items: Seq<Seq<u8>>, i: int) -> Option<Seq<u8>>
    decreases items.len() - i when 0 <= i <= items.len()
{
    if i >= items.len() {
        None
    } else if item_key(items[i]) == path_key() {
        Some(string_content(item_val(items[i])))
    } else {
        first_path_val(items, i + 1)
    }
}

/// Target declared by an inline-table value (trimmed, starting with `{`).
/// `None` means the value is outside the subset: a malformed entry.
pub open spec fn spec_inline_target(v: Seq<u8>) -> Option<TargetView> {
    if !(v.len() >= 2 && v[v.len() - 1] == RBRACE) {
        None
    } else {
        let inner = v.subrange(1, v.len() - 1);
        if spec_trim(inner).len() == 0 {
            Some(TargetView::Registry)
        } else {
            let items = spec_items(inner);
            if all_items_ok(items) {
                match first_path_val(items, 0) {
                    Some(p) => Some(TargetView::LocalPath(p)),
                    None => Some(TargetView::Registry),
                }
            } else {
                None
            }
        }
    }
}

/// Target declared by a patch-section value (trimmed, non-empty).
/// `None` means the value is outside the subset: a malformed entry.
pub open spec fn spec_entry_target(v: Seq<u8>) -> Option<TargetView> {
    if v.len() == 0 {
        None
    } else if v[0] == QUOTE {
        if is_basic_string(v) {
            Some(TargetView::Registry)
        } else {
            None
        }
    } else if v[0] == LBRACE {
        spec_inline_target(v)
    } else {
        Some(TargetView::Registry)
    }
}

pub open spec fn init_parse() -> ParseView {
    ParseView {
        ok: true,
        section: SectionKind::Outside,
        overrides: Seq::empty(),
        malformed: Seq::empty(),
    }
}

/// How one manifest line advances the parse.
pub open spec fn step_line(st: ParseView, raw: Seq<u8>) -> ParseView {
    if !st.ok {
        st
    } else {
        let t = spec_trim(raw);
        if t.len() == 0 || t[0] == HASH {
            st
        } else if t[0] == LBRACK {
            if !well_bracketed(t) {
                ParseView { ok: false, ..st }
            } else {
                match classify_header(header_inner(t)) {
                    SectionKind::Outside => ParseView { section: SectionKind::Outside, ..st },
                    SectionKind::Patch => ParseView { section: SectionKind::Patch, ..st },
                    SectionKind::Skipped => ParseView {
                        section: SectionKind::Skipped,
                        malformed: st.malformed.push(t),
                        ..st
                    },
                }
            }
        } else if st.section == SectionKind::Patch {
            if item_eq_idx(t) >= t.len() {
                ParseView { malformed: st.malformed.push(t), ..st }
            } else {
                let k = item_key(t);
                let v = item_val(t);
                if !bare_key_ok(k) {
                    ParseView { malformed: st.malformed.push(t), ..st }
                } else {
                    match spec_entry_target(v) {
                        None => ParseView { malformed: st.malformed.push(t), ..st },
                        Some(tgt) => ParseView {
                            overrides: st.overrides.push(OverrideView { name: k, target: tgt }),
                            ..st
                        },
                    }
                }
            }
        } else {
            st
        }
    }
}

pub open spec fn parse_from(lines: Seq<Seq<u8>>, i: int, st: ParseView) -> ParseView
    decreases lines.len() - i when 0 <= i <= lines.len()
{
    if i >= lines.len() {
        st
    } else {
        parse_from(lines, i + 1, step_line(st, lines[i]))
    }
}

/// What parsing a manifest's text yields.
pub open spec fn spec_parse(s: Seq<u8>) -> ParseView {
    parse_from(spec_lines(s), 0, init_parse())
}

// --- executable parser ---

/// Split manifest text into lines at newline bytes.
fn split_lines(s: &[u8]) -> (r: Vec<Vec<u8>>)
    ensures
        r.deep_view() == spec_lines(s@),
{
    let n = s.len();
    let mut acc: Vec<Vec<u8>> = Vec::new();
    let mut start: usize = 0;
    let mut i: usize = 0;
    while i < n
        invariant
            0 <= start <= i <= n,
            n == s@.len(),
            spec_lines(s@) == acc.deep_view() + lines_from(s@, i as int, start as int),
        decreases n - i,
    {
        if s[i] == NL {
            let line = vstd::slice::slice_to_vec(vstd::slice::slice_subrange(s, start, i));
            acc.push(line);
            assert(acc.deep_view() + lines_from(s@, i as int + 1, i as int + 1) =~~= spec_lines(
                s@,
            ));
            start = i + 1;
        }
        i = i + 1;
    }
    let line = vstd::slice::slice_to_vec(vstd::slice::slice_subrange(s, start, n));
    acc.push(line);
    assert(acc.deep_view() =~~= spec_lines(s@));
    acc
}

/// Whether the trimmed key equals `path`.
fn key_is_path(k: &[u8]) -> (r: bool)
    ensures
        r == (k@ == path_key()),
{
    if k.len() == 4 && k[0] == 112 && k[1] == 97 && k[2] == 116 && k[3] == 104 {
        assert(k@ =~= path_key());
        true
    } else {
        assert(k@ != path_key());
        false
    }
}

fn bare_key_check(k: &[u8]) -> (r: bool)
    ensures
        r == bare_key_ok(k@),
{
    let n = k.len();
    if n == 0 {
        return false;
    }
    let mut i: usize = 0;
    while i < n
        invariant
            0 <= i <= n,
            n == k@.len(),
            forall|j: int| 0 <= j < i ==> is_bare(k@[j]),
        decreases n - i,
    {
        let b = k[i];
        if !((48 <= b && b <= 57) || (65 <= b && b <= 90) || (97 <= b && b <= 122) || b == 45
            || b == 95) {
            return false;
        }
        i = i + 1;
    }
    true
}

fn basic_string_check(v: &[u8]) -> (r: bool)
    ensures
        r == is_basic_string(v@),
{
    let n = v.len();
    if n < 2 || v[0] != QUOTE || v[n - 1] != QUOTE {
        return false;
    }
    let mut i: usize = 1;
    while i < n - 1
        invariant
            1 <= i <= n - 1,
            n == v@.len(),
            n >= 2,
            forall|j: int| 1 <= j < i ==> v@[j] != QUOTE,
        decreases n - 1 - i,
    {
        if v[i] == QUOTE {
            return false;
        }
        i = i + 1;
    }
    true
}

/// Classify a header's trimmed inner text.
fn classify_header_exec(h: &[u8]) -> (r: SectionKind)
    ensures
        r == classify_header(h@),
{
    if !(h.len() >= 6 && h[0] == 112 && h[1] == 97 && h[2] == 116 && h[3] == 99 && h[4] == 104
        && h[5] == 46) {
        assert(h@.len() >= 6 ==> h@.subrange(0, 6) != patch_prefix()) by {
            if h@.len() >= 6 && h@.subrange(0, 6) == patch_prefix() {
                assert(h@[0] == patch_prefix()[0]);
                assert(h@[1] == patch_prefix()[1]);
                assert(h@[2] == patch_prefix()[2]);
                assert(h@[3] == patch_prefix()[3]);
                assert(h@[4] == patch_prefix()[4]);
                assert(h@[5] == patch_prefix()[5]);
            }
        }
        return SectionKind::Outside;
    }
    assert(h@.subrange(0, 6) =~= patch_prefix());
    let rest = vstd::slice::slice_subrange(h, 6, h.len());
    if rest.len() == 0 {
        SectionKind::Skipped
    } else if rest[0] == QUOTE {
        if rest.len() >= 2 && rest[rest.len() - 1] == QUOTE {
            SectionKind::Patch
        } else {
            SectionKind::Skipped
        }
    } else if contains_byte(rest, DOT) {
        SectionKind::Skipped
    } else {
        SectionKind::Patch
    }
}

/// Split an inline table's inner text at top-level commas.
fn split_items(s: &[u8]) -> (r: Vec<Vec<u8>>)
    ensures
        r.deep_view() == spec_items(s@),
{
    let n = s.len();
    let mut acc: Vec<Vec<u8>> = Vec::new();
    let mut start: usize = 0;
    let mut i: usize = 0;
    let mut in_str: bool = false;
    let mut depth: i128 = 0;
    while i < n
        invariant
            0 <= start <= i <= n,
            n == s@.len(),
            -(i as int) <= depth <= i as int,
            spec_items(s@) == acc.deep_view() + items_from(
                s@,
                i as int,
                start as int,
                in_str,
                depth as int,
            ),
        decreases n - i,
    {
        let b = s[i];
        if in_str {
            in_str = b != QUOTE;
        } else if b == QUOTE {
            in_str = true;
        } else if b == LBRACK {
            depth = depth + 1;
        } else if b == RBRACK {
            depth = depth - 1;
        } else if b == COMMA && depth == 0 {
            let item = vstd::slice::slice_to_vec(vstd::slice::slice_subrange(s, start, i));
            acc.push(item);
            assert(acc.deep_view() + items_from(s@, i as int + 1, i as int + 1, false, 0)
                =~~= spec_items(s@));
            start = i + 1;
        }
        i = i + 1;
    }
    let item = vstd::slice::slice_to_vec(vstd::slice::slice_subrange(s, start, n));
    acc.push(item);
    assert(acc.deep_view() =~~= spec_items(s@));
    acc
}

/// Read an inline-table value; `None` means it is outside the subset.
fn inline_target(v: &[u8]) -> (r: Option<OverrideTarget>)
    requires
        v@.len() > 0,
        v@[0] == LBRACE,
    ensures
        match r {
            Some(t) => spec_inline_target(v@) == Some(t@),
            None => spec_inline_target(v@) is None,
        },
{
    if !(v.len() >= 2 && v[v.len() - 1] == RBRACE) {
        return None;
    }
    let inner = vstd::slice::slice_subrange(v, 1, v.len() - 1);
    let trimmed = trim(inner);
    if trimmed.len() == 0 {
        return Some(OverrideTarget::Registry);
    }
    let items = split_items(inner);
    let ghost dv = items.deep_view();
    let m = items.len();
    let mut path: Option<Vec<u8>> = None;
    let mut idx: usize = 0;
    while idx < m
        invariant
            0 <= idx <= m,
            m == dv.len(),
            dv == items.deep_view(),
            dv == spec_items(inner@),
            inner@ == v@.subrange(1, v@.len() - 1),
            v@.len() >= 2,
            v@[v@.len() - 1] == RBRACE,
            spec_trim(inner@).len() != 0,
            forall|j: int| 0 <= j < idx ==> item_ok(dv[j]),
            match path {
                None => first_path_val(dv, 0) == first_path_val(dv, idx as int),
                Some(p) => first_path_val(dv, 0) == Some(p@),
            },
        decreases m - idx,
    {
        let it = items[idx].as_slice();
        assert(it@ == dv[idx as int]);
        let e = find_byte(it, EQUALS);
        if e >= it.len() {
            assert(!item_ok(dv[idx as int]));
            return None;
        }
        let k = trim(vstd::slice::slice_subrange(it, 0, e));
        let v2 = trim(vstd::slice::slice_subrange(it, e + 1, it.len()));
        assert(k@ == item_key(dv[idx as int]));
        assert(v2@ == item_val(dv[idx as int]));
        if !bare_key_check(k) || v2.len() == 0 {
            assert(!item_ok(dv[idx as int]));
            return None;
        }
        let kp = key_is_path(k);
        if kp && !basic_string_check(v2) {
            assert(!item_ok(dv[idx as int]));
            return None;
        }
        assert(item_ok(dv[idx as int]));
        if kp && path.is_none() {
            let content = vstd::slice::slice_to_vec(
                vstd::slice::slice_subrange(v2, 1, v2.len() - 1),
            );
            assert(content@ == string_content(item_val(dv[idx as int])));
            path = Some(content);
        } else {
            if !kp {
                assert(first_path_val(dv, idx as int) == first_path_val(dv, idx as int + 1));
            }
        }
        idx = idx + 1;
    }
    assert(first_path_val(dv, m as int) is None);
    match path {
        Some(p) => Some(OverrideTarget::LocalPath(p)),
        None => Some(OverrideTarget::Registry),
    }
}

/// Read a patch-section value; `None` means it is outside the subset.
fn entry_target(v: &[u8]) -> (r: Option<OverrideTarget>)
    requires
        v@.len() > 0,
    ensures
        match r {
            Some(t) => spec_entry_target(v@) == Some(t@),
            None => spec_entry_target(v@) is None,
        },
{
    if v[0] == QUOTE {
        if basic_string_check(v) {
            Some(OverrideTarget::Registry)
        } else {
            None
        }
    } else if v[0] == LBRACE {
        inline_target(v)
    } else {
        Some(OverrideTarget::Registry)
    }
}

/// Advance a parse by one manifest line.
fn step(st: &mut ParsedManifest, raw: &[u8])
    ensures
        final(st)@ == step_line(old(st)@, raw@),
{
    if !st.ok {
        return;
    }
    let t = trim(raw);
    if t.len() == 0 {
        return;
    }
    if t[0] == HASH {
        return;
    }
    if t[0] == LBRACK {
        if !(t.len() >= 2 && t[t.len() - 1] == RBRACK) {
            st.ok = false;
            return;
        }
        let inner = trim(vstd::slice::slice_subrange(t, 1, t.len() - 1));
        assert(inner@ == header_inner(spec_trim(raw@)));
        match classify_header_exec(inner) {
            SectionKind::Outside => {
                st.section = SectionKind::Outside;
            },
            SectionKind::Patch => {
                st.section = SectionKind::Patch;
            },
            SectionKind::Skipped => {
                st.section = SectionKind::Skipped;
                st.malformed.push(vstd::slice::slice_to_vec(t));
                assert(st@ =~~= step_line(old(st)@, raw@));
            },
        }
        return;
    }
    if st.section == SectionKind::Patch {
        let e = find_byte(t, EQUALS);
        if e >= t.len() {
            st.malformed.push(vstd::slice::slice_to_vec(t));
            assert(st@ =~~= step_line(old(st)@, raw@));
            return;
        }
        let k = trim(vstd::slice::slice_subrange(t, 0, e));
        let v = trim(vstd::slice::slice_subrange(t, e + 1, t.len()));
        assert(k@ == item_key(spec_trim(raw@)));
        assert(v@ == item_val(spec_trim(raw@)));
        if !bare_key_check(k) {
            st.malformed.push(vstd::slice::slice_to_vec(t));
            assert(st@ =~~= step_line(old(st)@, raw@));
            return;
        }
        if v.len() == 0 {
            assert(spec_entry_target(v@) is None);
            st.malformed.push(vstd::slice::slice_to_vec(t));
            assert(st@ =~~= step_line(old(st)@, raw@));
            return;
        }
        match entry_target(v) {
            None => {
                st.malformed.push(vstd::slice::slice_to_vec(t));
                assert(st@ =~~= step_line(old(st)@, raw@));
            },
            Some(tgt) => {
                let entry = OverrideEntry { name: vstd::slice::slice_to_vec(k), target: tgt };
                let ghost ev = entry@;
                st.overrides.push(entry);
                assert(st.overrides.deep_view() =~~= old(st).overrides.deep_view().push(ev));
                assert(st@ =~~= step_line(old(st)@, raw@));
            },
        }
        return;
    }
}

/// Parse one manifest's text.
pub fn parse_manifest(s: &[u8]) -> (r: ParsedManifest)
    ensures
        r@ == spec_parse(s@),
{
    let lines = split_lines(s);
    let ghost lv = lines.deep_view();
    let mut st = ParsedManifest {
        ok: true,
        section: SectionKind::Outside,
        overrides: Vec::new(),
        malformed: Vec::new(),
    };
    assert(st@ =~~= init_parse());
    let n = lines.len();
    let mut i: usize = 0;
    while i < n
        invariant
            0 <= i <= n,
            n == lv.len(),
            lv == lines.deep_view(),
            lv == spec_lines(s@),
            spec_parse(s@) == parse_from(lv, i as int, st@),
        decreases n - i,
    {
        let line = lines[i].as_slice();
        assert(line@ == lv[i as int]);
        step(&mut st, line);
        i = i + 1;
    }
    st
}

// --- patch extraction ---

/// The override entries whose declared target is a local path, in
/// declaration order; registry-reference overrides are dropped.
pub open spec fn spec_path_overrides(ovs: Seq<OverrideView>) -> Seq<OverrideView>
    decreases ovs.len(),
{
    if ovs.len() == 0 {
        Seq::empty()
    } else {
        let rest = spec_path_overrides(ovs.drop_last());
        if ovs.last().target is LocalPath {
            rest.push(ovs.last())
        } else {
            rest
        }
    }
}

/// Extract the overrides that point at local paths, in declaration order.
pub fn path_overrides(m: &ParsedManifest) -> (r: Vec<OverrideEntry>)
    ensures
        r.deep_view() == spec_path_overrides(m@.overrides),
{
    let mut r: Vec<OverrideEntry> = Vec::new();
    let n = m.overrides.len();
    let mut i: usize = 0;
    while i < n
        invariant
            0 <= i <= n,
            n == m.overrides.len(),
            r.deep_view() == spec_path_overrides(m@.overrides.subrange(0, i as int)),
        decreases n - i,
    {
        assert(m@.overrides.subrange(0, i as int + 1).drop_last() =~= m@.overrides.subrange(
            0,
            i as int,
        ));
        assert(m@.overrides.subrange(0, i as int + 1).last() == m@.overrides[i as int]);
        let e = &m.overrides[i];
        match &e.target {
            OverrideTarget::LocalPath(p) => {
                let copy = OverrideEntry {
                    name: vstd::slice::slice_to_vec(e.name.as_slice()),
                    target: OverrideTarget::LocalPath(vstd::slice::slice_to_vec(p.as_slice())),
                };
                assert(copy@ =~~= m@.overrides[i as int]);
                let ghost cv = copy@;
                r.push(copy);
                assert(r.deep_view() =~~= spec_path_overrides(
                    m@.overrides.subrange(0, i as int + 1),
                ));
            },
            OverrideTarget::Registry => {
                assert(r.deep_view() =~~= spec_path_overrides(
                    m@.overrides.subrange(0, i as int + 1),
                ));
            },
        }
        i = i + 1;
    }
    assert(m@.overrides.subrange(0, n as int) =~= m@.overrides);
    r
}

/// Law: an override entry whose target is a registry reference never reaches
/// the extracted path-override sequence — every extracted entry has a
/// local-path target, and no registry entry occurs among them — so such an
/// entry can never become an external path.
pub proof fn lemma_registry_overrides_never_extracted(ovs: Seq<OverrideView>)
    ensures
        forall|j: int|
            0 <= j < spec_path_overrides(ovs).len() ==> spec_path_overrides(
                ovs,
            )[j].target is LocalPath,
        forall|k: int|
            0 <= k < ovs.len() && ovs[k].target is Registry ==> !spec_path_overrides(
                ovs,
            ).contains(ovs[k]),
    decreases ovs.len(),
{
    if ovs.len() > 0 {
        lemma_registry_overrides_never_extracted(ovs.drop_last());
        let rest = spec_path_overrides(ovs.drop_last());
        let full = spec_path_overrides(ovs);
        if ovs.last().target is LocalPath {
            assert(full == rest.push(ovs.last()));
            assert forall|j: int| 0 <= j < full.len() implies full[j].target is LocalPath by {
                if j < rest.len() {
                    assert(full[j] == rest[j]);
                } else {
                    assert(full[j] == ovs.last());
                }
            }
        } else {
            assert(full == rest);
        }
    }
    assert forall|k: int|
        0 <= k < ovs.len() && ovs[k].target is Registry implies !spec_path_overrides(ovs).contains(
        ovs[k],
    ) by {
        if spec_path_overrides(ovs).contains(ovs[k]) {
            let j = choose|j: int|
                0 <= j < spec_path_overrides(ovs).len() && spec_path_overrides(ovs)[j] == ovs[k];
            assert(spec_path_overrides(ovs)[j].target is LocalPath);
        }
    }
}

// --- absence of patch sections ---

/// A line that opens a patch section (readable or skipped).
pub open spec fn opens_patch_section(raw: Seq<u8>) -> bool {
    let t = spec_trim(raw);
    t.len() > 0 && t[0] == LBRACK && well_bracketed(t) && classify_header(header_inner(t))
        != SectionKind::Outside
}

proof fn lemma_parse_stuck(lines: Seq<Seq<u8>>, i: int, st: ParseView)
    requires
        0 <= i <= lines.len(),
        !st.ok,
    ensures
        parse_from(lines, i, st) == st,
    decreases lines.len() - i,
{
    if i < lines.len() {
        assert(step_line(st, lines[i]) == st);
        lemma_parse_stuck(lines, i + 1, st);
    }
}

proof fn lemma_parse_no_patch(lines: Seq<Seq<u8>>, i: int, st: ParseView)
    requires
        0 <= i <= lines.len(),
        st.section == SectionKind::Outside,
        forall|k: int| i <= k < lines.len() ==> !opens_patch_section(lines[k]),
    ensures
        parse_from(lines, i, st).overrides == st.overrides,
        parse_from(lines, i, st).malformed == st.malformed,
    decreases lines.len() - i,
{
    if i < lines.len() {
        let st2 = step_line(st, lines[i]);
        assert(st2.overrides == st.overrides && st2.malformed == st.malformed);
        if st2.ok {
            assert(st2.section == SectionKind::Outside);
            lemma_parse_no_patch(lines, i + 1, st2);
        } else {
            lemma_parse_stuck(lines, i + 1, st2);
        }
    }
}

/// Law: a manifest without patch sections declares no overrides — parsing
/// text none of whose lines opens a patch section yields no override entries
/// and no malformed ones.
pub proof fn lemma_no_patch_sections_no_overrides(s: Seq<u8>)
    requires
        forall|k: int| 0 <= k < spec_lines(s).len() ==> !opens_patch_section(spec_lines(s)[k]),
    ensures
        spec_parse(s).overrides == Seq::<OverrideView>::empty(),
        spec_parse(s).malformed == Seq::<Seq<u8>>::empty(),
{
    lemma_parse_no_patch(spec_lines(s), 0, init_parse());
}

/// Load the primary manifest from its text, if it could be read at all.
///
/// `text` is the file's contents, or the reading failure as the caller
/// reports it; that failure and a parse failure are the pipeline's only
/// fatal outcomes.
pub fn load_primary(path: &[u8], text: Result<&[u8], &[u8]>) -> (r: Result<
    ParsedManifest,
    FatalError,
>)
    ensures
        match r {
            Ok(m) => text matches Ok(t) && spec_parse(t@).ok && m@ == spec_parse(t@),
            Err(e) => match e {
                FatalError::PrimaryManifestUnreadable { path: p, cause: c } => (text matches Err(
                    cause,
                ) && c@ == cause@) && p@ == path@,
                FatalError::PrimaryManifestMalformed { path: p } => (text matches Ok(t)
                    && !spec_parse(t@).ok) && p@ == path@,
            },
        },
{
    match text {
        Err(cause) => Err(
            FatalError::PrimaryManifestUnreadable {
                path: vstd::slice::slice_to_vec(path),
                cause: vstd::slice::slice_to_vec(cause),
            },
        ),
        Ok(t) => {
            let m = parse_manifest(t);
            if m.ok {
                Ok(m)
            } else {
                Err(FatalError::PrimaryManifestMalformed { path: vstd::slice::slice_to_vec(path) })
            }
        },
    }
}

} // verus!
