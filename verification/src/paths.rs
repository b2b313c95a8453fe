use vstd::prelude::*;

use crate::style::str_eq;
use crate::text::{chars_of, starts_with_at};

verus! {

/// A component of a path: a drive prefix, the root, `.`, `..` or a name.
#[derive(Clone, Debug, PartialEq, Eq)]
pub enum PathComponent {
    Prefix(String),
    RootDir,
    CurDir,
    ParentDir,
    Normal(String),
}

/// The value a `PathComponent` stands for.
pub enum ComponentView {
    Prefix(Seq<char>),
    RootDir,
    CurDir,
    ParentDir,
    Normal(Seq<char>),
}

impl View for PathComponent {
    type V = ComponentView;

    open spec fn view(&self) -> ComponentView {
        match self {
            PathComponent::Prefix(s) => ComponentView::Prefix(s@),
            PathComponent::RootDir => ComponentView::RootDir,
            PathComponent::CurDir => ComponentView::CurDir,
            PathComponent::ParentDir => ComponentView::ParentDir,
            PathComponent::Normal(s) => ComponentView::Normal(s@),
        }
    }
}

/// The components of a path, as values.
pub open spec fn comps(v: Seq<PathComponent>) -> Seq<ComponentView> {
    Seq::new(v.len(), |i: int| v[i]@)
}

/// Whether a component anchors a path: a prefix or the root.
pub open spec fn is_anchor(c: ComponentView) -> bool {
    c is Prefix || c is RootDir
}

/// Whether the path `p` has a parent to step to: it ends with a component that is not an
/// anchor.
pub open spec fn has_parent(p: Seq<ComponentView>) -> bool {
    p.len() > 0 && !is_anchor(p.last())
}

/// The path `r` with the root pushed onto it: the root after the prefix of `r`, if it has one.
pub open spec fn push_root(r: Seq<ComponentView>) -> Seq<ComponentView> {
    if r.len() > 0 && r[0] is Prefix {
        seq![r[0], ComponentView::RootDir]
    } else {
        seq![ComponentView::RootDir]
    }
}

/// The path built from the empty path by pushing the components of `x` in turn: a prefix
/// starts over, the root keeps only the prefix, `.` changes nothing, `..` steps to the parent
/// where there is one, and a name is appended.
pub open spec fn resolve(x: Seq<ComponentView>) -> Seq<ComponentView>
    decreases x.len(),
{
    if x.len() == 0 {
        Seq::empty()
    } else {
        let r = resolve(x.drop_last());
        match x.last() {
            ComponentView::Prefix(s) => seq![ComponentView::Prefix(s)],
            ComponentView::RootDir => push_root(r),
            ComponentView::CurDir => r,
            ComponentView::ParentDir => if has_parent(r) {
                r.drop_last()
            } else {
                r
            },
            ComponentView::Normal(s) => r.push(ComponentView::Normal(s)),
        }
    }
}

/// The normal form of the components `x`: resolved, and `.` where nothing is left.
pub open spec fn spec_normal(x: Seq<ComponentView>) -> Seq<ComponentView> {
    let r = resolve(x);
    if r.len() == 0 {
        seq![ComponentView::CurDir]
    } else {
        r
    }
}

/// A path whose anchors all stand before its names: an optional prefix, an optional root,
/// then names.
pub open spec fn anchored_names(p: Seq<ComponentView>) -> bool {
    forall|i: int| 0 <= i < p.len() ==> (#[trigger] p[i] is Normal || (p[i] is Prefix && i == 0)
        || (p[i] is RootDir && (i == 0 || (i == 1 && p[0] is Prefix))))
}

/// A path in normal form: `.` alone, or a non-empty path of anchors then names.
pub open spec fn is_normal_form(p: Seq<ComponentView>) -> bool {
    ||| p == seq![ComponentView::CurDir]
    ||| p.len() > 0 && anchored_names(p)
}

pub proof fn lemma_resolve_anchored(x: Seq<ComponentView>)
    ensures
        anchored_names(resolve(x)),
    decreases x.len(),
{
    if x.len() > 0 {
        lemma_resolve_anchored(x.drop_last());
    }
}

/// The normal form of any components is in normal form.
pub proof fn law_normal_is_normal_form(x: Seq<ComponentView>)
    ensures
        is_normal_form(spec_normal(x)),
{
    lemma_resolve_anchored(x);
}

/// A copy of a component.
pub(crate) fn copy_component(c: &PathComponent) -> (r: PathComponent)
    ensures
        r@ == c@,
{
    match c {
        PathComponent::Prefix(s) => PathComponent::Prefix(s.clone()),
        PathComponent::RootDir => PathComponent::RootDir,
        PathComponent::CurDir => PathComponent::CurDir,
        PathComponent::ParentDir => PathComponent::ParentDir,
        PathComponent::Normal(s) => PathComponent::Normal(s.clone()),
    }
}

fn is_anchor_component(c: &PathComponent) -> (b: bool)
    ensures
        b == is_anchor(c@),
{
    match c {
        PathComponent::Prefix(_) | PathComponent::RootDir => true,
        _ => false,
    }
}

proof fn lemma_comps_push(v: Seq<PathComponent>, c: PathComponent)
    ensures
        comps(v.push(c)) == comps(v).push(c@),
{
    assert(comps(v.push(c)) =~= comps(v).push(c@));
}

proof fn lemma_comps_drop_last(v: Seq<PathComponent>)
    requires
        v.len() > 0,
    ensures
        comps(v.drop_last()) == comps(v).drop_last(),
{
    assert(comps(v.drop_last()) =~= comps(v).drop_last());
}

/// The normal form of the path with components `x`: `.` dropped, each `..` resolved against
/// the name before it, and `.` where nothing is left.
pub fn normal_path_components(x: &Vec<PathComponent>) -> (r: Vec<PathComponent>)
    ensures
        comps(r@) == spec_normal(comps(x@)),
{
    let mut ret: Vec<PathComponent> = Vec::new();
    let mut i: usize = 0;
    while i < x.len()
        invariant
            i <= x.len(),
            comps(ret@) == resolve(comps(x@).take(i as int)),
        decreases x.len() - i,
    {
        let ghost before = comps(ret@);
        proof {
            assert(comps(x@).take(i + 1).drop_last() =~= comps(x@).take(i as int));
            assert(comps(x@).take(i + 1).last() == x@[i as int]@);
        }
        match &x[i] {
            PathComponent::Prefix(s) => {
                ret = vec![PathComponent::Prefix(s.clone())];
                proof {
                    assert(comps(ret@) =~= seq![ComponentView::Prefix(s@)]);
                }
            },
            PathComponent::RootDir => {
                if ret.len() > 0 && matches!(ret[0], PathComponent::Prefix(_)) {
                    let p = copy_component(&ret[0]);
                    ret = vec![p, PathComponent::RootDir];
                    proof {
                        assert(comps(ret@) =~= push_root(before));
                    }
                } else {
                    ret = vec![PathComponent::RootDir];
                    proof {
                        assert(comps(ret@) =~= push_root(before));
                    }
                }
            },
            PathComponent::CurDir => {},
            PathComponent::ParentDir => {
                if ret.len() > 0 && !is_anchor_component(&ret[ret.len() - 1]) {
                    proof {
                        lemma_comps_drop_last(ret@);
                    }
                    ret.pop();
                }
            },
            PathComponent::Normal(s) => {
                let c = PathComponent::Normal(s.clone());
                proof {
                    lemma_comps_push(ret@, c);
                }
                ret.push(c);
            },
        }
        i = i + 1;
    }
    proof {
        assert(comps(x@).take(x@.len() as int) =~= comps(x@));
    }
    if ret.len() == 0 {
        ret.push(PathComponent::CurDir);
        proof {
            assert(comps(ret@) =~= seq![ComponentView::CurDir]);
        }
    }
    ret
}

/// Whether two components are the same.
fn same_component(a: &PathComponent, b: &PathComponent) -> (r: bool)
    ensures
        r == (a@ == b@),
{
    match (a, b) {
        (PathComponent::Prefix(x), PathComponent::Prefix(y)) => str_eq(x.as_str(), y.as_str()),
        (PathComponent::RootDir, PathComponent::RootDir) => true,
        (PathComponent::CurDir, PathComponent::CurDir) => true,
        (PathComponent::ParentDir, PathComponent::ParentDir) => true,
        (PathComponent::Normal(x), PathComponent::Normal(y)) => str_eq(x.as_str(), y.as_str()),
        _ => false,
    }
}

/// Whether two paths have the same components, the first `n` of `b` taken.
pub(crate) fn same_components_upto(a: &Vec<PathComponent>, b: &Vec<PathComponent>, n: usize) -> (r: bool)
    requires
        n <= b.len(),
    ensures
        r == (comps(a@) == comps(b@).take(n as int)),
{
    if a.len() != n {
        proof {
            assert(comps(a@).len() != comps(b@).take(n as int).len());
        }
        return false;
    }
    let mut i: usize = 0;
    while i < n
        invariant
            n <= b.len(),
            a.len() == n,
            i <= n,
            forall|j: int| 0 <= j < i ==> a@[j]@ == b@[j]@,
        decreases n - i,
    {
        if !same_component(&a[i], &b[i]) {
            proof {
                assert(comps(a@)[i as int] != comps(b@).take(n as int)[i as int]);
            }
            return false;
        }
        i = i + 1;
    }
    assert(comps(a@) =~= comps(b@).take(n as int));
    true
}

/// Whether two paths have the same components, as paths are compared.
pub(crate) fn same_components(a: &Vec<PathComponent>, b: &Vec<PathComponent>) -> (r: bool)
    ensures
        r == (comps(a@) == comps(b@)),
{
    let r = same_components_upto(a, b, b.len());
    assert(comps(b@).take(b@.len() as int) =~= comps(b@));
    r
}

/// A copy of the components of a path.
pub(crate) fn copy_components(v: &Vec<PathComponent>) -> (r: Vec<PathComponent>)
    ensures
        comps(r@) == comps(v@),
{
    let r = copy_components_upto(v, v.len());
    assert(comps(v@).take(v@.len() as int) =~= comps(v@));
    r
}

/// A copy of the first `n` components of a path.
pub(crate) fn copy_components_upto(v: &Vec<PathComponent>, n: usize) -> (r: Vec<PathComponent>)
    requires
        n <= v.len(),
    ensures
        comps(r@) == comps(v@).take(n as int),
{
    let mut r: Vec<PathComponent> = Vec::new();
    let mut i: usize = 0;
    while i < n
        invariant
            n <= v.len(),
            i <= n,
            comps(r@) == comps(v@).take(i as int),
        decreases n - i,
    {
        let c = copy_component(&v[i]);
        proof {
            lemma_comps_push(r@, c);
            assert(comps(v@).take(i as int).push(c@) =~= comps(v@).take(i + 1));
        }
        r.push(c);
        i = i + 1;
    }
    r
}

/// What joining `c2` onto `c1` gives: the normal form of `c2` when it is anchored, else of
/// `c1` followed by `c2`.
pub open spec fn spec_concat(c1: Seq<ComponentView>, c2: Seq<ComponentView>) -> Seq<ComponentView>
    recommends
        c2.len() > 0,
{
    if is_anchor(c2[0]) {
        spec_normal(c2)
    } else {
        spec_normal(c1 + c2)
    }
}

/// Joins the path `c2` onto the path `c1`, and gives the normal form of the result.
pub fn path_concat(c1: &Vec<PathComponent>, c2: &Vec<PathComponent>) -> (r: Vec<PathComponent>)
    requires
        c2.len() > 0,
    ensures
        comps(r@) == spec_concat(comps(c1@), comps(c2@)),
{
    if is_anchor_component(&c2[0]) {
        normal_path_components(c2)
    } else {
        let mut all: Vec<PathComponent> = Vec::new();
        let mut i: usize = 0;
        while i < c1.len()
            invariant
                i <= c1.len(),
                comps(all@) == comps(c1@).take(i as int),
            decreases c1.len() - i,
        {
            let c = copy_component(&c1[i]);
            proof {
                lemma_comps_push(all@, c);
                assert(comps(c1@).take(i as int).push(c@) =~= comps(c1@).take(i + 1));
            }
            all.push(c);
            i = i + 1;
        }
        let mut j: usize = 0;
        while j < c2.len()
            invariant
                j <= c2.len(),
                comps(all@) == comps(c1@) + comps(c2@).take(j as int),
            decreases c2.len() - j,
        {
            let c = copy_component(&c2[j]);
            proof {
                lemma_comps_push(all@, c);
                assert((comps(c1@) + comps(c2@).take(j as int)).push(c@) =~= comps(c1@) + comps(c2@).take(
                    j + 1,
                ));
            }
            all.push(c);
            j = j + 1;
        }
        proof {
            assert(comps(c1@).take(c1@.len() as int) =~= comps(c1@));
            assert(comps(c2@).take(c2@.len() as int) =~= comps(c2@));
        }
        normal_path_components(&all)
    }
}

/// Whether stepping from `s` to its parent, again and again, reaches `p`.
pub open spec fn reaches_by_parents(p: Seq<ComponentView>, s: Seq<ComponentView>) -> bool
    decreases s.len(),
{
    if has_parent(s) {
        p == s.drop_last() || reaches_by_parents(p, s.drop_last())
    } else {
        false
    }
}

/// Whether `p` is a directory above `sub`: stepping from `sub` to its parent reaches `p`.
pub fn is_sub_dir(p: &Vec<PathComponent>, sub: &Vec<PathComponent>) -> (b: bool)
    ensures
        b == reaches_by_parents(comps(p@), comps(sub@)),
{
    let mut n: usize = sub.len();
    proof {
        assert(comps(sub@).take(n as int) =~= comps(sub@));
    }
    while n > 0
        invariant
            n <= sub.len(),
            reaches_by_parents(comps(p@), comps(sub@)) == reaches_by_parents(
                comps(p@),
                comps(sub@).take(n as int),
            ),
        decreases n,
    {
        let ghost t = comps(sub@).take(n as int);
        proof {
            assert(t.drop_last() =~= comps(sub@).take(n - 1));
            assert(t.last() == sub@[n - 1]@);
        }
        if is_anchor_component(&sub[n - 1]) {
            return false;
        }
        n = n - 1;
        if same_components_upto(p, sub, n) {
            return true;
        }
    }
    proof {
        assert(comps(sub@).take(0) =~= Seq::<ComponentView>::empty());
    }
    false
}

/// A directory `p` is above `s` exactly when `p` is a proper beginning of `s` and every
/// component of `s` after it is no anchor.
pub proof fn law_sub_dir_is_proper_beginning(p: Seq<ComponentView>, s: Seq<ComponentView>)
    ensures
        reaches_by_parents(p, s) <==> (p.len() < s.len() && s.take(p.len() as int) == p && forall|j: int|
            p.len() <= j < s.len() ==> !is_anchor(#[trigger] s[j])),
    decreases s.len(),
{
    if s.len() > 0 {
        let t = s.drop_last();
        law_sub_dir_is_proper_beginning(p, t);
        if has_parent(s) {
            if p.len() < s.len() && s.take(p.len() as int) == p && (forall|j: int|
                p.len() <= j < s.len() ==> !is_anchor(#[trigger] s[j])) {
                if p.len() < t.len() {
                    assert(t.take(p.len() as int) =~= s.take(p.len() as int));
                    assert forall|j: int| p.len() <= j < t.len() implies !is_anchor(#[trigger] t[j]) by {
                        assert(t[j] == s[j]);
                    }
                } else {
                    assert(p =~= t);
                }
            }
            if reaches_by_parents(p, s) {
                if p == t {
                    assert(s.take(p.len() as int) =~= t);
                } else {
                    assert(s.take(p.len() as int) =~= t.take(p.len() as int));
                    assert forall|j: int| p.len() <= j < s.len() implies !is_anchor(#[trigger] s[j]) by {
                        if j < t.len() {
                            assert(t[j] == s[j]);
                        }
                    }
                }
            }
        } else {
            if p.len() < s.len() && (forall|j: int| p.len() <= j < s.len() ==> !is_anchor(#[trigger] s[j])) {
                assert(!is_anchor(s[s.len() - 1]));
            }
        }
    }
}

/// The layouts of a package that a directory name marks.
#[derive(Clone, Copy, Debug, PartialEq, Eq, Structural)]
pub enum SourcePackageLayout {
    Sources,
    Tests,
    Scripts,
}

/// The layout that a component names: `sources`, `tests` or `scripts`.
pub open spec fn layout_of(c: ComponentView) -> Option<SourcePackageLayout> {
    match c {
        ComponentView::Normal(s) => if s == "tests"@ {
            Some(SourcePackageLayout::Tests)
        } else if s == "sources"@ {
            Some(SourcePackageLayout::Sources)
        } else if s == "scripts"@ {
            Some(SourcePackageLayout::Scripts)
        } else {
            None
        },
        _ => None,
    }
}

fn layout_of_component(c: &PathComponent) -> (r: Option<SourcePackageLayout>)
    ensures
        r == layout_of(c@),
{
    match c {
        PathComponent::Normal(s) => if str_eq(s.as_str(), "tests") {
            Some(SourcePackageLayout::Tests)
        } else if str_eq(s.as_str(), "sources") {
            Some(SourcePackageLayout::Sources)
        } else if str_eq(s.as_str(), "scripts") {
            Some(SourcePackageLayout::Scripts)
        } else {
            None
        },
        _ => None,
    }
}

/// Where a manifest is looked for from inside the directory `d`, nearest first: the directory
/// above each `sources`, `tests` or `scripts` directory on the way up, with the layout that
/// directory names.
pub open spec fn candidates_in(d: Seq<ComponentView>) -> Seq<(Seq<ComponentView>, SourcePackageLayout)>
    decreases d.len(),
{
    if d.len() == 0 {
        Seq::empty()
    } else {
        let rest = candidates_in(d.drop_last());
        match layout_of(d.last()) {
            Some(l) => seq![(d.drop_last(), l)] + rest,
            None => rest,
        }
    }
}

/// Where a manifest is looked for from the file `path`: the candidates of the directory that
/// holds it.
pub open spec fn spec_manifest_candidates(path: Seq<ComponentView>) -> Seq<(Seq<ComponentView>, SourcePackageLayout)> {
    if path.len() == 0 {
        Seq::empty()
    } else {
        candidates_in(path.drop_last())
    }
}

/// The candidates as values.
pub open spec fn candidates_view(v: Seq<(Vec<PathComponent>, SourcePackageLayout)>) -> Seq<
    (Seq<ComponentView>, SourcePackageLayout),
> {
    Seq::new(v.len(), |i: int| (comps(v[i].0@), v[i].1))
}

/// The directories, nearest first, in which the manifest of the package that holds the file
/// `path` may stand, each with the layout of the directory below it that the file is in; the
/// package is the first of them that holds a manifest.
pub fn manifest_candidates(path: &Vec<PathComponent>) -> (r: Vec<(Vec<PathComponent>, SourcePackageLayout)>)
    ensures
        candidates_view(r@) == spec_manifest_candidates(comps(path@)),
{
    let mut r: Vec<(Vec<PathComponent>, SourcePackageLayout)> = Vec::new();
    if path.len() == 0 {
        assert(candidates_view(r@) =~= Seq::empty());
        return r;
    }
    let ghost d = comps(path@).drop_last();
    let mut k: usize = path.len() - 1;
    proof {
        assert(d.take(k as int) =~= d);
    }
    while k > 0
        invariant
            k < path.len(),
            d == comps(path@).drop_last(),
            candidates_view(r@) + candidates_in(d.take(k as int)) == candidates_in(d),
        decreases k,
    {
        let ghost t = d.take(k as int);
        proof {
            assert(t.drop_last() =~= d.take(k - 1));
            assert(t.last() == path@[k - 1]@);
        }
        match layout_of_component(&path[k - 1]) {
            Some(l) => {
                let mut dir: Vec<PathComponent> = Vec::new();
                let mut i: usize = 0;
                while i < k - 1
                    invariant
                        0 < k < path.len(),
                        i <= k - 1,
                        comps(dir@) == comps(path@).take(i as int),
                    decreases k - 1 - i,
                {
                    let c = copy_component(&path[i]);
                    proof {
                        lemma_comps_push(dir@, c);
                        assert(comps(path@).take(i as int).push(c@) =~= comps(path@).take(i + 1));
                    }
                    dir.push(c);
                    i = i + 1;
                }
                let ghost before = r@;
                r.push((dir, l));
                proof {
                    assert(comps(dir@) =~= t.drop_last());
                    assert(candidates_view(r@) =~= candidates_view(before).push((t.drop_last(), l)));
                    assert(candidates_in(t) == seq![(t.drop_last(), l)] + candidates_in(t.drop_last()));
                    assert(candidates_view(r@) + candidates_in(t.drop_last()) =~= candidates_view(before)
                        + candidates_in(t));
                }
            },
            None => {},
        }
        k = k - 1;
    }
    proof {
        assert(d.take(0) =~= Seq::<ComponentView>::empty());
        assert(candidates_view(r@) + Seq::empty() =~= candidates_view(r@));
    }
    r
}

/// The name of a package's manifest file.
pub const PROJECT_FILE_NAME: &'static str = "Move.toml";

/// The component that a segment of a path between separators stands for: none for an empty
/// segment or `.`, the parent for `..`, a name otherwise.
pub open spec fn segment_component(seg: Seq<char>) -> Seq<ComponentView> {
    if seg.len() == 0 || seg == seq!['.'] {
        Seq::empty()
    } else if seg == seq!['.', '.'] {
        seq![ComponentView::ParentDir]
    } else {
        seq![ComponentView::Normal(seg)]
    }
}

/// The position of the first `/` in `s` from `i`, or the length of `s`.
pub open spec fn first_slash(s: Seq<char>, i: nat) -> nat
    decreases s.len() - i,
{
    if i >= s.len() {
        s.len()
    } else if s[i as int] == '/' {
        i
    } else {
        first_slash(s, i + 1)
    }
}

/// The components that the `/`-separated segments of `s` stand for, in order.
pub open spec fn segments_components(s: Seq<char>) -> Seq<ComponentView>
    decreases s.len(),
{
    if s.len() == 0 {
        Seq::empty()
    } else {
        let k = first_slash(s, 0);
        if k < s.len() {
            segment_component(s.take(k as int)) + segments_components(s.skip(k + 1 as int))
        } else {
            segment_component(s)
        }
    }
}

/// How a path text splits into components on every platform, for a text as
/// `plain_path_text` describes: a leading `/` is the root; a leading `.` segment of a path
/// without root is `.`; then each segment as `segment_component` gives it.
pub open spec fn spec_split_path(p: Seq<char>) -> Seq<ComponentView> {
    if p.len() > 0 && p[0] == '/' {
        seq![ComponentView::RootDir] + segments_components(p.drop_first())
    } else if p.len() > 0 && p[0] == '.' && (p.len() == 1 || p[1] == '/') {
        seq![ComponentView::CurDir] + segments_components(p.drop_first())
    } else {
        segments_components(p)
    }
}

/// A path text that splits the same way on every platform: no backslash and no `:` (which only some
/// platforms read as separators or drive prefixes), and no leading `//` (which some platforms
/// read as the prefix of a network share).
pub open spec fn plain_path_text(p: Seq<char>) -> bool {
    &&& forall|i: int| 0 <= i < p.len() ==> #[trigger] p[i] != '\\' && p[i] != ':'
    &&& !(p.len() >= 2 && p[0] == '/' && p[1] == '/')
}

/// Whether a prefix written `t` is verbatim (`\\?\`), which turns off all normalisation of the
/// rest of the path.
pub open spec fn verbatim_prefix(t: Seq<char>) -> bool {
    t.len() >= 4 && t[0] == '\\' && t[1] == '\\' && t[2] == '?' && t[3] == '\\'
}

/// Whether the path `c` starts with a verbatim prefix.
pub open spec fn starts_verbatim(c: Seq<ComponentView>) -> bool {
    c.len() > 0 && match c[0] {
        ComponentView::Prefix(t) => verbatim_prefix(t),
        _ => false,
    }
}

/// The components of the path written `p`, as `std::path::Path::components` splits it on this
/// platform, each converted to a `PathComponent`. Stated of them is what the standard library
/// documents of every split: the root stands only first or right after a prefix, and unless
/// the prefix is verbatim (whose rest is not normalised, so `.` may stand anywhere in it), a
/// `.` is kept only at the start of the path: first, or right after a prefix. For a text that splits the same way on every platform (`plain_path_text`), the
/// components are stated exactly: `/` is the separator on every platform, repeated separators
/// and a trailing one are ignored, `.` is dropped except at the start of a path without root,
/// `..` is the parent and any other segment a name. For other texts, how they are cut into
/// components depends on the platform and is left unsaid.
#[verifier::external_body]
pub(crate) fn split_path(p: &str) -> (r: Vec<PathComponent>)
    ensures
        plain_path_text(p@) ==> comps(r@) == spec_split_path(p@),
        !starts_verbatim(comps(r@)) ==> forall|
            i: int,
        | 0 < i < r@.len() && (#[trigger] r@[i]@ is CurDir) ==> i == 1 && r@[0]@ is Prefix,
        forall|i: int| 0 <= i < r@.len() && (#[trigger] r@[i]@ is RootDir) ==> i == 0 || (i == 1
            && r@[0]@ is Prefix),
{
    let mut r = Vec::new();
    for c in std::path::Path::new(p).components() {
        r.push(match c {
            std::path::Component::Prefix(x) => PathComponent::Prefix(x.as_os_str().to_string_lossy().into_owned()),
            std::path::Component::RootDir => PathComponent::RootDir,
            std::path::Component::CurDir => PathComponent::CurDir,
            std::path::Component::ParentDir => PathComponent::ParentDir,
            std::path::Component::Normal(x) => PathComponent::Normal(x.to_string_lossy().into_owned()),
        });
    }
    r
}

/// `std::path::Path::is_absolute` on the path written `p`. The standard library documents that
/// an absolute path starts with the root (on Windows, after a prefix); so a text that splits the
/// same way on every platform (`plain_path_text`) and does not start with `/` is not absolute.
/// Whether a text that starts with `/` is absolute depends on the platform (on Windows it also
/// needs a prefix) and is left unsaid.
#[verifier::external_body]
pub(crate) fn path_is_absolute(p: &str) -> (b: bool)
    ensures
        plain_path_text(p@) && !(p@.len() > 0 && p@[0] == '/') ==> !b,
{
    std::path::Path::new(p).is_absolute()
}

/// The normal form of the path written `p`.
pub fn normal_path(p: &str) -> (r: Vec<PathComponent>)
    ensures
        is_normal_form(comps(r@)),
        plain_path_text(p@) ==> comps(r@) == spec_normal(spec_split_path(p@)),
{
    let x = split_path(p);
    let r = normal_path_components(&x);
    proof {
        law_normal_is_normal_form(comps(x@));
    }
    r
}

/// Whether the text `s` ends with `suffix`.
pub open spec fn text_ends_with(s: Seq<char>, suffix: Seq<char>) -> bool {
    suffix.len() <= s.len() && s.subrange(s.len() - suffix.len(), s.len() as int) == suffix
}

fn ends_with(s: &str, suffix: &str) -> (b: bool)
    ensures
        b == text_ends_with(s@, suffix@),
{
    let v = chars_of(s);
    let n = chars_of(suffix).len();
    if n > v.len() {
        return false;
    }
    starts_with_at(&v, v.len() - n, suffix)
}

/// What joining `c2` onto the path `c1`, written `p1`, gives when a path that names a manifest
/// file stands for the directory that holds it.
pub open spec fn spec_concat_move_toml(p1: Seq<char>, c1: Seq<ComponentView>, c2: Seq<ComponentView>) -> Seq<
    ComponentView,
> {
    if text_ends_with(p1, PROJECT_FILE_NAME@) && has_parent(c1) {
        spec_concat(c1.drop_last(), c2)
    } else {
        spec_concat(c1, c2)
    }
}

/// Joins `c2` onto the path `c1`, written `p1`, where a path that names a manifest file stands
/// for the directory that holds it; gives the normal form. `None` when `c2` has no component.
pub fn path_concat_move_toml_components(p1: &str, c1: &Vec<PathComponent>, c2: &Vec<PathComponent>) -> (r: Option<
    Vec<PathComponent>,
>)
    ensures
        c2@.len() == 0 <==> r is None,
        r matches Some(v) ==> comps(v@) == spec_concat_move_toml(p1@, comps(c1@), comps(c2@)),
{
    if c2.len() == 0 {
        return None;
    }
    if ends_with(p1, PROJECT_FILE_NAME) && c1.len() > 0 && !is_anchor_component(&c1[c1.len() - 1]) {
        let mut d: Vec<PathComponent> = Vec::new();
        let mut i: usize = 0;
        while i < c1.len() - 1
            invariant
                c1.len() > 0,
                i <= c1.len() - 1,
                comps(d@) == comps(c1@).take(i as int),
            decreases c1.len() - 1 - i,
        {
            let c = copy_component(&c1[i]);
            proof {
                lemma_comps_push(d@, c);
                assert(comps(c1@).take(i as int).push(c@) =~= comps(c1@).take(i + 1));
            }
            d.push(c);
            i = i + 1;
        }
        proof {
            assert(comps(d@) =~= comps(c1@).drop_last());
        }
        Some(path_concat(&d, c2))
    } else {
        Some(path_concat(c1, c2))
    }
}

/// Joins the path written `p2` onto the one written `p1`, where a `p1` that names a manifest
/// file stands for the directory that holds it; gives the normal form. `None` when `p2` has no
/// component.
pub fn path_concat_move_toml(p1: &str, p2: &str) -> (r: Option<Vec<PathComponent>>)
    ensures
        r matches Some(v) ==> is_normal_form(comps(v@)),
        plain_path_text(p1@) && plain_path_text(p2@) ==> match r {
            None => spec_split_path(p2@).len() == 0,
            Some(v) => spec_split_path(p2@).len() > 0 && comps(v@) == spec_concat_move_toml(
                p1@,
                spec_split_path(p1@),
                spec_split_path(p2@),
            ),
        },
{
    let c2 = split_path(p2);
    let c1 = split_path(p1);
    let r = path_concat_move_toml_components(p1, &c1, &c2);
    proof {
        if c2@.len() > 0 {
            let d = if text_ends_with(p1@, PROJECT_FILE_NAME@) && has_parent(comps(c1@)) {
                comps(c1@).drop_last()
            } else {
                comps(c1@)
            };
            law_normal_is_normal_form(comps(c2@));
            law_normal_is_normal_form(d + comps(c2@));
        }
        assert(comps(c2@).len() == c2@.len());
    }
    r
}

} // verus!
