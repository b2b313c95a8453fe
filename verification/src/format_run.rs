use vstd::prelude::*;

use crate::config::EmitMode;
use crate::paths::{
    comps, copy_component, copy_components_upto, is_anchor, path_is_absolute, plain_path_text, same_components_upto,
    spec_split_path, split_path, ComponentView, PathComponent, PROJECT_FILE_NAME,
};
use crate::string_fmt::{contains_seq, contains_str, strings_view};
use crate::style::str_eq;
use crate::text::chars_of;

verus! {

/// Whether `n` names one of the directories of a Move package that hold Move files.
pub open spec fn is_package_dir_name(n: Seq<char>) -> bool {
    n == "sources"@ || n == "scripts"@ || n == "tests"@ || n == "examples"@
}

/// The directory whose manifest tells whether the file at `c` belongs to a package: the parent
/// of the nearest ancestor of `c` (`c` itself first) that is named like a package directory;
/// `None` when no ancestor is.
pub open spec fn package_root(c: Seq<ComponentView>) -> Option<Seq<ComponentView>>
    decreases c.len(),
{
    if c.len() == 0 || is_anchor(c.last()) {
        None
    } else {
        match c.last() {
            ComponentView::Normal(n) => if is_package_dir_name(n) {
                Some(c.drop_last())
            } else {
                package_root(c.drop_last())
            },
            _ => package_root(c.drop_last()),
        }
    }
}

fn is_package_dir_name_exec(n: &str) -> (b: bool)
    ensures
        b == is_package_dir_name(n@),
{
    str_eq(n, "sources") || str_eq(n, "scripts") || str_eq(n, "tests") || str_eq(n, "examples")
}

/// The manifest to read to tell whether the file at `file` belongs to a package: `Move.toml` in
/// the directory that `package_root` gives; `None` when there is none.
pub fn package_manifest(file: &Vec<PathComponent>) -> (r: Option<Vec<PathComponent>>)
    ensures
        match package_root(comps(file@)) {
            None => r is None,
            Some(d) => r matches Some(m) && comps(m@) == d.push(
                ComponentView::Normal(PROJECT_FILE_NAME@),
            ),
        },
{
    let ghost c = comps(file@);
    let mut k = file.len();
    proof {
        assert(c.take(k as int) =~= c);
    }
    while k > 0
        invariant
            c == comps(file@),
            k <= file.len(),
            package_root(c.take(k as int)) == package_root(c),
        decreases k,
    {
        proof {
            assert(c.take(k as int).last() == file@[k - 1]@);
            assert(c.take(k as int).drop_last() =~= c.take(k - 1));
        }
        match &file[k - 1] {
            PathComponent::Prefix(_) => {
                return None;
            },
            PathComponent::RootDir => {
                return None;
            },
            PathComponent::Normal(n) => {
                if is_package_dir_name_exec(n.as_str()) {
                    let mut m = copy_components_upto(file, k - 1);
                    let mut name = String::new();
                    name.append(PROJECT_FILE_NAME);
                    let ghost before = m@;
                    m.push(PathComponent::Normal(name));
                    proof {
                        assert(comps(m@) =~= comps(before).push(ComponentView::Normal(PROJECT_FILE_NAME@)));
                    }
                    return Some(m);
                }
            },
            _ => {},
        }
        k = k - 1;
    }
    None
}

/// What reading a package manifest gave.
pub enum ManifestRead {
    /// There is no such file.
    Missing,
    /// The file is there but could not be read.
    Unreadable,
    /// The text of the file.
    Text(String),
}

/// The repository that the manifests of Sui packages depend on.
pub open spec fn sui_repository() -> Seq<char> {
    "https://github.com/MystenLabs/sui.git"@
}

/// Whether a file is left alone as belonging to no package, where packages are looked for
/// (`auto_apply_package`), from what reading its manifest (`package_manifest`) gave: `None`
/// when it has none to read. A manifest that is missing means no package; one that could not be
/// read counts as a package; a Sui package is left alone too.
pub open spec fn spec_escape_not_in_package(auto_apply_package: bool, manifest: Option<ManifestRead>) -> bool {
    if !auto_apply_package {
        false
    } else {
        match manifest {
            None => true,
            Some(ManifestRead::Missing) => true,
            Some(ManifestRead::Unreadable) => false,
            Some(ManifestRead::Text(t)) => contains_seq(t@, sui_repository()),
        }
    }
}

/// Whether a file is left alone as belonging to no package (see `spec_escape_not_in_package`).
pub fn should_escape_not_in_package(auto_apply_package: bool, manifest: &Option<ManifestRead>) -> (b: bool)
    ensures
        b == spec_escape_not_in_package(auto_apply_package, *manifest),
{
    if !auto_apply_package {
        return false;
    }
    match manifest {
        None => true,
        Some(ManifestRead::Missing) => true,
        Some(ManifestRead::Unreadable) => false,
        Some(ManifestRead::Text(t)) => {
            let v = chars_of(t.as_str());
            contains_str(&v, "https://github.com/MystenLabs/sui.git")
        },
    }
}

/// The position of the first `;` in `s` from `i`, or the length of `s`.
pub open spec fn first_semicolon(s: Seq<char>, i: nat) -> nat
    decreases s.len() - i,
{
    if i >= s.len() {
        s.len()
    } else if s[i as int] == ';' {
        i
    } else {
        first_semicolon(s, i + 1)
    }
}

/// The entries of the `;`-separated list `s` that are not empty, in order.
pub open spec fn list_entries(s: Seq<char>) -> Seq<Seq<char>>
    decreases s.len(),
{
    if s.len() == 0 {
        Seq::empty()
    } else {
        let k = first_semicolon(s, 0);
        let rest = if k < s.len() {
            list_entries(s.skip(k + 1 as int))
        } else {
            Seq::empty()
        };
        if k > 0 {
            seq![s.take(k as int)] + rest
        } else {
            rest
        }
    }
}

proof fn lemma_first_semicolon(s: Seq<char>, i: nat, k: nat)
    requires
        i <= k <= s.len(),
        forall|j: int| i <= j < k ==> s[j] != ';',
        k == s.len() || s[k as int] == ';',
    ensures
        first_semicolon(s, i) == k,
    decreases k - i,
{
    if i < k {
        lemma_first_semicolon(s, i + 1, k);
    }
}

/// `list_entries` of `s[j..]`, where `s[j..i]` holds no `;` and `s[i]` is `;` or the end.
proof fn lemma_list_entries_step(s: Seq<char>, j: nat, i: nat)
    requires
        j <= i <= s.len(),
        forall|x: int| j <= x < i ==> s[x] != ';',
        i == s.len() || s[i as int] == ';',
    ensures
        list_entries(s.skip(j as int)) == (if i > j {
            seq![s.subrange(j as int, i as int)]
        } else {
            Seq::empty()
        }) + (if i < s.len() {
            list_entries(s.skip(i + 1 as int))
        } else {
            Seq::empty()
        }),
{
    let t = s.skip(j as int);
    lemma_first_semicolon(t, 0, (i - j) as nat);
    if i < s.len() {
        assert(t.skip(i - j + 1) =~= s.skip(i + 1 as int));
    }
    assert(t.take(i - j) =~= s.subrange(j as int, i as int));
    if t.len() == 0 {
        assert(list_entries(t) =~= Seq::<Seq<char>>::empty());
    }
}

/// The entries of the `;`-separated list `s` that are not empty.
pub fn list_entries_of(s: &str) -> (r: Vec<String>)
    ensures
        strings_view(r@) == list_entries(s@),
{
    let v = chars_of(s);
    let n = v.len();
    let mut r: Vec<String> = Vec::new();
    let mut cur = String::new();
    let mut j: usize = 0;
    let mut i: usize = 0;
    proof {
        assert(s@.skip(0) =~= s@);
        assert(strings_view(r@) =~= Seq::<Seq<char>>::empty());
    }
    while i < n
        invariant
            v@ == s@,
            n == v@.len(),
            j <= i <= n,
            cur@ == s@.subrange(j as int, i as int),
            forall|x: int| j <= x < i ==> s@[x] != ';',
            strings_view(r@) + list_entries(s@.skip(j as int)) == list_entries(s@),
        decreases n - i,
    {
        if v[i] == ';' {
            proof {
                lemma_list_entries_step(s@, j as nat, i as nat);
            }
            if i > j {
                let ghost before = r@;
                r.push(cur);
                proof {
                    assert(strings_view(r@) =~= strings_view(before).push(s@.subrange(j as int, i as int)));
                    assert(strings_view(r@) + list_entries(s@.skip(i + 1)) =~= strings_view(before)
                        + (seq![s@.subrange(j as int, i as int)] + list_entries(s@.skip(i + 1))));
                }
            } else {
                proof {
                    assert(Seq::<Seq<char>>::empty() + list_entries(s@.skip(i + 1)) =~= list_entries(
                        s@.skip(i + 1),
                    ));
                }
            }
            cur = String::new();
            j = i + 1;
            proof {
                assert(s@.subrange(j as int, j as int) =~= Seq::<char>::empty());
            }
        } else {
            let ghost before = cur@;
            crate::text::string_push(&mut cur, v[i]);
            proof {
                assert(cur@ =~= s@.subrange(j as int, i + 1));
            }
        }
        i = i + 1;
    }
    proof {
        lemma_list_entries_step(s@, j as nat, n as nat);
    }
    if n > j {
        let ghost before = r@;
        r.push(cur);
        proof {
            assert(strings_view(r@) =~= strings_view(before).push(s@.subrange(j as int, n as int)));
            assert(strings_view(before) + (seq![s@.subrange(j as int, n as int)] + Seq::<Seq<char>>::empty())
                =~= strings_view(r@));
        }
    } else {
        proof {
            assert(strings_view(r@) + (Seq::<Seq<char>>::empty() + Seq::<Seq<char>>::empty())
                =~= strings_view(r@));
        }
    }
    r
}

/// The path `c2` joined onto the directory `c1` (one with more than a bare prefix), as
/// `PathBuf::join` gives it, taken as components: a prefix in `c2` takes the place of `c1`, a
/// root keeps only the prefix of `c1`, a leading `.` is dropped, and anything else is
/// appended.
pub open spec fn spec_join(c1: Seq<ComponentView>, c2: Seq<ComponentView>) -> Seq<ComponentView> {
    if c2.len() == 0 {
        c1
    } else {
        match c2[0] {
            ComponentView::Prefix(_) => c2,
            ComponentView::RootDir => if c1.len() > 0 && c1[0] is Prefix {
                seq![c1[0]] + c2
            } else {
                c2
            },
            ComponentView::CurDir => c1 + c2.drop_first(),
            _ => c1 + c2,
        }
    }
}

/// Whether the path `p` is the path `c` or one of its ancestors, component by component.
pub open spec fn comps_starts_with(c: Seq<ComponentView>, p: Seq<ComponentView>) -> bool {
    p.len() <= c.len() && c.take(p.len() as int) == p
}

/// The first of the directories `dirs` that holds the path `file` (or is it).
#[verifier::opaque]
pub open spec fn first_holding(file: Seq<ComponentView>, dirs: Seq<Seq<ComponentView>>) -> Option<int> {
    if exists|i: int| 0 <= i < dirs.len() && comps_starts_with(file, #[trigger] dirs[i]) {
        Some(
            choose|i: int|
                0 <= i < dirs.len() && comps_starts_with(file, #[trigger] dirs[i]) && forall|j: int|
                    0 <= j < i ==> !comps_starts_with(file, #[trigger] dirs[j]),
        )
    } else {
        None
    }
}

fn starts_with_components(file: &Vec<PathComponent>, p: &Vec<PathComponent>) -> (b: bool)
    ensures
        b == comps_starts_with(comps(file@), comps(p@)),
{
    if p.len() > file.len() {
        return false;
    }
    same_components_upto(p, file, p.len())
}

/// The directories as values.
pub open spec fn dirs_view(dirs: Seq<Vec<PathComponent>>) -> Seq<Seq<ComponentView>> {
    Seq::new(dirs.len(), |i: int| comps(dirs[i]@))
}

/// The position of the first of the directories `dirs` that holds the path `file`.
pub fn first_dir_holding(file: &Vec<PathComponent>, dirs: &Vec<Vec<PathComponent>>) -> (r: Option<usize>)
    ensures
        match first_holding(comps(file@), dirs_view(dirs@)) {
            None => r is None,
            Some(i) => r matches Some(k) && k as int == i,
        },
        r matches Some(k) ==> k < dirs@.len() && comps_starts_with(comps(file@), comps(dirs@[k as int]@)),
{
    let ghost d = dirs_view(dirs@);
    let mut i: usize = 0;
    while i < dirs.len()
        invariant
            d == dirs_view(dirs@),
            i <= dirs.len(),
            forall|j: int| 0 <= j < i ==> !comps_starts_with(comps(file@), #[trigger] d[j]),
        decreases dirs.len() - i,
    {
        if starts_with_components(file, &dirs[i]) {
            proof {
                reveal(first_holding);
                assert(comps_starts_with(comps(file@), d[i as int]));
                let c = choose|c: int|
                    0 <= c < d.len() && comps_starts_with(comps(file@), #[trigger] d[c]) && forall|j: int|
                        0 <= j < c ==> !comps_starts_with(comps(file@), #[trigger] d[j]);
                assert(0 <= c < d.len() && comps_starts_with(comps(file@), d[c]) && forall|j: int|
                    0 <= j < c ==> !comps_starts_with(comps(file@), #[trigger] d[j]));
                if c < i {
                    assert(!comps_starts_with(comps(file@), d[c]));
                } else if c > i {
                    assert(!comps_starts_with(comps(file@), d[i as int]));
                }
            }
            return Some(i);
        }
        i = i + 1;
    }
    proof {
        reveal(first_holding);
    }
    None
}

/// The components of `c1` and then of `c2`.
fn append_components(c1: &Vec<PathComponent>, c2: &Vec<PathComponent>, from: usize) -> (r: Vec<PathComponent>)
    requires
        from <= c2.len(),
    ensures
        comps(r@) == comps(c1@) + comps(c2@).skip(from as int),
{
    let mut r = copy_components_upto(c1, c1.len());
    let mut i = from;
    proof {
        assert(comps(c1@).take(c1@.len() as int) =~= comps(c1@));
        assert(comps(c2@).skip(from as int).take(0) =~= Seq::<ComponentView>::empty());
        assert(comps(r@) =~= comps(c1@) + comps(c2@).skip(from as int).take(0));
    }
    while i < c2.len()
        invariant
            from <= i <= c2.len(),
            comps(r@) == comps(c1@) + comps(c2@).skip(from as int).take(i - from),
        decreases c2.len() - i,
    {
        let ghost before = r@;
        let c = copy_component(&c2[i]);
        r.push(c);
        proof {
            assert(comps(r@) =~= comps(before).push(c@));
            assert(comps(c2@).skip(from as int).take(i + 1 - from) =~= comps(c2@).skip(from as int).take(
                i - from,
            ).push(comps(c2@)[i as int]));
        }
        i = i + 1;
    }
    proof {
        assert(comps(c2@).skip(from as int).take(c2@.len() - from) =~= comps(c2@).skip(from as int));
    }
    r
}

/// The path `c2` joined onto the directory `c1` (see `spec_join`).
fn join_components(c1: &Vec<PathComponent>, c2: &Vec<PathComponent>) -> (r: Vec<PathComponent>)
    ensures
        comps(r@) == spec_join(comps(c1@), comps(c2@)),
{
    if c2.len() == 0 {
        let r = copy_components_upto(c1, c1.len());
        assert(comps(c1@).take(c1@.len() as int) =~= comps(c1@));
        return r;
    }
    match &c2[0] {
        PathComponent::Prefix(_) => {
            let r = copy_components_upto(c2, c2.len());
            assert(comps(c2@).take(c2@.len() as int) =~= comps(c2@));
            r
        },
        PathComponent::RootDir => {
            if c1.len() > 0 && matches!(c1[0], PathComponent::Prefix(_)) {
                let head = copy_components_upto(c1, 1);
                let r = append_components(&head, c2, 0);
                proof {
                    assert(comps(head@) =~= seq![comps(c1@)[0]]);
                    assert(comps(c2@).skip(0) =~= comps(c2@));
                }
                r
            } else {
                let r = copy_components_upto(c2, c2.len());
                assert(comps(c2@).take(c2@.len() as int) =~= comps(c2@));
                r
            }
        },
        PathComponent::CurDir => {
            let r = append_components(c1, c2, 1);
            assert(comps(c2@).skip(1) =~= comps(c2@).drop_first());
            r
        },
        _ => {
            let r = append_components(c1, c2, 0);
            assert(comps(c2@).skip(0) =~= comps(c2@));
            r
        },
    }
}

/// The directory that the entry `e` of the skipped directories stands for, for a text that
/// splits the same way on every platform and is relative: `e` joined onto the current
/// directory `cwd` when there is one.
pub open spec fn skip_dir_of(e: Seq<char>, cwd: Option<Seq<ComponentView>>) -> Seq<ComponentView> {
    match cwd {
        Some(d) => spec_join(d, spec_split_path(e)),
        None => spec_split_path(e),
    }
}

/// Whether an entry of the skipped directories is a text that splits the same way on every
/// platform and is relative.
pub open spec fn plain_relative(e: Seq<char>) -> bool {
    plain_path_text(e) && !(e.len() > 0 && e[0] == '/')
}

/// The components of the directory `cwd`, if there is one.
pub open spec fn opt_comps(cwd: Option<Vec<PathComponent>>) -> Option<Seq<ComponentView>> {
    match cwd {
        Some(d) => Some(comps(d@)),
        None => None,
    }
}

/// The directories that the entries stand for: each relative one joined onto `cwd` when there is
/// one.
fn skip_dirs_of(entries: &Vec<String>, cwd: &Option<Vec<PathComponent>>) -> (dirs: Vec<Vec<PathComponent>>)
    ensures
        dirs@.len() == entries@.len(),
        forall|j: int|
            0 <= j < entries@.len() && plain_relative(entries@[j]@) ==> #[trigger] comps(dirs@[j]@)
                == skip_dir_of(entries@[j]@, opt_comps(*cwd)),
{
    let mut dirs: Vec<Vec<PathComponent>> = Vec::new();
    let mut i: usize = 0;
    while i < entries.len()
        invariant
            i <= entries.len(),
            dirs@.len() == i,
            forall|j: int|
                0 <= j < i && plain_relative(entries@[j]@) ==> #[trigger] comps(dirs@[j]@) == skip_dir_of(
                    entries@[j]@,
                    opt_comps(*cwd),
                ),
        decreases entries.len() - i,
    {
        let e = entries[i].as_str();
        let c = split_path(e);
        let absolute = path_is_absolute(e);
        let p = match cwd {
            Some(d) => {
                if !absolute {
                    join_components(d, &c)
                } else {
                    c
                }
            },
            None => c,
        };
        dirs.push(p);
        i = i + 1;
    }
    dirs
}

/// Whether every entry is a relative text that splits the same way on every platform.
pub open spec fn all_plain_relative(es: Seq<Seq<char>>) -> bool {
    forall|i: int| 0 <= i < es.len() ==> plain_relative(#[trigger] es[i])
}

/// The directories that the entries `es` stand for (see `skip_dir_of`).
pub open spec fn skip_dirs_spec(es: Seq<Seq<char>>, cwd: Option<Seq<ComponentView>>) -> Seq<Seq<ComponentView>> {
    Seq::new(es.len(), |i: int| skip_dir_of(es[i], cwd))
}

proof fn lemma_skip_dirs(
    entries: Seq<String>,
    es: Seq<Seq<char>>,
    dirs: Seq<Vec<PathComponent>>,
    cwd: Option<Seq<ComponentView>>,
)
    requires
        strings_view(entries) == es,
        dirs.len() == entries.len(),
        forall|j: int|
            0 <= j < entries.len() && plain_relative(entries[j]@) ==> #[trigger] comps(dirs[j]@)
                == skip_dir_of(entries[j]@, cwd),
    ensures
        all_plain_relative(es) ==> dirs_view(dirs) == skip_dirs_spec(es, cwd),
{
    if all_plain_relative(es) {
        let want = skip_dirs_spec(es, cwd);
        assert forall|j: int| 0 <= j < es.len() implies #[trigger] dirs_view(dirs)[j] == want[j] by {
            assert(strings_view(entries)[j] == entries[j]@);
            assert(plain_relative(es[j]));
        }
        assert(dirs_view(dirs) =~= want);
    }
}

/// The directory among those that the configuration skips (the `;`-separated list
/// `skip_formatting_dirs`, each relative one taken in the current directory `cwd` when there is
/// one) that holds the file `file`; always `None` when no configuration file was found. The
/// first such directory is given; where every entry is a relative text that splits the same way
/// on every platform, which one it is is stated exactly. Whether another entry is absolute, and
/// how it splits, depends on the platform.
pub fn should_escape(
    file: &Vec<PathComponent>,
    skip_formatting_dirs: &str,
    cwd: &Option<Vec<PathComponent>>,
    has_config_path: bool,
) -> (r: Option<Vec<PathComponent>>)
    ensures
        !has_config_path ==> r is None,
        r matches Some(p) ==> comps_starts_with(comps(file@), comps(p@)),
        has_config_path && all_plain_relative(list_entries(skip_formatting_dirs@)) ==> match first_holding(
            comps(file@),
            skip_dirs_spec(list_entries(skip_formatting_dirs@), opt_comps(*cwd)),
        ) {
            None => r is None,
            Some(i) => r matches Some(p) && comps(p@) == skip_dirs_spec(
                list_entries(skip_formatting_dirs@),
                opt_comps(*cwd),
            )[i],
        },
{
    if !has_config_path {
        return None;
    }
    let entries = list_entries_of(skip_formatting_dirs);
    let dirs = skip_dirs_of(&entries, cwd);
    proof {
        lemma_skip_dirs(entries@, list_entries(skip_formatting_dirs@), dirs@, opt_comps(*cwd));
    }
    match first_dir_holding(file, &dirs) {
        None => None,
        Some(k) => {
            let r = copy_components_upto(&dirs[k], dirs[k].len());
            proof {
                assert(comps(dirs@[k as int]@).take(dirs@[k as int]@.len() as int) =~= comps(dirs@[k as int]@));
                assert(dirs_view(dirs@)[k as int] == comps(dirs@[k as int]@));
            }
            Some(r)
        },
    }
}

/// What the formatting of the listed files has come to so far.
#[derive(Clone, Copy, Debug, PartialEq, Eq, Structural)]
pub struct FormatRun {
    /// Files formatted.
    pub success_cnt: u64,
    /// Files left alone because a directory that the configuration skips holds them.
    pub skips_cnt_expected: u64,
    /// Files left alone because they belong to no package.
    pub skips_cnt_not_belong_to_any_package: u64,
    /// Whether a file could not be formatted, which ends the run with an error.
    pub failed: bool,
}

impl FormatRun {
    /// A run before its first file.
    pub fn new() -> (r: FormatRun)
        ensures
            r == (FormatRun {
                success_cnt: 0,
                skips_cnt_expected: 0,
                skips_cnt_not_belong_to_any_package: 0,
                failed: false,
            }),
    {
        FormatRun { success_cnt: 0, skips_cnt_expected: 0, skips_cnt_not_belong_to_any_package: 0, failed: false }
    }
}

/// What became known of the file at hand.
#[derive(Clone, Copy, Debug, PartialEq, Eq, Structural)]
pub enum FileEvent {
    /// There is no such file.
    Missing,
    /// It is a directory.
    Directory,
    /// It is a file: whether it was named on the command line, whether it belongs to no package
    /// (`should_escape_not_in_package`), and whether a directory that the configuration skips
    /// holds it (`should_escape`).
    Found { is_specified_file: bool, not_in_package: bool, escaped_by_config: bool },
    /// Its text was formatted (`ok`) or could not be; the emit mode given on the command line, if
    /// any, that of the configuration, and whether the formatted text differs from the text.
    Formatted { ok: bool, option_emit: Option<EmitMode>, config_emit: EmitMode, changed: bool },
}

/// What to do about the file at hand.
#[derive(Clone, Copy, Debug, PartialEq, Eq, Structural)]
pub enum FormatAction {
    /// Report that the file does not exist, and go on with the next one.
    ReportMissing,
    /// Report that the file is a directory, and go on with the next one.
    ReportDirectory,
    /// Leave the file alone: it belongs to no package.
    SkipNotInPackage,
    /// Leave the file alone: the configuration skips it.
    SkipByConfig,
    /// Read the file and format its text.
    Format,
    /// Write the formatted text to a new file beside it.
    WriteNewFile,
    /// Write the formatted text over the file.
    Overwrite,
    /// Print the formatted text.
    PrintFormatted,
    /// Print how the formatted text differs from the text.
    PrintDiff,
    /// Nothing to print: the text is formatted already.
    Unchanged,
    /// Report that the text could not be formatted, and end the run with an error.
    Fail,
    /// Nothing: the run has ended.
    Stopped,
}

/// The emit mode for a file: the one given on the command line, else the configuration's.
pub open spec fn chosen_emit(option_emit: Option<EmitMode>, config_emit: EmitMode) -> EmitMode {
    match option_emit {
        Some(m) => m,
        None => config_emit,
    }
}

/// The decision for the file at hand: a file that does not exist or is a directory is reported
/// and passed over; one not named on the command line is left alone when it belongs to no
/// package, then when the configuration skips it; any other is formatted. A formatted text is
/// emitted as the emit mode says (in `Diff` mode only when it changed) and counted; a text that
/// cannot be formatted ends the run, after which nothing more is done.
pub open spec fn spec_format_step(st: FormatRun, ev: FileEvent) -> (FormatRun, FormatAction) {
    if st.failed {
        (st, FormatAction::Stopped)
    } else {
        match ev {
            FileEvent::Missing => (st, FormatAction::ReportMissing),
            FileEvent::Directory => (st, FormatAction::ReportDirectory),
            FileEvent::Found { is_specified_file, not_in_package, escaped_by_config } => {
                if !is_specified_file && not_in_package {
                    (
                        FormatRun {
                            skips_cnt_not_belong_to_any_package: (st.skips_cnt_not_belong_to_any_package
                                + 1) as u64,
                            ..st
                        },
                        FormatAction::SkipNotInPackage,
                    )
                } else if !is_specified_file && escaped_by_config {
                    (
                        FormatRun { skips_cnt_expected: (st.skips_cnt_expected + 1) as u64, ..st },
                        FormatAction::SkipByConfig,
                    )
                } else {
                    (st, FormatAction::Format)
                }
            },
            FileEvent::Formatted { ok, option_emit, config_emit, changed } => {
                if !ok {
                    (FormatRun { failed: true, ..st }, FormatAction::Fail)
                } else {
                    let action = match chosen_emit(option_emit, config_emit) {
                        EmitMode::NewFile => FormatAction::WriteNewFile,
                        EmitMode::Overwrite => FormatAction::Overwrite,
                        EmitMode::Stdout => FormatAction::PrintFormatted,
                        EmitMode::Diff => if changed {
                            FormatAction::PrintDiff
                        } else {
                            FormatAction::Unchanged
                        },
                    };
                    (FormatRun { success_cnt: (st.success_cnt + 1) as u64, ..st }, action)
                }
            },
        }
    }
}

/// Whether none of the counters of `st` is at its limit.
pub open spec fn counters_below_limit(st: FormatRun) -> bool {
    &&& st.success_cnt < u64::MAX
    &&& st.skips_cnt_expected < u64::MAX
    &&& st.skips_cnt_not_belong_to_any_package < u64::MAX
}

/// The decision for the file at hand, and the run after it (see `spec_format_step`).
pub fn format_step(state: &FormatRun, event: FileEvent) -> (r: (FormatRun, FormatAction))
    requires
        counters_below_limit(*state),
    ensures
        r == spec_format_step(*state, event),
{
    let st = *state;
    if st.failed {
        return (st, FormatAction::Stopped);
    }
    match event {
        FileEvent::Missing => (st, FormatAction::ReportMissing),
        FileEvent::Directory => (st, FormatAction::ReportDirectory),
        FileEvent::Found { is_specified_file, not_in_package, escaped_by_config } => {
            if !is_specified_file && not_in_package {
                (
                    FormatRun {
                        skips_cnt_not_belong_to_any_package: st.skips_cnt_not_belong_to_any_package + 1,
                        ..st
                    },
                    FormatAction::SkipNotInPackage,
                )
            } else if !is_specified_file && escaped_by_config {
                (FormatRun { skips_cnt_expected: st.skips_cnt_expected + 1, ..st }, FormatAction::SkipByConfig)
            } else {
                (st, FormatAction::Format)
            }
        },
        FileEvent::Formatted { ok, option_emit, config_emit, changed } => {
            if !ok {
                return (FormatRun { failed: true, ..st }, FormatAction::Fail);
            }
            let mode = match option_emit {
                Some(m) => m,
                None => config_emit,
            };
            let action = match mode {
                EmitMode::NewFile => FormatAction::WriteNewFile,
                EmitMode::Overwrite => FormatAction::Overwrite,
                EmitMode::Stdout => FormatAction::PrintFormatted,
                EmitMode::Diff => if changed {
                    FormatAction::PrintDiff
                } else {
                    FormatAction::Unchanged
                },
            };
            (FormatRun { success_cnt: st.success_cnt + 1, ..st }, action)
        },
    }
}

/// A run that ended stays ended: after a file could not be formatted, every further step does
/// nothing and leaves the run as it is.
pub proof fn law_failed_run_stays_stopped(st: FormatRun, ev: FileEvent)
    requires
        st.failed,
    ensures
        spec_format_step(st, ev) == (st, FormatAction::Stopped),
{
}

/// Each step counts at most one file, in the counter of what it decided, and never fails a run
/// but on a text that could not be formatted.
pub proof fn law_step_counts_one(st: FormatRun, ev: FileEvent)
    requires
        !st.failed,
        counters_below_limit(st),
    ensures
        ({
            let (n, a) = spec_format_step(st, ev);
            &&& n.success_cnt == st.success_cnt + (if a is WriteNewFile || a is Overwrite || a is PrintFormatted
                || a is PrintDiff || a is Unchanged {
                1int
            } else {
                0int
            })
            &&& n.skips_cnt_expected == st.skips_cnt_expected + (if a is SkipByConfig {
                1int
            } else {
                0int
            })
            &&& n.skips_cnt_not_belong_to_any_package == st.skips_cnt_not_belong_to_any_package + (
            if a is SkipNotInPackage {
                1int
            } else {
                0int
            })
            &&& n.failed <==> a is Fail
            &&& (a is Fail <==> (ev is Formatted && !ev->ok))
        }),
{
}

} // verus!
