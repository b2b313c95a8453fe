use movefmt::paths::{
    is_sub_dir, manifest_candidates, normal_path, normal_path_components, path_concat,
    path_concat_move_toml, path_concat_move_toml_components, PathComponent, SourcePackageLayout,
};

fn name(s: &str) -> PathComponent {
    PathComponent::Normal(s.to_string())
}

fn abs(names: &[&str]) -> Vec<PathComponent> {
    let mut v = vec![PathComponent::RootDir];
    for n in names {
        v.push(name(n));
    }
    v
}

fn rel(names: &[&str]) -> Vec<PathComponent> {
    names.iter().map(|n| name(n)).collect()
}

#[test]
fn normal_form_resolves_parent_and_current() {
    let x = vec![
        PathComponent::RootDir,
        name("a"),
        PathComponent::CurDir,
        name("b"),
        PathComponent::ParentDir,
        name("c"),
    ];
    assert_eq!(normal_path_components(&x), abs(&["a", "c"]));
}

#[test]
fn normal_form_of_nothing_is_current_dir() {
    assert_eq!(normal_path_components(&vec![]), vec![PathComponent::CurDir]);
    let x = vec![name("a"), PathComponent::ParentDir];
    assert_eq!(normal_path_components(&x), vec![PathComponent::CurDir]);
}

#[test]
fn parent_of_root_stays_root() {
    let x = vec![PathComponent::RootDir, PathComponent::ParentDir, name("x")];
    assert_eq!(normal_path_components(&x), abs(&["x"]));
}

#[test]
fn root_keeps_prefix() {
    let x = vec![PathComponent::Prefix("C:".to_string()), name("a"), PathComponent::RootDir, name("b")];
    assert_eq!(
        normal_path_components(&x),
        vec![PathComponent::Prefix("C:".to_string()), PathComponent::RootDir, name("b")]
    );
}

#[test]
fn concat_relative_and_absolute() {
    let base = abs(&["home", "user"]);
    assert_eq!(path_concat(&base, &rel(&["proj", "src"])), abs(&["home", "user", "proj", "src"]));
    let up = vec![PathComponent::ParentDir, name("other")];
    assert_eq!(path_concat(&base, &up), abs(&["home", "other"]));
    assert_eq!(path_concat(&base, &abs(&["etc"])), abs(&["etc"]));
    let here = vec![PathComponent::CurDir, name("a")];
    assert_eq!(path_concat(&base, &here), abs(&["home", "user", "a"]));
}

#[test]
fn concat_move_toml_uses_its_directory() {
    let manifest = abs(&["p", "Move.toml"]);
    assert_eq!(
        path_concat_move_toml_components("/p/Move.toml", &manifest, &rel(&["sources"])),
        Some(abs(&["p", "sources"]))
    );
    let dir = abs(&["p", "q"]);
    assert_eq!(
        path_concat_move_toml_components("/p/q", &dir, &rel(&["sources"])),
        Some(abs(&["p", "q", "sources"]))
    );
    assert_eq!(path_concat_move_toml_components("/p/q", &dir, &vec![]), None);
}

#[test]
fn concat_move_toml_on_text() {
    assert_eq!(path_concat_move_toml("/p/Move.toml", "sources/a.move"), Some(abs(&["p", "sources", "a.move"])));
    assert_eq!(path_concat_move_toml("/p/q", "../r"), Some(abs(&["p", "r"])));
    assert_eq!(path_concat_move_toml("/p", ""), None);
}

#[test]
fn normal_path_of_text() {
    assert_eq!(normal_path("/a/./b/../c/"), abs(&["a", "c"]));
    assert_eq!(normal_path(""), vec![PathComponent::CurDir]);
    assert_eq!(normal_path("./x"), rel(&["x"]));
}

#[test]
fn sub_dir_of_parents() {
    let sub = abs(&["a", "b", "c"]);
    assert!(is_sub_dir(&abs(&["a", "b"]), &sub));
    assert!(is_sub_dir(&abs(&["a"]), &sub));
    assert!(is_sub_dir(&abs(&[]), &sub));
    assert!(!is_sub_dir(&sub, &sub));
    assert!(!is_sub_dir(&abs(&["a", "x"]), &sub));
    assert!(!is_sub_dir(&rel(&["a"]), &sub));
    assert!(!is_sub_dir(&vec![], &abs(&[])));
    assert!(is_sub_dir(&vec![], &rel(&["a"])));
}

#[test]
fn manifest_candidates_nearest_first() {
    let file = abs(&["Users", "yuyang", "projects", "test-move2", "sources", "tests", "some.move"]);
    let c = manifest_candidates(&file);
    assert_eq!(c.len(), 2);
    assert_eq!(c[0].0, abs(&["Users", "yuyang", "projects", "test-move2", "sources"]));
    assert_eq!(c[0].1, SourcePackageLayout::Tests);
    assert_eq!(c[1].0, abs(&["Users", "yuyang", "projects", "test-move2"]));
    assert_eq!(c[1].1, SourcePackageLayout::Sources);

    let script = abs(&["Users", "yuyang", "projects", "test-move2", "scripts", "aaa.move"]);
    let c = manifest_candidates(&script);
    assert_eq!(c.len(), 1);
    assert_eq!(c[0].1, SourcePackageLayout::Scripts);

    // the file's own name is never a layout directory
    assert!(manifest_candidates(&abs(&["x", "tests"])).is_empty());
    assert!(manifest_candidates(&vec![]).is_empty());
}

#[test]
fn plain_texts_split_by_slashes() {
    assert_eq!(normal_path("a//b/./c/"), rel(&["a", "b", "c"]));
    // a leading `..` has no parent to step to
    assert_eq!(normal_path("../x"), rel(&["x"]));
    assert_eq!(normal_path("/.."), abs(&[]));
    assert_eq!(normal_path("."), vec![PathComponent::CurDir]);
    assert_eq!(path_concat_move_toml("a/b/Move.toml", "./s"), Some(rel(&["a", "b", "s"])));
}
