use movefmt::line_mapping::{
    FileLineMapping, FileLineMappingOneFile, FileRange, GetPosition, GetPositionStruct,
};
use movefmt::paths::{normal_path, PathComponent};

fn path(names: &[&str]) -> Vec<PathComponent> {
    names.iter().map(|n| PathComponent::Normal(n.to_string())).collect()
}

#[test]
fn file_mapping() {
    let filepath = &path(&["test"]);

    let mut f = FileLineMapping::default();
    f.update(
        filepath,
        r#"123456
123456
abc        "#,
    );

    let r = f.translate(filepath, 0, 2).unwrap();
    assert_eq!(
        r,
        FileRange {
            path: filepath.clone(),
            line_start: 0,
            line_end: 0,
            col_start: 0,
            col_end: 2
        }
    );

    let r = f.translate(filepath, 9, 10).unwrap();
    assert_eq!(
        r,
        FileRange {
            path: filepath.clone(),
            line_start: 1,
            line_end: 1,
            col_start: 2,
            col_end: 3
        }
    );
}

#[test]
fn translate_edges() {
    let mut f = FileLineMapping::new();
    assert_eq!(f.translate(&path(&["a"]), 0, 0), None);
    f.update(&path(&["a"]), "ab\ncd\n");
    // table 0, 3, 6: the end must be before 6
    assert_eq!(f.translate(&path(&["a"]), 0, 6), None);
    let r = f.translate(&path(&["a"]), 4, 1).unwrap();
    assert_eq!((r.line_start, r.col_start, r.line_end, r.col_end), (1, 1, 1, 1));
    let r = f.translate(&path(&["a"]), 1, 5).unwrap();
    assert_eq!((r.line_start, r.col_start, r.line_end, r.col_end), (0, 1, 1, 2));
    f.update(&path(&["a"]), "");
    assert_eq!(f.translate(&path(&["a"]), 0, 0), None);
    f.update(&path(&["b"]), "x");
    let r = f.translate(&path(&["b"]), 0, 0).unwrap();
    assert_eq!((r.line_start, r.col_start), (0, 0));
}

#[test]
fn one_file_mapping_uses_current_dir() {
    let mut f = FileLineMappingOneFile::default();
    assert_eq!(f.translate(0, 0), None);
    f.update("ab\ncd\n");
    let r = f.translate(1, 4).unwrap();
    assert_eq!(r.path, vec![PathComponent::CurDir]);
    assert_eq!((r.line_start, r.col_start, r.line_end, r.col_end), (0, 1, 1, 1));
    let mut m = FileLineMapping::new();
    m.update(&vec![PathComponent::CurDir], "x\ny");
    let g = FileLineMappingOneFile::from(m);
    let r = g.translate(2, 2).unwrap();
    assert_eq!((r.line_start, r.col_start), (1, 0));
}

#[test]
fn position_in_range_bounds() {
    let range = FileRange { path: path(&["f"]), line_start: 2, col_start: 3, line_end: 4, col_end: 5 };
    let at = |p: &str, line: u32, col: u32| GetPositionStruct { fpath: path(&[p]), line, col };
    assert!(GetPositionStruct::in_range(&at("f", 2, 3), &range));
    assert!(GetPositionStruct::in_range(&at("f", 3, 0), &range));
    assert!(GetPositionStruct::in_range(&at("f", 4, 5), &range));
    assert!(!GetPositionStruct::in_range(&at("f", 2, 2), &range));
    assert!(!GetPositionStruct::in_range(&at("f", 4, 6), &range));
    assert!(!GetPositionStruct::in_range(&at("f", 1, 9), &range));
    assert!(!GetPositionStruct::in_range(&at("f", 5, 0), &range));
    assert!(!GetPositionStruct::in_range(&at("g", 3, 0), &range));
    assert_eq!(at("f", 7, 8).get_position(), (path(&["f"]), 7, 8));
}

#[test]
fn paths_are_compared_by_components() {
    let mut f = FileLineMapping::new();
    f.update(&normal_path("a/b/"), "x\ny\n");
    let r = f.translate(&normal_path("a/b"), 2, 2).unwrap();
    assert_eq!(r.path, path(&["a", "b"]));
    assert_eq!((r.line_start, r.col_start), (1, 0));
    assert_eq!(f.translate(&path(&["a"]), 0, 0), None);
    let range = FileRange { path: normal_path("a/./b"), line_start: 0, col_start: 0, line_end: 1, col_end: 0 };
    let at = GetPositionStruct { fpath: normal_path("a/b/"), line: 0, col: 1 };
    assert!(GetPositionStruct::in_range(&at, &range));
}
