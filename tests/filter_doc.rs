use vsprojm::{basic_filter_text, create_basic_filter_file, FilterFile, ProjectError};

const FILTERS: &str = "<?xml version=\"1.0\" encoding=\"utf-8\"?>
<Project ToolsVersion=\"4.0\">
  <ItemGroup>
    <Filter Include=\"Source Files\">
      <UniqueIdentifier>{11111111-1111-1111-1111-111111111111}</UniqueIdentifier>
    </Filter>
    <Filter Include=\"Header Files\">
      <UniqueIdentifier>{22222222-2222-2222-2222-222222222222}</UniqueIdentifier>
    </Filter>
    <Filter Include=\"Old\">
      <UniqueIdentifier>{33333333-3333-3333-3333-333333333333}</UniqueIdentifier>
    </Filter>
  </ItemGroup>
  <ItemGroup>
    <ClCompile Include=\"main.cpp\">
      <Filter>Source Files</Filter>
    </ClCompile>
    <ClCompile Include=\"a.cpp\">
      <Filter>Old</Filter>
    </ClCompile>
    <ClCompile Include=\"b.cpp\">
      <Filter>Old</Filter>
    </ClCompile>
    <ClCompile Include=\"inc\\h.cpp\">
      <Filter>Header Files</Filter>
    </ClCompile>
  </ItemGroup>
</Project>
";

fn doc() -> FilterFile {
    FilterFile::new("p.vcxproj.filters".to_string(), FILTERS.to_string())
}

fn s(v: &[&str]) -> Vec<String> {
    v.iter().map(|x| x.to_string()).collect()
}

fn files_of(d: &FilterFile, node: &str) -> Option<Vec<String>> {
    d.get_all_filters().into_iter().find(|(n, _)| n == node).map(|(_, f)| f)
}

#[test]
fn filter_document_round_trip() {
    let d = doc();
    assert_eq!(d.content, FILTERS);
    let mut d = doc();
    let (files, nodes) = d.delete_files_and_filters("zzz.cpp", None);
    assert!(files.is_empty() && nodes.is_empty());
    assert_eq!(d.content, FILTERS);
}

#[test]
fn maps_files_to_nodes() {
    let pairs = doc().get_file_filters();
    assert_eq!(
        pairs,
        vec![
            ("main.cpp".to_string(), "Source Files".to_string()),
            ("a.cpp".to_string(), "Old".to_string()),
            ("b.cpp".to_string(), "Old".to_string()),
            ("inc\\h.cpp".to_string(), "Header Files".to_string()),
        ]
    );
}

#[test]
fn maps_nodes_to_files_with_empty_nodes() {
    let text = FILTERS.replace(
        "  </ItemGroup>\n  <ItemGroup>",
        "    <Filter Include=\"Empty\">\n    </Filter>\n  </ItemGroup>\n  <ItemGroup>",
    );
    let d = FilterFile::new("p".to_string(), text);
    let all = d.get_all_filters();
    assert_eq!(
        all,
        vec![
            ("Source Files".to_string(), s(&["main.cpp"])),
            ("Header Files".to_string(), s(&["inc\\h.cpp"])),
            ("Old".to_string(), s(&["a.cpp", "b.cpp"])),
            ("Empty".to_string(), vec![]),
        ]
    );
}

#[test]
fn delete_node_cascades_to_its_file() {
    let mut d = doc();
    let (files, nodes) = d.delete_files_and_filters("Header Files", None);
    assert_eq!(files, s(&["inc\\h.cpp"]));
    assert_eq!(nodes, s(&["Header Files"]));
    assert!(!d.content.contains("Header Files"));
    assert!(!d.content.contains("h.cpp"));
    assert!(d.content.contains("<Filter Include=\"Old\">"));
}

#[test]
fn delete_by_extension_cleans_emptied_nodes_then_finds_nothing() {
    let mut d = doc();
    let (files, nodes) = d.delete_files_and_filters("", Some("cpp"));
    assert_eq!(files, s(&["main.cpp", "a.cpp", "b.cpp", "inc\\h.cpp"]));
    assert_eq!(nodes, s(&["Source Files", "Header Files", "Old"]));
    assert!(!d.content.contains("<Filter Include="));
    let (again, again_nodes) = d.delete_files_and_filters("", Some("cpp"));
    assert!(again.is_empty());
    assert!(again_nodes.is_empty());
}

#[test]
fn delete_keeps_node_with_remaining_files() {
    let mut d = doc();
    let (files, nodes) = d.delete_files_and_filters("a.cpp", None);
    assert_eq!(files, s(&["a.cpp"]));
    assert!(nodes.is_empty());
    assert_eq!(files_of(&d, "Old"), Some(s(&["b.cpp"])));
}

#[test]
fn delete_leaves_nodes_that_were_empty() {
    let text = FILTERS.replace(
        "  </ItemGroup>\n  <ItemGroup>",
        "    <Filter Include=\"Empty\">\n    </Filter>\n  </ItemGroup>\n  <ItemGroup>",
    );
    let mut d = FilterFile::new("p".to_string(), text);
    let (_, nodes) = d.delete_files_and_filters("b.cpp", None);
    assert!(nodes.is_empty());
    let (_, nodes) = d.delete_files_and_filters("a.cpp", None);
    assert_eq!(nodes, s(&["Old"]));
    assert!(d.content.contains("<Filter Include=\"Empty\">"));
}

#[test]
fn parent_survives_while_child_has_files() {
    let text = "<Project>\n  <ItemGroup>\n    <Filter Include=\"src\">\n    </Filter>\n    <Filter Include=\"src\\util\">\n    </Filter>\n  </ItemGroup>\n  <ItemGroup>\n    <ClCompile Include=\"src\\a.cpp\">\n      <Filter>src</Filter>\n    </ClCompile>\n    <ClCompile Include=\"src\\util\\b.cpp\">\n      <Filter>src\\util</Filter>\n    </ClCompile>\n  </ItemGroup>\n</Project>\n";
    let mut d = FilterFile::new("p".to_string(), text.to_string());
    let (files, nodes) = d.delete_files_and_filters("src\\a.cpp", None);
    assert_eq!(files, s(&["src\\a.cpp"]));
    assert!(nodes.is_empty());
    let (files, nodes) = d.delete_files_and_filters("src\\util\\b.cpp", None);
    assert_eq!(files, s(&["src\\util\\b.cpp"]));
    // `src` had no files before this delete, so it stays.
    assert_eq!(nodes, s(&["src\\util"]));
    assert!(d.content.contains("<Filter Include=\"src\">"));
}

#[test]
fn emptied_parent_and_child_go_together() {
    let text = "<Project>\n  <ItemGroup>\n    <Filter Include=\"src\">\n    </Filter>\n    <Filter Include=\"src\\util\">\n    </Filter>\n  </ItemGroup>\n  <ItemGroup>\n    <ClCompile Include=\"src\\a.cpp\">\n      <Filter>src</Filter>\n    </ClCompile>\n    <ClCompile Include=\"src\\util\\b.cpp\">\n      <Filter>src\\util</Filter>\n    </ClCompile>\n  </ItemGroup>\n</Project>\n";
    let mut d = FilterFile::new("p".to_string(), text.to_string());
    let (files, nodes) = d.delete_files_and_filters("src\\", None);
    assert_eq!(files, s(&["src\\a.cpp", "src\\util\\b.cpp"]));
    assert_eq!(nodes, s(&["src", "src\\util"]));
}

#[test]
fn preview_matches_commit_on_filters() {
    let d = doc();
    let preview = d.preview_delete_files_and_filters("Old", None);
    assert_eq!(d.content, FILTERS);
    let mut c = doc();
    let commit = c.delete_files_and_filters("Old", None);
    assert_eq!(preview, commit);
    assert_eq!(commit, (s(&["a.cpp", "b.cpp"]), s(&["Old"])));
}

#[test]
fn rename_to_new_name() {
    let mut d = doc();
    let r = d.rename_filter("Old", "New").unwrap();
    assert_eq!(r, (false, s(&["a.cpp", "b.cpp"])));
    assert!(d.content.contains("<Filter Include=\"New\">"));
    assert!(!d.content.contains("Old"));
    assert_eq!(files_of(&d, "New"), Some(s(&["a.cpp", "b.cpp"])));
    assert_eq!(files_of(&d, "Old"), None);
}

#[test]
fn rename_onto_existing_then_merge() {
    let mut d = doc();
    let r = d.rename_filter("Old", "Source Files").unwrap();
    assert_eq!(r, (true, s(&["a.cpp", "b.cpp"])));
    assert_eq!(d.content, FILTERS);
    let moved = d.merge_filters("Old", "Source Files");
    assert_eq!(moved, s(&["a.cpp", "b.cpp"]));
    assert!(!d.content.contains("Filter Include=\"Old\""));
    assert_eq!(d.content.matches("<Filter Include=\"Source Files\">").count(), 1);
    assert_eq!(files_of(&d, "Source Files"), Some(s(&["main.cpp", "a.cpp", "b.cpp"])));
}

#[test]
fn rename_missing_node_fails() {
    let mut d = doc();
    match d.rename_filter("Nope", "X") {
        Err(ProjectError::NotFound { name }) => assert_eq!(name, "Nope"),
        _ => panic!("expected NotFound"),
    }
    assert_eq!(d.content, FILTERS);
}

#[test]
fn merge_into_itself_changes_nothing() {
    let mut d = doc();
    assert!(d.merge_filters("Old", "Old").is_empty());
    assert_eq!(d.content, FILTERS);
}

const EMPTY: &str = "<?xml version=\"1.0\" encoding=\"utf-8\"?>\n<Project ToolsVersion=\"4.0\">\n</Project>\n";

#[test]
fn add_creates_nodes_and_assignments() {
    let mut d = FilterFile::new("p".to_string(), EMPTY.to_string());
    let files = s(&["src/a.cpp", "src/util/b.cpp"]);
    assert_eq!(d.nodes_to_declare(&files, &files), s(&["src", "src\\util"]));
    d.add_source_files_with_hierarchy(&files, &files);
    let all = d.get_all_filters();
    assert_eq!(
        all,
        vec![
            ("src".to_string(), s(&["src\\a.cpp"])),
            ("src\\util".to_string(), s(&["src\\util\\b.cpp"])),
        ]
    );
    for line in d.content.lines().filter(|l| l.contains("<UniqueIdentifier>")) {
        let id = line.trim().trim_start_matches("<UniqueIdentifier>{").trim_end_matches("}</UniqueIdentifier>");
        assert_eq!(id.len(), 36);
        assert!(id.chars().all(|c| c == '-' || c.is_ascii_digit() || ('A'..='F').contains(&c)));
    }
    let again = d.nodes_to_declare(&files, &files);
    assert!(again.is_empty());
}

#[test]
fn add_with_given_ids_writes_exact_text() {
    let mut d = FilterFile::new("p".to_string(), EMPTY.to_string());
    let project = s(&["../x/top.c", "../x/sub/in.cpp"]);
    let scan = s(&["top.c", "sub/in.cpp"]);
    d.add_source_files_with_ids(&project, &scan, &s(&["ID-1"]));
    assert_eq!(
        d.content,
        "<?xml version=\"1.0\" encoding=\"utf-8\"?>\n<Project ToolsVersion=\"4.0\">\n  <ItemGroup>\n    <Filter Include=\"sub\">\n      <UniqueIdentifier>{ID-1}</UniqueIdentifier>\n    </Filter>\n  </ItemGroup>\n  <ItemGroup>\n    <ClCompile Include=\"..\\x\\top.c\" />\n    <ClCompile Include=\"..\\x\\sub\\in.cpp\">\n      <Filter>sub</Filter>\n    </ClCompile>\n  </ItemGroup>\n</Project>\n"
    );
}

#[test]
fn add_reuses_declared_nodes() {
    let mut d = doc();
    let files = s(&["Old/c.cpp"]);
    assert!(d.nodes_to_declare(&files, &files).is_empty());
    d.add_source_files_with_ids(&files, &files, &vec![]);
    assert_eq!(d.content.matches("<Filter Include=\"Old\">").count(), 1);
    assert_eq!(files_of(&d, "Old"), Some(s(&["a.cpp", "b.cpp", "Old\\c.cpp"])));
}

#[test]
fn basic_document_holds_files() {
    let text = create_basic_filter_file(&s(&["x/y.cpp", "z.cpp"]));
    assert!(text.starts_with(&basic_filter_text().replace("  </ItemGroup>\n</Project>\n", "")));
    let d = FilterFile::new("p".to_string(), text);
    let all = d.get_all_filters();
    assert_eq!(all[0], ("Source Files".to_string(), vec![]));
    assert_eq!(all[1], ("Header Files".to_string(), vec![]));
    assert_eq!(all[2], ("x".to_string(), s(&["x\\y.cpp"])));
    assert!(d.content.contains("    <ClCompile Include=\"z.cpp\" />\n"));
}
