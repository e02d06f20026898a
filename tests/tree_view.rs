use vsprojm::{FilterFile, ProjectStructure, VcxprojFile};

fn project(entries: &[&str]) -> VcxprojFile {
    let mut text = String::from("<Project>\n  <ItemGroup>\n");
    for e in entries {
        text.push_str(&format!("    <ClCompile Include=\"{}\" />\n", e));
    }
    text.push_str("  </ItemGroup>\n</Project>\n");
    VcxprojFile::new("proj.vcxproj".to_string(), text)
}

fn filters(decls: &[&str], assigned: &[(&str, &str)]) -> FilterFile {
    let mut text = String::from("<Project>\n  <ItemGroup>\n");
    for d in decls {
        text.push_str(&format!("    <Filter Include=\"{}\">\n      <UniqueIdentifier>{{X}}</UniqueIdentifier>\n    </Filter>\n", d));
    }
    text.push_str("  </ItemGroup>\n  <ItemGroup>\n");
    for (f, n) in assigned {
        text.push_str(&format!("    <ClCompile Include=\"{}\">\n      <Filter>{}</Filter>\n    </ClCompile>\n", f, n));
    }
    text.push_str("  </ItemGroup>\n</Project>\n");
    FilterFile::new("proj.vcxproj.filters".to_string(), text)
}

fn deep() -> ProjectStructure {
    let p = project(&["a\\b\\c\\f.cpp"]);
    let f = filters(&["a\\b\\c"], &[("a\\b\\c\\f.cpp", "a\\b\\c")]);
    ProjectStructure::from_project("proj", &p, Some(&f))
}

const HEAD: &str = "📁 proj.vcxproj\n";
const A: &str = "└── 📁 a\n";
const B: &str = "    └── 📁 b\n";
const C: &str = "        └── 📁 c\n";
const F: &str = "            └── 📄 f.cpp\n";

#[test]
fn structure_joins_both_documents() {
    let s = deep();
    assert_eq!(s.name, "proj");
    assert_eq!(s.files.len(), 1);
    assert_eq!(s.files[0].path, "a\\b\\c\\f.cpp");
    assert_eq!(s.files[0].filter, Some("a\\b\\c".to_string()));
    assert_eq!(s.filters, vec![("a\\b\\c".to_string(), vec!["a\\b\\c\\f.cpp".to_string()])]);
}

#[test]
fn depth_one_shows_top_folder_only() {
    assert_eq!(deep().display_tree(false, true, Some(1)), format!("{}{}", HEAD, A));
}

#[test]
fn depth_two_shows_two_folders_no_file() {
    assert_eq!(deep().display_tree(false, true, Some(2)), format!("{}{}{}", HEAD, A, B));
}

#[test]
fn depth_three_shows_folders_and_file_needs_four() {
    assert_eq!(deep().display_tree(false, true, Some(3)), format!("{}{}{}{}", HEAD, A, B, C));
    assert_eq!(deep().display_tree(false, true, Some(4)), format!("{}{}{}{}{}", HEAD, A, B, C, F));
    assert_eq!(deep().display_tree(false, true, None), format!("{}{}{}{}{}", HEAD, A, B, C, F));
}

#[test]
fn depth_zero_shows_folders_without_files() {
    assert_eq!(deep().display_tree(false, true, Some(0)), format!("{}{}{}{}", HEAD, A, B, C));
}

#[test]
fn files_only_leaves_out_empty_folders() {
    let p = project(&["x.cpp"]);
    let f = filters(&["Empty", "Full"], &[("x.cpp", "Full")]);
    let s = ProjectStructure::from_project("proj", &p, Some(&f));
    assert_eq!(
        s.display_tree(false, true, None),
        "📁 proj.vcxproj\n├── 📁 Empty\n└── 📁 Full\n    └── 📄 x.cpp\n"
    );
    assert_eq!(s.display_tree(true, true, None), "📁 proj.vcxproj\n└── 📁 Full\n    └── 📄 x.cpp\n");
}

#[test]
fn files_only_drops_folder_beyond_depth() {
    let s = deep();
    assert_eq!(s.display_tree(true, true, Some(2)), HEAD.to_string());
    assert_eq!(s.display_tree(true, true, Some(4)), format!("{}{}{}{}{}", HEAD, A, B, C, F));
}

#[test]
fn root_files_come_first_and_folder_files_sorted() {
    let p = project(&["main.cpp", "src\\b.cpp", "src\\a.cpp"]);
    let f = filters(&["src"], &[("src\\b.cpp", "src"), ("src\\a.cpp", "src")]);
    let s = ProjectStructure::from_project("proj", &p, Some(&f));
    assert_eq!(
        s.display_tree(false, true, None),
        "📁 proj.vcxproj\n├── 📄 main.cpp\n└── 📁 src\n    ├── 📄 a.cpp\n    └── 📄 b.cpp\n"
    );
    assert_eq!(s.display_tree(false, true, Some(0)), "📁 proj.vcxproj\n└── 📁 src\n");
}

#[test]
fn siblings_sorted_and_connectors_nested() {
    let p = project(&["z\\1.cpp", "a\\x\\2.cpp"]);
    let f = filters(&["z", "a", "a\\x"], &[("z\\1.cpp", "z"), ("a\\x\\2.cpp", "a\\x")]);
    let s = ProjectStructure::from_project("proj", &p, Some(&f));
    assert_eq!(
        s.display_tree(false, true, None),
        "📁 proj.vcxproj\n├── 📁 a\n│   └── 📁 x\n│       └── 📄 2.cpp\n└── 📁 z\n    └── 📄 1.cpp\n"
    );
}

#[test]
fn empty_project_says_so() {
    let p = project(&[]);
    let s = ProjectStructure::from_project("proj", &p, None);
    assert_eq!(s.display_tree(false, true, None), "📁 proj.vcxproj\n   (empty project)\n");
}

#[test]
fn without_filter_document_all_files_at_top() {
    let p = project(&["a.cpp", "b\\c.cpp"]);
    let s = ProjectStructure::from_project("proj", &p, None);
    assert!(s.files.iter().all(|f| f.filter.is_none()));
    assert_eq!(s.display_tree(false, true, None), "📁 proj.vcxproj\n├── 📄 a.cpp\n└── 📄 c.cpp\n");
}
