use vsprojm::{ConfigProperty, VcxprojFile};

const PROJECT: &str = "<?xml version=\"1.0\" encoding=\"utf-8\"?>
<Project DefaultTargets=\"Build\">
  <ItemDefinitionGroup Condition=\"'$(Configuration)|$(Platform)'=='Debug|x64'\">
    <ClCompile>
      <WarningLevel>Level3</WarningLevel>
    </ClCompile>
  </ItemDefinitionGroup>
  <ItemDefinitionGroup Condition=\"'$(Configuration)|$(Platform)'=='Release|x64'\">
    <ClCompile>
      <AdditionalIncludeDirectories>inc;%(AdditionalIncludeDirectories)</AdditionalIncludeDirectories>
    </ClCompile>
    <Link>
      <AdditionalDependencies>kernel32.lib</AdditionalDependencies>
    </Link>
  </ItemDefinitionGroup>
  <ItemGroup>
    <ClCompile Include=\"main.cpp\" />
    <ClCompile Include=\"src\\util.cpp\" />
  </ItemGroup>
</Project>
";

fn doc() -> VcxprojFile {
    VcxprojFile::new("p.vcxproj".to_string(), PROJECT.to_string())
}

#[test]
fn loading_and_saving_keeps_bytes() {
    let d = doc();
    assert_eq!(d.content, PROJECT);
    let mut d = doc();
    let removed = d.delete_files("nothing_like_this.cpp", None);
    assert!(removed.is_empty());
    assert_eq!(d.content, PROJECT);
}

#[test]
fn lists_registered_files() {
    let files = doc().get_project_files();
    let paths: Vec<&str> = files.iter().map(|f| f.path.as_str()).collect();
    assert_eq!(paths, vec!["main.cpp", "src\\util.cpp"]);
    assert!(files.iter().all(|f| f.filter.is_none()));
}

#[test]
fn adds_sources_to_existing_block() {
    let mut d = doc();
    d.add_source_files(&vec!["lib/x.cpp".to_string(), "lib/y.h".to_string(), "z.c".to_string()]);
    let expected = PROJECT.replace(
        "    <ClCompile Include=\"src\\util.cpp\" />\n",
        "    <ClCompile Include=\"src\\util.cpp\" />\n    <ClCompile Include=\"lib\\x.cpp\" />\n    <ClCompile Include=\"z.c\" />\n",
    );
    assert_eq!(d.content, expected);
}

#[test]
fn adds_block_before_closing_tag() {
    let mut d = VcxprojFile::new("p".to_string(), "<Project>\n</Project>\n".to_string());
    d.add_source_files(&vec!["a.cc".to_string(), "b.txt".to_string()]);
    assert_eq!(
        d.content,
        "<Project>\n  <ItemGroup>\n    <ClCompile Include=\"a.cc\" />\n  </ItemGroup>\n</Project>\n"
    );
}

#[test]
fn adding_non_sources_changes_nothing() {
    let mut d = doc();
    d.add_source_files(&vec!["readme.md".to_string(), ".cpp".to_string()]);
    assert_eq!(d.content, PROJECT);
}

#[test]
fn adding_twice_duplicates() {
    let mut d = doc();
    d.add_source_files(&vec!["main.cpp".to_string()]);
    assert_eq!(d.content.matches("Include=\"main.cpp\"").count(), 2);
}

#[test]
fn deletes_by_extension_then_finds_nothing() {
    let mut d = doc();
    let removed = d.delete_files("", Some("cpp"));
    assert_eq!(removed, vec!["main.cpp".to_string(), "src\\util.cpp".to_string()]);
    assert!(!d.content.contains("ClCompile Include"));
    let again = d.delete_files("", Some("cpp"));
    assert!(again.is_empty());
}

#[test]
fn deletes_folder_in_either_separator() {
    let mut d = doc();
    let removed = d.delete_files("src/", None);
    assert_eq!(removed, vec!["src\\util.cpp".to_string()]);
    assert!(d.content.contains("main.cpp"));
    assert!(!d.content.contains("util.cpp"));
}

#[test]
fn deletes_one_file() {
    let mut d = doc();
    let removed = d.delete_files("main.cpp", None);
    assert_eq!(removed, vec!["main.cpp".to_string()]);
    assert_eq!(d.content, PROJECT.replace("    <ClCompile Include=\"main.cpp\" />\n", ""));
}

#[test]
fn deletes_block_entries_whole() {
    let text = "<ItemGroup>\n  <ClCompile Include=\"a.cpp\">\n    <Opt>1</Opt>\n  </ClCompile>\n  <ClCompile Include=\"b.cpp\" />\n</ItemGroup>";
    let mut d = VcxprojFile::new("p".to_string(), text.to_string());
    let removed = d.delete_files("a.cpp", None);
    assert_eq!(removed, vec!["a.cpp".to_string()]);
    assert_eq!(d.content, "<ItemGroup>\n  <ClCompile Include=\"b.cpp\" />\n</ItemGroup>");
}

#[test]
fn preview_reports_what_commit_removes() {
    let d = doc();
    let preview = d.preview_delete_files("util", None);
    assert_eq!(d.content, PROJECT);
    let mut c = doc();
    let removed = c.delete_files("util", None);
    assert_eq!(preview, removed);
    assert_eq!(removed, vec!["src\\util.cpp".to_string()]);
}

#[test]
fn include_directory_goes_in_front_of_inherited_token() {
    let mut d = doc();
    let configs = d.add_include_directory("extra");
    assert_eq!(
        configs,
        vec![
            "'$(Configuration)|$(Platform)'=='Debug|x64'".to_string(),
            "'$(Configuration)|$(Platform)'=='Release|x64'".to_string()
        ]
    );
    assert!(d.content.contains(
        "    <ClCompile>\n      <AdditionalIncludeDirectories>extra;%(AdditionalIncludeDirectories)</AdditionalIncludeDirectories>\n      <WarningLevel>Level3</WarningLevel>"
    ));
    assert!(d.content.contains(
        "<AdditionalIncludeDirectories>inc;extra;%(AdditionalIncludeDirectories)</AdditionalIncludeDirectories>"
    ));
}

#[test]
fn library_dependency_creates_link_section() {
    let mut d = doc();
    let configs = d.add_library_dependency("opengl32.lib");
    assert_eq!(configs.len(), 2);
    assert!(d.content.contains(
        "Debug|x64'\">\n    <Link>\n      <AdditionalDependencies>opengl32.lib;%(AdditionalDependencies)</AdditionalDependencies>\n    </Link>\n    <ClCompile>"
    ));
    assert!(d.content.contains("<AdditionalDependencies>opengl32.lib;kernel32.lib</AdditionalDependencies>"));
}

#[test]
fn library_directory_added_to_existing_link() {
    let mut d = doc();
    d.add_library_directory("libs");
    assert!(d.content.contains(
        "    <Link>\n      <AdditionalLibraryDirectories>libs;%(AdditionalLibraryDirectories)</AdditionalLibraryDirectories>\n      <AdditionalDependencies>kernel32.lib</AdditionalDependencies>"
    ));
}

#[test]
fn injecting_twice_adds_twice() {
    let mut d = doc();
    d.inject_configuration_property(ConfigProperty::IncludeDirectories, "x");
    d.inject_configuration_property(ConfigProperty::IncludeDirectories, "x");
    assert!(d.content.contains("<AdditionalIncludeDirectories>inc;x;x;%(AdditionalIncludeDirectories)"));
}

#[test]
fn no_configuration_no_change() {
    let mut d = VcxprojFile::new("p".to_string(), "<Project>\n</Project>".to_string());
    let configs = d.add_include_directory("x");
    assert!(configs.is_empty());
    assert_eq!(d.content, "<Project>\n</Project>");
}
