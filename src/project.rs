//! The compile-unit document: which source files the build compiles, and
//! the per-configuration search paths and library dependencies.
use vstd::prelude::*;
use crate::entries::{
    drop_entries, drop_entries_exec, entry_paths, entry_paths_exec, Select, Selection,
};
use crate::markup::{
    attr_value, attr_value_exec, condition_attr, first_line, first_line_exec,
    opt_seq, passes, passes_exec, LineTest,
};
use crate::paths::{is_source, is_source_exec, to_backslash, to_backslash_exec};
use crate::placement::{insert_at, place_lines, place_lines_exec};
use crate::text::{
    append, chars_of, concat, contains, contains_exec, extend_lines, join_lines, join_lines_exec,
    lines_view, push_line, replace_all, replace_exec, split_lines, split_lines_exec, string_of,
    strings_of, strings_view,
};

verus! {

/// A compile-unit document: where it is kept and its text.
pub struct VcxprojFile {
    pub path: String,
    pub content: String,
}

/// A source file of the build and the hierarchy node it shows under.
pub struct ProjectFile {
    pub path: String,
    pub filter: Option<String>,
}

/// A build property that each configuration holds as a `;`-list ending in
/// the token of inherited values.
#[derive(Clone, Copy, PartialEq, Eq, Structural)]
pub enum ConfigProperty {
    IncludeDirectories,
    LibraryDirectories,
    LibraryDependencies,
}

pub open spec fn opt_str(o: Option<&str>) -> Option<Seq<char>> {
    match o {
        Some(s) => Some(s@),
        None => None,
    }
}

pub open spec fn entry_text() -> Seq<char> {
    "<ClCompile Include="@
}

/// The registration line of a source file.
pub open spec fn compile_line(p: Seq<char>) -> Seq<char> {
    "    <ClCompile Include=\""@ + to_backslash(p) + "\" />"@
}

/// The registration lines of the files that are sources, in order.
pub open spec fn compile_lines(files: Seq<Seq<char>>) -> Seq<Seq<char>>
    decreases files.len(),
{
    if files.len() == 0 {
        seq![]
    } else {
        let rest = compile_lines(files.drop_last());
        if is_source(files.last()) {
            rest.push(compile_line(files.last()))
        } else {
            rest
        }
    }
}

pub open spec fn property_name(p: ConfigProperty) -> Seq<char> {
    match p {
        ConfigProperty::IncludeDirectories => "AdditionalIncludeDirectories"@,
        ConfigProperty::LibraryDirectories => "AdditionalLibraryDirectories"@,
        ConfigProperty::LibraryDependencies => "AdditionalDependencies"@,
    }
}

/// The section of a configuration that holds the property.
pub open spec fn section_name(p: ConfigProperty) -> Seq<char> {
    match p {
        ConfigProperty::IncludeDirectories => "ClCompile"@,
        _ => "Link"@,
    }
}

pub open spec fn open_tag(n: Seq<char>) -> Seq<char> {
    "<"@ + n + ">"@
}

pub open spec fn close_tag(n: Seq<char>) -> Seq<char> {
    "</"@ + n + ">"@
}

/// The token that stands for the values a configuration inherits.
pub open spec fn inherit_token(n: Seq<char>) -> Seq<char> {
    "%("@ + n + ")"@
}

pub open spec fn config_marker() -> Seq<char> {
    "<ItemDefinitionGroup Condition="@
}

pub open spec fn config_close() -> Seq<char> {
    "</ItemDefinitionGroup>"@
}

/// The property line written where a section has none.
pub open spec fn new_property_line(p: ConfigProperty, v: Seq<char>) -> Seq<char> {
    let n = property_name(p);
    "      "@ + open_tag(n) + v + ";"@ + inherit_token(n) + close_tag(n)
}

/// An existing property line with `v` put in front: before the inherited
/// token where the line holds it, else at the head of the list.
pub open spec fn updated_property_line(l: Seq<char>, p: ConfigProperty, v: Seq<char>) -> Seq<char> {
    let n = property_name(p);
    if contains(l, inherit_token(n)) {
        replace_all(l, inherit_token(n), v + ";"@ + inherit_token(n))
    } else {
        replace_all(l, open_tag(n), open_tag(n) + v + ";"@)
    }
}

/// The lines inside one configuration block, with `v` added to the property.
pub open spec fn inject_block(block: Seq<Seq<char>>, p: ConfigProperty, v: Seq<char>) -> Seq<
    Seq<char>,
> {
    let sn = section_name(p);
    let s = first_line(block, LineTest::Opens, open_tag(sn), 0, block.len() as int);
    if s >= block.len() {
        seq!["    "@ + open_tag(sn), new_property_line(p, v), "    "@ + close_tag(sn)] + block
    } else {
        let se = first_line(block, LineTest::TrimmedOpens, close_tag(sn), s + 1, block.len() as int);
        let k = first_line(block, LineTest::Opens, open_tag(property_name(p)), s + 1, se);
        if k < se {
            block.update(k, updated_property_line(block[k], p, v))
        } else {
            insert_at(block, s + 1, seq![new_property_line(p, v)])
        }
    }
}

/// From line `i` on: the lines with the property added in every
/// configuration block, and the configurations' identifiers in order.
pub open spec fn inject_from(ls: Seq<Seq<char>>, p: ConfigProperty, v: Seq<char>, i: int) -> (
    Seq<Seq<char>>,
    Seq<Seq<char>>,
)
    decreases ls.len() - i,
{
    if i < 0 || i >= ls.len() {
        (seq![], seq![])
    } else if passes(LineTest::Opens, config_marker(), ls[i]) {
        let e = first_line(ls, LineTest::TrimmedOpens, config_close(), i + 1, ls.len() as int);
        if i + 1 <= e <= ls.len() {
            let rest = inject_from(ls, p, v, e);
            (
                seq![ls[i]] + inject_block(ls.subrange(i + 1, e), p, v) + rest.0,
                opt_seq(attr_value(ls[i], condition_attr())) + rest.1,
            )
        } else {
            (seq![], seq![])
        }
    } else {
        let rest = inject_from(ls, p, v, i + 1);
        (seq![ls[i]] + rest.0, rest.1)
    }
}

/// The text after adding the registration lines of `files`.
pub open spec fn added_text(s: Seq<char>, files: Seq<Seq<char>>) -> Seq<char> {
    join_lines(place_lines(split_lines(s), entry_text(), compile_lines(files)))
}

/// The text and removed paths of a delete.
pub open spec fn deleted(s: Seq<char>, target: Seq<char>, ext: Option<Seq<char>>) -> (
    Seq<char>,
    Seq<Seq<char>>,
) {
    let r = drop_entries(split_lines(s), Selection::Text { target, ext }, 0);
    (join_lines(r.0), r.1)
}

/// The text and touched configurations of a property injection.
pub open spec fn injected(s: Seq<char>, p: ConfigProperty, v: Seq<char>) -> (
    Seq<char>,
    Seq<Seq<char>>,
) {
    let r = inject_from(split_lines(s), p, v, 0);
    (join_lines(r.0), r.1)
}

fn str_option(o: Option<&str>) -> (r: Option<Vec<char>>)
    ensures
        match o {
            Some(s) => r matches Some(v) && v@ == s@,
            None => r is None,
        },
{
    match o {
        Some(s) => Some(chars_of(s)),
        None => None,
    }
}

fn property_name_exec(p: ConfigProperty) -> (r: Vec<char>)
    ensures
        r@ == property_name(p),
{
    match p {
        ConfigProperty::IncludeDirectories => chars_of("AdditionalIncludeDirectories"),
        ConfigProperty::LibraryDirectories => chars_of("AdditionalLibraryDirectories"),
        ConfigProperty::LibraryDependencies => chars_of("AdditionalDependencies"),
    }
}

fn section_name_exec(p: ConfigProperty) -> (r: Vec<char>)
    ensures
        r@ == section_name(p),
{
    match p {
        ConfigProperty::IncludeDirectories => chars_of("ClCompile"),
        _ => chars_of("Link"),
    }
}

fn wrapped(a: &str, n: &Vec<char>, b: &str) -> (r: Vec<char>)
    ensures
        r@ == a@ + n@ + b@,
{
    let x = concat(&chars_of(a), n);
    concat(&x, &chars_of(b))
}

fn new_property_line_exec(p: ConfigProperty, v: &Vec<char>) -> (r: Vec<char>)
    ensures
        r@ == new_property_line(p, v@),
{
    let n = property_name_exec(p);
    let mut r = chars_of("      ");
    append(&mut r, &wrapped("<", &n, ">"));
    append(&mut r, v);
    append(&mut r, &chars_of(";"));
    append(&mut r, &wrapped("%(", &n, ")"));
    append(&mut r, &wrapped("</", &n, ">"));
    r
}

fn updated_property_line_exec(l: &Vec<char>, p: ConfigProperty, v: &Vec<char>) -> (r: Vec<char>)
    ensures
        r@ == updated_property_line(l@, p, v@),
{
    let n = property_name_exec(p);
    let tok = wrapped("%(", &n, ")");
    if contains_exec(l, &tok) {
        let mut rep = v.clone();
        append(&mut rep, &chars_of(";"));
        append(&mut rep, &tok);
        assert(tok@.len() > 0) by {
            reveal_strlit("%(");
        }
        replace_exec(l, &tok, &rep)
    } else {
        let open = wrapped("<", &n, ">");
        let mut rep = open.clone();
        append(&mut rep, v);
        append(&mut rep, &chars_of(";"));
        assert(open@.len() > 0) by {
            reveal_strlit("<");
        }
        replace_exec(l, &open, &rep)
    }
}

fn inject_block_exec(block: &Vec<Vec<char>>, p: ConfigProperty, v: &Vec<char>) -> (r: Vec<
    Vec<char>,
>)
    ensures
        lines_view(r@) == inject_block(lines_view(block@), p, v@),
{
    let ghost b = lines_view(block@);
    let sn = section_name_exec(p);
    let so = wrapped("<", &sn, ">");
    let sc = wrapped("</", &sn, ">");
    let s = first_line_exec(block, LineTest::Opens, &so, 0, block.len());
    let mut r: Vec<Vec<char>> = Vec::new();
    if s >= block.len() {
        push_line(&mut r, &concat(&chars_of("    "), &so));
        push_line(&mut r, &new_property_line_exec(p, v));
        push_line(&mut r, &concat(&chars_of("    "), &sc));
        extend_lines(&mut r, block, 0, block.len());
        assert(b.subrange(0, block.len() as int) =~= b);
        assert(lines_view(r@) =~= inject_block(b, p, v@));
        return r;
    }
    let se = first_line_exec(block, LineTest::TrimmedOpens, &sc, s + 1, block.len());
    let pn = property_name_exec(p);
    let po = wrapped("<", &pn, ">");
    let k = first_line_exec(block, LineTest::Opens, &po, s + 1, se);
    if k < se {
        extend_lines(&mut r, block, 0, k);
        push_line(&mut r, &updated_property_line_exec(&block[k], p, v));
        extend_lines(&mut r, block, k + 1, block.len());
        assert(lines_view(r@) =~= b.update(k as int, updated_property_line(b[k as int], p, v@)));
    } else {
        extend_lines(&mut r, block, 0, s + 1);
        push_line(&mut r, &new_property_line_exec(p, v));
        extend_lines(&mut r, block, s + 1, block.len());
        assert(lines_view(r@) =~= insert_at(b, s + 1, seq![new_property_line(p, v@)]));
    }
    r
}

fn inject_exec(ls: &Vec<Vec<char>>, p: ConfigProperty, v: &Vec<char>) -> (r: (
    Vec<Vec<char>>,
    Vec<Vec<char>>,
))
    ensures
        lines_view(r.0@) == inject_from(lines_view(ls@), p, v@, 0).0,
        lines_view(r.1@) == inject_from(lines_view(ls@), p, v@, 0).1,
{
    let ghost all = lines_view(ls@);
    let marker = chars_of("<ItemDefinitionGroup Condition=");
    let close = chars_of("</ItemDefinitionGroup>");
    let cond = chars_of("Condition=\"");
    let mut out: Vec<Vec<char>> = Vec::new();
    let mut configs: Vec<Vec<char>> = Vec::new();
    let mut i: usize = 0;
    while i < ls.len()
        invariant
            i <= ls.len(),
            all == lines_view(ls@),
            marker@ == config_marker(),
            close@ == config_close(),
            cond@ == condition_attr(),
            lines_view(out@) + inject_from(all, p, v@, i as int).0 == inject_from(all, p, v@, 0).0,
            lines_view(configs@) + inject_from(all, p, v@, i as int).1 == inject_from(
                all,
                p,
                v@,
                0,
            ).1,
        decreases ls.len() - i,
    {
        let ghost o0 = out@;
        let ghost c0 = configs@;
        if passes_exec(LineTest::Opens, &marker, &ls[i]) {
            let e = first_line_exec(ls, LineTest::TrimmedOpens, &close, i + 1, ls.len());
            push_line(&mut out, &ls[i]);
            let mut block: Vec<Vec<char>> = Vec::new();
            extend_lines(&mut block, ls, i + 1, e);
            let nb = inject_block_exec(&block, p, v);
            extend_lines(&mut out, &nb, 0, nb.len());
            assert(lines_view(nb@).subrange(0, nb.len() as int) =~= lines_view(nb@));
            match attr_value_exec(&ls[i], &cond) {
                Some(c) => {
                    configs.push(c);
                },
                None => {},
            }
            assert(lines_view(block@) =~= all.subrange(i + 1, e as int));
            assert(lines_view(out@) + inject_from(all, p, v@, e as int).0 =~= lines_view(o0)
                + inject_from(all, p, v@, i as int).0);
            assert(lines_view(configs@) + inject_from(all, p, v@, e as int).1 =~= lines_view(c0)
                + inject_from(all, p, v@, i as int).1);
            i = e;
        } else {
            push_line(&mut out, &ls[i]);
            assert(lines_view(out@) + inject_from(all, p, v@, i + 1).0 =~= lines_view(o0)
                + inject_from(all, p, v@, i as int).0);
            i += 1;
        }
    }
    (out, configs)
}

fn compile_lines_exec(files: &Vec<String>) -> (r: Vec<Vec<char>>)
    ensures
        lines_view(r@) == compile_lines(strings_view(files@)),
{
    let ghost fs = strings_view(files@);
    let mut r: Vec<Vec<char>> = Vec::new();
    let mut i: usize = 0;
    while i < files.len()
        invariant
            i <= files.len(),
            fs == strings_view(files@),
            lines_view(r@) == compile_lines(fs.take(i as int)),
        decreases files.len() - i,
    {
        let f = chars_of(files[i].as_str());
        assert(fs.take(i + 1).drop_last() =~= fs.take(i as int));
        if is_source_exec(&f) {
            let mut l = chars_of("    <ClCompile Include=\"");
            append(&mut l, &to_backslash_exec(&f));
            append(&mut l, &chars_of("\" />"));
            push_line(&mut r, &l);
        }
        i += 1;
    }
    assert(fs.take(files.len() as int) =~= fs);
    r
}

impl VcxprojFile {
    pub fn new(path: String, content: String) -> (r: Self)
        ensures
            r.path == path,
            r.content == content,
    {
        VcxprojFile { path, content }
    }

    fn lines(&self) -> (r: Vec<Vec<char>>)
        ensures
            lines_view(r@) == split_lines(self.content@),
    {
        split_lines_exec(&chars_of(self.content.as_str()))
    }

    fn set_lines(&mut self, ls: &Vec<Vec<char>>)
        ensures
            final(self).path == old(self).path,
            final(self).content@ == join_lines(lines_view(ls@)),
    {
        self.content = string_of(&join_lines_exec(ls));
    }

    /// Registers each file whose extension is `c`, `cpp`, `cc` or `cxx`, in
    /// order, with `\` as separator, at the end of the block of existing
    /// registrations, or in a new block before the closing tag. A path
    /// already registered is registered again.
    pub fn add_source_files(&mut self, files: &Vec<String>)
        ensures
            final(self).path == old(self).path,
            compile_lines(strings_view(files@)).len() == 0 ==> final(self).content == old(
                self,
            ).content,
            compile_lines(strings_view(files@)).len() > 0 ==> final(self).content@ == added_text(
                old(self).content@,
                strings_view(files@),
            ),
    {
        let new = compile_lines_exec(files);
        if new.len() == 0 {
            return;
        }
        let ls = self.lines();
        let m = chars_of("<ClCompile Include=");
        let placed = place_lines_exec(&ls, &m, new);
        self.set_lines(&placed);
    }

    /// Removes the selected entries (see `Selection::Text`) and returns their
    /// include paths in document order.
    pub fn delete_files(&mut self, target: &str, extension: Option<&str>) -> (r: Vec<String>)
        ensures
            final(self).path == old(self).path,
            final(self).content@ == deleted(old(self).content@, target@, opt_str(extension)).0,
            strings_view(r@) == deleted(old(self).content@, target@, opt_str(extension)).1,
    {
        let sel = Select::Text { target: chars_of(target), ext: str_option(extension) };
        let ls = self.lines();
        let (kept, removed) = drop_entries_exec(&ls, &sel);
        self.set_lines(&kept);
        strings_of(&removed)
    }

    /// The include paths that `delete_files` would remove, the text left as it is.
    pub fn preview_delete_files(&self, target: &str, extension: Option<&str>) -> (r: Vec<String>)
        ensures
            strings_view(r@) == deleted(self.content@, target@, opt_str(extension)).1,
    {
        let sel = Select::Text { target: chars_of(target), ext: str_option(extension) };
        let ls = self.lines();
        let (_kept, removed) = drop_entries_exec(&ls, &sel);
        strings_of(&removed)
    }

    /// The registered source files in document order, none yet assigned to a node.
    pub fn get_project_files(&self) -> (r: Vec<ProjectFile>)
        ensures
            r@.len() == entry_paths(split_lines(self.content@), 0).len(),
            forall|i: int|
                0 <= i < r@.len() ==> r@[i].path@ == entry_paths(split_lines(self.content@), 0)[i]
                    && r@[i].filter is None,
    {
        let ls = self.lines();
        let paths = entry_paths_exec(&ls);
        let mut r: Vec<ProjectFile> = Vec::new();
        let mut i: usize = 0;
        while i < paths.len()
            invariant
                i <= paths.len(),
                r@.len() == i,
                forall|j: int|
                    0 <= j < i ==> r@[j].path@ == lines_view(paths@)[j] && r@[j].filter is None,
            decreases paths.len() - i,
        {
            r.push(ProjectFile { path: string_of(&paths[i]), filter: None });
            i += 1;
        }
        r
    }

    /// Puts `value` in front of the property in every configuration block,
    /// creating the section and the property (with the inherited token) where
    /// missing. Returns the configurations' identifiers in document order. A
    /// value already present is added again.
    pub fn inject_configuration_property(&mut self, property: ConfigProperty, value: &str) -> (r:
        Vec<String>)
        ensures
            final(self).path == old(self).path,
            final(self).content@ == injected(old(self).content@, property, value@).0,
            strings_view(r@) == injected(old(self).content@, property, value@).1,
    {
        let ls = self.lines();
        let (out, configs) = inject_exec(&ls, property, &chars_of(value));
        self.set_lines(&out);
        strings_of(&configs)
    }

    pub fn add_include_directory(&mut self, include_path: &str) -> (r: Vec<String>)
        ensures
            final(self).path == old(self).path,
            final(self).content@ == injected(
                old(self).content@,
                ConfigProperty::IncludeDirectories,
                include_path@,
            ).0,
            strings_view(r@) == injected(
                old(self).content@,
                ConfigProperty::IncludeDirectories,
                include_path@,
            ).1,
    {
        self.inject_configuration_property(ConfigProperty::IncludeDirectories, include_path)
    }

    pub fn add_library_directory(&mut self, lib_path: &str) -> (r: Vec<String>)
        ensures
            final(self).path == old(self).path,
            final(self).content@ == injected(
                old(self).content@,
                ConfigProperty::LibraryDirectories,
                lib_path@,
            ).0,
            strings_view(r@) == injected(
                old(self).content@,
                ConfigProperty::LibraryDirectories,
                lib_path@,
            ).1,
    {
        self.inject_configuration_property(ConfigProperty::LibraryDirectories, lib_path)
    }

    pub fn add_library_dependency(&mut self, lib_name: &str) -> (r: Vec<String>)
        ensures
            final(self).path == old(self).path,
            final(self).content@ == injected(
                old(self).content@,
                ConfigProperty::LibraryDependencies,
                lib_name@,
            ).0,
            strings_view(r@) == injected(
                old(self).content@,
                ConfigProperty::LibraryDependencies,
                lib_name@,
            ).1,
    {
        self.inject_configuration_property(ConfigProperty::LibraryDependencies, lib_name)
    }
}

} // verus!
