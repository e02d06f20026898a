//! Path patterns: the regular expressions that narrow which scanned files
//! are added and which matched entries are deleted, optionally negated.
use vstd::prelude::*;
use crate::error::ProjectError;
use crate::paths::{extension_of, extension_exec};
use crate::text::{chars_of, string_of, strings_view};

verus! {

/// Whether `regex` accepts the pattern (its syntax, within the default size limits).
pub uninterp spec fn pattern_compiles(pattern: Seq<char>) -> bool;

/// Whether the pattern matches somewhere in the text.
pub uninterp spec fn pattern_matches(pattern: Seq<char>, text: Seq<char>) -> bool;

#[verifier::external_type_specification]
#[verifier::external_body]
pub struct ExRegex(regex::Regex);

#[verifier::external_type_specification]
#[verifier::external_body]
pub struct ExRegexError(regex::Error);

/// A compiled pattern together with its source text. Only `new` makes one,
/// so `compiled` is always what `regex` compiled from `source`.
pub struct PathPattern {
    source: String,
    compiled: regex::Regex,
}

/// Relies on `regex::Regex::new`, which returns an error exactly when the
/// pattern does not compile.
#[verifier::external_body]
fn compile(pattern: &str) -> (r: Result<regex::Regex, regex::Error>)
    ensures
        r is Ok <==> pattern_compiles(pattern@),
{
    regex::Regex::new(pattern)
}

/// Relies on `regex::Regex::is_match`: whether the pattern that `p` was
/// compiled from matches somewhere in `text`.
#[verifier::external_body]
fn is_match(p: &PathPattern, text: &str) -> (r: bool)
    ensures
        r == pattern_matches(p.source(), text@),
{
    p.compiled.is_match(text)
}

impl PathPattern {
    pub closed spec fn source(&self) -> Seq<char> {
        self.source@
    }

    /// Compiles `pattern`; a pattern that does not compile is an error.
    pub fn new(pattern: &str) -> (r: Result<PathPattern, ProjectError>)
        ensures
            r is Ok <==> pattern_compiles(pattern@),
            r matches Ok(p) ==> p.source() == pattern@,
            r matches Err(e) ==> e matches ProjectError::MalformedPattern { pattern: q } && q@
                == pattern@,
    {
        match compile(pattern) {
            Ok(compiled) => Ok(PathPattern { source: string_of(&chars_of(pattern)), compiled }),
            Err(_) => Err(ProjectError::MalformedPattern { pattern: string_of(&chars_of(pattern)) }),
        }
    }

    pub fn matches(&self, text: &str) -> (r: bool)
        ensures
            r == pattern_matches(self.source(), text@),
    {
        is_match(self, text)
    }
}

/// The paths kept by a refinement: those whose flag differs from `negate`
/// (a flag tells whether the pattern matched the path).
pub open spec fn kept_by_flags(paths: Seq<Seq<char>>, matched: Seq<bool>, negate: bool) -> Seq<
    Seq<char>,
>
    decreases paths.len(),
{
    if paths.len() == 0 || matched.len() < paths.len() {
        seq![]
    } else {
        let r = kept_by_flags(paths.drop_last(), matched, negate);
        if matched[paths.len() - 1] != negate {
            r.push(paths.last())
        } else {
            r
        }
    }
}

/// The paths that the pattern matches (or, with `negate`, does not match), in order.
pub open spec fn refined(paths: Seq<Seq<char>>, pattern: Seq<char>, negate: bool) -> Seq<Seq<char>>
    decreases paths.len(),
{
    if paths.len() == 0 {
        seq![]
    } else {
        let r = refined(paths.drop_last(), pattern, negate);
        if pattern_matches(pattern, paths.last()) != negate {
            r.push(paths.last())
        } else {
            r
        }
    }
}

/// Keeps the paths whose flag differs from `negate`.
pub fn refine_by_flags(paths: &Vec<String>, matched: &Vec<bool>, negate: bool) -> (r: Vec<String>)
    requires
        matched.len() == paths.len(),
    ensures
        strings_view(r@) == kept_by_flags(strings_view(paths@), matched@, negate),
{
    let ghost ps = strings_view(paths@);
    let mut r: Vec<String> = Vec::new();
    let mut i: usize = 0;
    while i < paths.len()
        invariant
            i <= paths.len() == matched.len(),
            ps == strings_view(paths@),
            strings_view(r@) == kept_by_flags(ps.take(i as int), matched@, negate),
        decreases paths.len() - i,
    {
        assert(ps.take(i + 1).drop_last() =~= ps.take(i as int));
        if matched[i] != negate {
            let s = string_of(&chars_of(paths[i].as_str()));
            let ghost r0 = r@;
            r.push(s);
            assert(strings_view(r@) =~= strings_view(r0).push(s@));
        }
        i += 1;
    }
    assert(ps.take(paths.len() as int) =~= ps);
    r
}

proof fn lemma_refined_flags(paths: Seq<Seq<char>>, matched: Seq<bool>, pattern: Seq<char>, negate: bool)
    requires
        matched.len() == paths.len(),
        forall|i: int| 0 <= i < paths.len() ==> matched[i] == pattern_matches(pattern, #[trigger] paths[i]),
    ensures
        kept_by_flags(paths, matched, negate) == refined(paths, pattern, negate),
    decreases paths.len(),
{
    if paths.len() > 0 {
        let m2 = matched.drop_last();
        lemma_refined_flags(paths.drop_last(), m2, pattern, negate);
        lemma_flags_prefix(paths.drop_last(), m2, matched, negate);
    }
}

proof fn lemma_flags_prefix(paths: Seq<Seq<char>>, a: Seq<bool>, b: Seq<bool>, negate: bool)
    requires
        paths.len() <= a.len(),
        paths.len() <= b.len(),
        forall|i: int| 0 <= i < paths.len() ==> a[i] == b[i],
    ensures
        kept_by_flags(paths, a, negate) == kept_by_flags(paths, b, negate),
    decreases paths.len(),
{
    if paths.len() > 0 {
        lemma_flags_prefix(paths.drop_last(), a, b, negate);
    }
}

/// Keeps the paths that the pattern matches, or with `negate` those it does not.
pub fn refine_paths(paths: &Vec<String>, pattern: &PathPattern, negate: bool) -> (r: Vec<String>)
    ensures
        strings_view(r@) == refined(strings_view(paths@), pattern.source(), negate),
{
    let mut flags: Vec<bool> = Vec::new();
    let mut i: usize = 0;
    while i < paths.len()
        invariant
            i <= paths.len(),
            flags.len() == i,
            forall|j: int|
                0 <= j < i ==> flags@[j] == pattern_matches(
                    pattern.source(),
                    #[trigger] strings_view(paths@)[j],
                ),
        decreases paths.len() - i,
    {
        let m = pattern.matches(paths[i].as_str());
        flags.push(m);
        i += 1;
    }
    proof {
        lemma_refined_flags(strings_view(paths@), flags@, pattern.source(), negate);
    }
    refine_by_flags(paths, &flags, negate)
}

/// The code of `c` with an ASCII capital taken as its small letter.
pub open spec fn ascii_lower(c: char) -> u32 {
    if 65 <= (c as u32) && (c as u32) <= 90 {
        ((c as u32) + 32) as u32
    } else {
        c as u32
    }
}

/// `a` and `b` are equal when ASCII letters are compared without case.
pub open spec fn eq_ignore_ascii_case(a: Seq<char>, b: Seq<char>) -> bool {
    a.len() == b.len() && forall|i: int| 0 <= i < a.len() ==> ascii_lower(a[i]) == ascii_lower(b[i])
}

/// The path's extension is `ext`, ASCII case aside.
pub open spec fn has_extension(path: Seq<char>, ext: Seq<char>) -> bool {
    match extension_of(path) {
        Some(e) => eq_ignore_ascii_case(e, ext),
        None => false,
    }
}

fn lower_exec(c: char) -> (r: u32)
    ensures
        r == ascii_lower(c),
{
    let n = c as u32;
    if 65 <= n && n <= 90 {
        n + 32
    } else {
        n
    }
}

pub fn has_extension_exec(path: &str, ext: &str) -> (r: bool)
    ensures
        r == has_extension(path@, ext@),
{
    let p = chars_of(path);
    let x = chars_of(ext);
    match extension_exec(&p) {
        Some(e) => {
            if e.len() != x.len() {
                return false;
            }
            let mut i: usize = 0;
            while i < e.len()
                invariant
                    i <= e.len() == x.len(),
                    extension_of(p@) == Some(e@),
                    p@ == path@,
                    x@ == ext@,
                    forall|j: int| 0 <= j < i ==> ascii_lower(e@[j]) == ascii_lower(x@[j]),
                decreases e.len() - i,
            {
                if lower_exec(e[i]) != lower_exec(x[i]) {
                    assert(!eq_ignore_ascii_case(e@, x@));
                    return false;
                }
                i += 1;
            }
            true
        },
        None => false,
    }
}

/// The indices of the scanned paths that an add takes, ascending: the
/// extension is `ext` (ASCII case aside) and, when flags are given, the
/// path's flag differs from `negate`.
pub open spec fn chosen(paths: Seq<Seq<char>>, ext: Seq<char>, matched: Option<Seq<bool>>, negate: bool, n: int) -> Seq<usize>
    decreases n,
{
    if n <= 0 {
        seq![]
    } else {
        let r = chosen(paths, ext, matched, negate, n - 1);
        let ok = has_extension(paths[n - 1], ext) && match matched {
            Some(m) => m[n - 1] != negate,
            None => true,
        };
        if ok {
            r.push((n - 1) as usize)
        } else {
            r
        }
    }
}

/// Which scanned paths an add takes, given for each path whether the
/// pattern (if any) matched it.
pub fn select_candidates(
    scan_paths: &Vec<String>,
    extension: &str,
    matched: Option<&Vec<bool>>,
    negate: bool,
) -> (r: Vec<usize>)
    requires
        matched matches Some(m) ==> m.len() == scan_paths.len(),
    ensures
        r@ == chosen(
            strings_view(scan_paths@),
            extension@,
            match matched {
                Some(m) => Some(m@),
                None => None,
            },
            negate,
            scan_paths.len() as int,
        ),
{
    let ghost flags = match matched {
        Some(m) => Some(m@),
        None => None,
    };
    let mut r: Vec<usize> = Vec::new();
    let mut i: usize = 0;
    while i < scan_paths.len()
        invariant
            i <= scan_paths.len(),
            matched matches Some(m) ==> m.len() == scan_paths.len(),
            flags == match matched {
                Some(m) => Some(m@),
                None => None,
            },
            r@ == chosen(strings_view(scan_paths@), extension@, flags, negate, i as int),
        decreases scan_paths.len() - i,
    {
        let ok = has_extension_exec(scan_paths[i].as_str(), extension) && match matched {
            Some(m) => m[i] != negate,
            None => true,
        };
        if ok {
            r.push(i);
        }
        i += 1;
    }
    r
}

/// The indices that an add takes with the pattern itself.
pub open spec fn chosen_by_pattern(paths: Seq<Seq<char>>, ext: Seq<char>, pattern: Option<Seq<char>>, negate: bool) -> Seq<usize> {
    chosen(
        paths,
        ext,
        match pattern {
            Some(p) => Some(Seq::new(paths.len(), |i: int| pattern_matches(p, paths[i]))),
            None => None,
        },
        negate,
        paths.len() as int,
    )
}

/// Which scanned paths (relative to the scanned directory) an add takes:
/// those with the extension that the pattern, when given, matches (or,
/// with `negate`, does not match).
pub fn select_matching(
    scan_paths: &Vec<String>,
    extension: &str,
    pattern: Option<&PathPattern>,
    negate: bool,
) -> (r: Vec<usize>)
    ensures
        r@ == chosen_by_pattern(
            strings_view(scan_paths@),
            extension@,
            match pattern {
                Some(p) => Some(p.source()),
                None => None,
            },
            negate,
        ),
{
    match pattern {
        None => select_candidates(scan_paths, extension, None, negate),
        Some(p) => {
            let mut flags: Vec<bool> = Vec::new();
            let mut i: usize = 0;
            while i < scan_paths.len()
                invariant
                    i <= scan_paths.len(),
                    flags.len() == i,
                    forall|j: int|
                        0 <= j < i ==> flags@[j] == pattern_matches(
                            p.source(),
                            #[trigger] strings_view(scan_paths@)[j],
                        ),
                decreases scan_paths.len() - i,
            {
                let m = p.matches(scan_paths[i].as_str());
                flags.push(m);
                i += 1;
            }
            let ghost ps = strings_view(scan_paths@);
            assert(flags@ =~= Seq::new(ps.len(), |i: int| pattern_matches(p.source(), ps[i])));
            select_candidates(scan_paths, extension, Some(&flags), negate)
        },
    }
}

/// A delete is given exactly one of a target and an extension.
pub fn check_selector(target: Option<&str>, extension: Option<&str>) -> (r: Result<(), ProjectError>)
    ensures
        r is Ok <==> (target is Some) != (extension is Some),
{
    if target.is_some() == extension.is_some() {
        Err(ProjectError::InvalidInput {
            reason: string_of(&chars_of("give exactly one of a target and an extension")),
        })
    } else {
        Ok(())
    }
}

} // verus!
