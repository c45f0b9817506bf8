//! Judging a file: the file-type filter, the known audio extensions, the tag probe.

use vstd::prelude::*;
use crate::text::{chars_of, to_upper, upper_of};
use crate::tree::Class;

verus! {

#[verifier::external_type_specification]
#[verifier::external_body]
pub struct ExPattern(glob::Pattern);

#[verifier::external_type_specification]
#[verifier::external_body]
pub struct ExPatternError(glob::PatternError);

/// Whether `glob::Pattern::new` accepts a pattern.
pub uninterp spec fn glob_valid(pattern: Seq<char>) -> bool;

/// Whether the glob pattern matches a name, as `glob::Pattern::matches` decides.
pub uninterp spec fn glob_match(pattern: Seq<char>, name: Seq<char>) -> bool;

/// A compiled glob pattern with the text it was compiled from.
pub struct GlobFilter {
    text: String,
    pattern: glob::Pattern,
}

impl GlobFilter {
    pub closed spec fn text(&self) -> Seq<char> {
        self.text@
    }
}

/// Relies on `glob::Pattern::new`: compiles `text`, and fails exactly on an
/// invalid pattern.
#[verifier::external_body]
fn compile_glob(text: String) -> (r: Result<GlobFilter, glob::PatternError>)
    ensures
        r is Ok <==> glob_valid(text@),
        r matches Ok(g) ==> g.text() == text@,
{
    match glob::Pattern::new(&text) {
        Ok(pattern) => Ok(GlobFilter { text, pattern }),
        Err(e) => Err(e),
    }
}

/// Relies on `glob::Pattern::matches` with the pattern compiled from the filter's text.
#[verifier::external_body]
fn glob_accepts(g: &GlobFilter, name: &str) -> (r: bool)
    ensures
        r == glob_match(g.text(), name@),
{
    g.pattern.matches(name)
}

/// The file-type filter: none, a plain extension, or a glob pattern on file names.
pub enum Filter {
    Any,
    Ext(String),
    Glob(GlobFilter),
}

/// Why a file-type filter was refused.
#[derive(PartialEq, Eq, Structural, Clone, Copy, Debug)]
pub enum FilterError {
    /// The argument reads as a glob pattern, but not a valid one.
    BadPattern,
}

/// An argument is taken for a glob pattern when it holds `*`, `[`, `]` or `?`.
pub open spec fn looks_like_glob(arg: Seq<char>) -> bool {
    exists|i: int| 0 <= i < arg.len() && (arg[i] == '*' || arg[i] == '[' || arg[i] == ']' || arg[i] == '?')
}

/// Index of the last `.` of `s`, or -1.
pub open spec fn last_dot(s: Seq<char>) -> int
    decreases s.len(),
{
    if s.len() == 0 {
        -1
    } else if s.last() == '.' {
        s.len() - 1
    } else {
        last_dot(s.drop_last())
    }
}

/// The extension of a file name, as `Path::extension` gives it: what follows the
/// last dot, unless the name has no dot but at its start (or is `..`).
pub open spec fn file_ext(name: Seq<char>) -> Option<Seq<char>> {
    let i = last_dot(name);
    if name == seq!['.', '.'] || i <= 0 {
        None
    } else {
        Some(name.skip(i + 1))
    }
}

/// `s` without its dots.
pub open spec fn without_dots(s: Seq<char>) -> Seq<char>
    decreases s.len(),
{
    if s.len() == 0 {
        s
    } else if s.last() == '.' {
        without_dots(s.drop_last())
    } else {
        without_dots(s.drop_last()).push(s.last())
    }
}

/// The file name has extension `ext`, case aside and dots in `ext` ignored.
pub open spec fn has_ext(name: Seq<char>, ext: Seq<char>) -> bool {
    file_ext(upper_of(name)) == Some(without_dots(upper_of(ext)))
}

/// One of the known audio extensions.
pub open spec fn known_audio_ext(name: Seq<char>) -> bool {
    ||| has_ext(name, "MP3"@)
    ||| has_ext(name, "OGG"@)
    ||| has_ext(name, "M4A"@)
    ||| has_ext(name, "M4B"@)
    ||| has_ext(name, "OPUS"@)
    ||| has_ext(name, "WMA"@)
    ||| has_ext(name, "FLAC"@)
    ||| has_ext(name, "APE"@)
    ||| has_ext(name, "WAV"@)
}

/// The filter lets the file name through.
pub open spec fn pattern_ok(filter: Filter, name: Seq<char>) -> bool {
    match filter {
        Filter::Any => true,
        Filter::Ext(e) => has_ext(name, e@),
        Filter::Glob(g) => glob_match(g.text(), name),
    }
}

/// How a file is judged: the filter first, then the extension, then whether its
/// tags could be read.
pub open spec fn classified(filter: Filter, name: Seq<char>, tags_readable: bool) -> Class {
    if !pattern_ok(filter, name) || !known_audio_ext(name) {
        Class::Ignored
    } else if tags_readable {
        Class::Audio
    } else {
        Class::Suspicious
    }
}

impl Filter {
    /// The filter for a file-type argument: none without one, a glob pattern when
    /// it looks like one, else an extension.
    pub fn from_arg(arg: Option<String>) -> (r: Result<Filter, FilterError>)
        ensures
            arg is None ==> r matches Ok(Filter::Any),
            arg matches Some(e) ==> (!looks_like_glob(e@) ==> (r matches Ok(Filter::Ext(x)) && x@
                == e@)),
            arg matches Some(e) ==> (looks_like_glob(e@) ==> (r is Ok <==> glob_valid(e@))),
            arg matches Some(e) ==> (looks_like_glob(e@) ==> (r matches Ok(f) ==> (
            f matches Filter::Glob(g) && g.text() == e@))),
            r matches Err(x) ==> x == FilterError::BadPattern,
    {
        match arg {
            None => Ok(Filter::Any),
            Some(e) => {
                let v = chars_of(e.as_str());
                let mut i: usize = 0;
                let mut glob = false;
                while i < v.len()
                    invariant
                        v@ == e@,
                        i <= v@.len(),
                        glob == exists|k: int|
                            0 <= k < i && (v@[k] == '*' || v@[k] == '[' || v@[k] == ']' || v@[k]
                                == '?'),
                    decreases v.len() - i,
                {
                    let c = v[i];
                    if c == '*' || c == '[' || c == ']' || c == '?' {
                        glob = true;
                    }
                    i = i + 1;
                }
                if glob {
                    match compile_glob(e) {
                        Ok(g) => Ok(Filter::Glob(g)),
                        Err(_) => Err(FilterError::BadPattern),
                    }
                } else {
                    Ok(Filter::Ext(e))
                }
            },
        }
    }
}

fn last_dot_index(v: &Vec<char>) -> (r: Option<usize>)
    ensures
        r matches Some(i) ==> i == last_dot(v@) && i < v@.len(),
        r is None ==> last_dot(v@) == -1,
{
    let mut j = v.len();
    assert(v@.take(v@.len() as int) =~= v@);
    while j > 0
        invariant
            j <= v@.len(),
            last_dot(v@) == last_dot(v@.take(j as int)),
        decreases j,
    {
        assert(v@.take(j as int).drop_last() =~= v@.take(j - 1));
        if v[j - 1] == '.' {
            return Some(j - 1);
        }
        j = j - 1;
    }
    None
}

/// The extension of the file name `v`, if it has one.
pub fn ext_chars(v: &Vec<char>) -> (r: Option<Vec<char>>)
    ensures
        r matches Some(x) ==> file_ext(v@) == Some(x@),
        r is None ==> file_ext(v@) is None,
{
    assert(v@.take(v@.len() as int) =~= v@);
    if v.len() == 2 && v[0] == '.' && v[1] == '.' {
        assert(v@ =~= seq!['.', '.']);
        return None;
    }
    assert(v@ != seq!['.', '.']);
    match last_dot_index(v) {
        None => None,
        Some(i) => {
            if i == 0 {
                None
            } else {
                let mut r: Vec<char> = Vec::new();
                let mut k = i + 1;
                while k < v.len()
                    invariant
                        i < k <= v@.len(),
                        r@ == v@.subrange(i + 1, k as int),
                    decreases v.len() - k,
                {
                    r.push(v[k]);
                    k = k + 1;
                    assert(r@ =~= v@.subrange(i + 1, k as int));
                }
                assert(r@ =~= v@.skip(i + 1));
                Some(r)
            }
        },
    }
}

fn remove_dots(v: &Vec<char>) -> (r: Vec<char>)
    ensures
        r@ == without_dots(v@),
{
    let mut r: Vec<char> = Vec::new();
    let mut k: usize = 0;
    while k < v.len()
        invariant
            k <= v@.len(),
            r@ == without_dots(v@.take(k as int)),
        decreases v.len() - k,
    {
        assert(v@.take(k + 1).drop_last() =~= v@.take(k as int));
        if v[k] != '.' {
            r.push(v[k]);
        }
        k = k + 1;
    }
    assert(v@.take(k as int) =~= v@);
    r
}

fn same_chars(a: &Vec<char>, b: &Vec<char>) -> (r: bool)
    ensures
        r == (a@ == b@),
{
    if a.len() != b.len() {
        return false;
    }
    let mut i: usize = 0;
    while i < a.len()
        invariant
            a@.len() == b@.len(),
            i <= a@.len(),
            forall|k: int| 0 <= k < i ==> a@[k] == b@[k],
        decreases a.len() - i,
    {
        if a[i] != b[i] {
            return false;
        }
        i = i + 1;
    }
    assert(a@ =~= b@);
    true
}

/// Whether the file name has extension `ext`, both already in upper case;
/// dots in `ext` are ignored.
pub fn ext_matches(upper_name: &str, upper_ext: &str) -> (r: bool)
    ensures
        r == (file_ext(upper_name@) == Some(without_dots(upper_ext@))),
{
    let p = chars_of(upper_name);
    let e = remove_dots(&chars_of(upper_ext));
    match ext_chars(&p) {
        None => false,
        Some(x) => same_chars(&x, &e),
    }
}

/// Whether the file name has extension `ext`, case aside; dots in `ext` are ignored.
pub fn has_ext_of(name: &str, ext: &str) -> (r: bool)
    ensures
        r == has_ext(name@, ext@),
{
    ext_matches(to_upper(name).as_str(), to_upper(ext).as_str())
}

/// Whether the file name has one of the known audio extensions.
pub fn is_audiofile_ext(name: &str) -> (r: bool)
    ensures
        r == known_audio_ext(name@),
{
    has_ext_of(name, "MP3") || has_ext_of(name, "OGG") || has_ext_of(name, "M4A") || has_ext_of(
        name,
        "M4B",
    ) || has_ext_of(name, "OPUS") || has_ext_of(name, "WMA") || has_ext_of(name, "FLAC")
        || has_ext_of(name, "APE") || has_ext_of(name, "WAV")
}

/// Whether the filter lets the file name through.
pub fn is_pattern_ok(filter: &Filter, name: &str) -> (r: bool)
    ensures
        r == pattern_ok(*filter, name@),
{
    match filter {
        Filter::Any => true,
        Filter::Ext(e) => has_ext_of(name, e.as_str()),
        Filter::Glob(g) => glob_accepts(g, name),
    }
}

/// Whether the file's tags need to be probed: only a file the filter lets
/// through and with a known audio extension can be a track.
pub fn needs_probe(filter: &Filter, name: &str) -> (r: bool)
    ensures
        r == (pattern_ok(*filter, name@) && known_audio_ext(name@)),
{
    is_pattern_ok(filter, name) && is_audiofile_ext(name)
}

/// Judges a file from its name and, where it was probed, whether its tags
/// could be read.
pub fn classify(filter: &Filter, name: &str, tags_readable: bool) -> (r: Class)
    ensures
        r == classified(*filter, name@, tags_readable),
{
    if !needs_probe(filter, name) {
        Class::Ignored
    } else if tags_readable {
        Class::Audio
    } else {
        Class::Suspicious
    }
}

} // verus!
