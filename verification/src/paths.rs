//! Comparing and naming filesystem paths held as strings.
//!
//! How a path splits into components depends on the platform (`\` separates
//! them on Windows only), so the answers come from `std::path` and are not
//! named here; what holds on every platform is stated.
use vstd::prelude::*;

verus! {

/// Whether `p` is spelled the one way `Path` reads it on every platform:
/// not empty, no `\` and no `:` (separators or prefixes on Windows), no
/// trailing `/`, no empty component (`a//b`, or a leading `//`) and no `.`
/// component. Its components are then the parts between its `/`s, after a
/// root when it starts with `/`, and they spell it back.
pub open spec fn plain_path(p: Seq<char>) -> bool {
    &&& p.len() > 0
    &&& !p.contains('\\')
    &&& !p.contains(':')
    &&& p.last() != '/'
    &&& forall|i: int| 1 <= i < p.len() && #[trigger] p[i] == '/' ==> p[i - 1] != '/'
    &&& forall|i: int|
        0 <= i < p.len() && #[trigger] p[i] == '.' ==> !((i == 0 || p[i - 1] == '/') && (i + 1 == p.len()
            || p[i + 1] == '/'))
}

/// Whether two paths are the same path, as `Path`'s `==` compares them
/// component by component.
///
/// Claimed: two identical strings are the same path, and two plain paths
/// (see [`plain_path`]) are the same path exactly when they are the same
/// string, since their components spell them. Which other spellings compare
/// equal (`a//b` and `a/b`, say) depends on the platform and is left unsaid.
#[verifier::external_body]
pub(crate) fn same_path(a: &str, b: &str) -> (r: bool)
    ensures
        a@ == b@ ==> r,
        plain_path(a@) && plain_path(b@) ==> (r <==> a@ == b@),
{
    std::path::Path::new(a) == std::path::Path::new(b)
}

/// The index of the last `c` in `s`, or -1.
pub open spec fn last_index_of(s: Seq<char>, c: char) -> int
    decreases s.len(),
{
    if s.len() == 0 {
        -1
    } else if s.last() == c {
        s.len() - 1
    } else {
        last_index_of(s.drop_last(), c)
    }
}

/// The part of `s` after its last `/` (all of it when there is none).
pub open spec fn after_last_slash(s: Seq<char>) -> Seq<char> {
    s.skip(last_index_of(s, '/') + 1)
}

/// A character that separates path components on some platform.
pub open spec fn is_separator(c: char) -> bool {
    c == '/' || c == '\\'
}

/// Whether the final component of `path` is read the same on every
/// platform: the part after the last `/` is not empty, holds no `\` and no
/// `:` (separators or prefixes on Windows), is not `.` or `..`, and the path
/// does not start with two separators, `/` or `\` in any mix: on Windows
/// that opens a share, device or verbatim (`\\?\`) prefix, and inside a
/// verbatim path `/` is no separator.
pub open spec fn plain_final_component(path: Seq<char>) -> bool {
    let t = after_last_slash(path);
    &&& t.len() > 0
    &&& !t.contains('\\')
    &&& !t.contains(':')
    &&& t != seq!['.']
    &&& t != seq!['.', '.']
    &&& !(path.len() >= 2 && is_separator(path[0]) && is_separator(path[1]))
}

/// The final component of a path, `Path::file_name`, as a string.
///
/// Claimed: a component, when there is one, is not empty; and when the part
/// after the last `/` is a plain name (see [`plain_final_component`]), that
/// part is the component, since `/` separates components on every platform
/// outside Windows' verbatim paths, which [`plain_final_component`] leaves
/// out.
/// Where other paths split is platform-dependent and left unsaid.
#[verifier::external_body]
pub(crate) fn file_name_of(path: &str) -> (r: Option<String>)
    ensures
        r matches Some(name) ==> name@.len() > 0,
        plain_final_component(path@) ==> (r is Some && r->0@ == after_last_slash(path@)),
{
    std::path::Path::new(path).file_name().map(|name| name.to_string_lossy().into_owned())
}

/// Rewrites a share-style UNC path (`\\server\share\…`) with forward slashes
/// (`//server/share/…`), which is the form libgit2 opens. Extended-length
/// (`\\?\…`) and device (`\\.\…`) paths, and everything else, are returned
/// unchanged. Windows needs this; elsewhere a backslash is an ordinary
/// character and the rewrite is not applied: `windows` says which platform.
pub open spec fn spec_normalize_repo_path(path: Seq<char>, windows: bool) -> Seq<char> {
    if windows && path.len() >= 2 && path[0] == '\\' && path[1] == '\\' && !(path.len() > 2 && (path[2] == '?'
        || path[2] == '.')) {
        path.map_values(|c: char| if c == '\\' { '/' } else { c })
    } else {
        path
    }
}

/// See [`spec_normalize_repo_path`].
pub fn normalize_repo_path(path: &str, windows: bool) -> (r: String)
    ensures
        r@ == spec_normalize_repo_path(path@, windows),
{
    let chars = crate::text::chars_of(path);
    let n = chars.len();
    let unc = windows && n >= 2 && chars[0] == '\\' && chars[1] == '\\' && !(n > 2 && (chars[2] == '?'
        || chars[2] == '.'));
    if !unc {
        return crate::text::string_of(&chars);
    }
    let mut out: Vec<char> = Vec::new();
    let mut i: usize = 0;
    while i < n
        invariant
            n == chars@.len(),
            i <= n,
            out@ == chars@.take(i as int).map_values(|c: char| if c == '\\' { '/' } else { c }),
        decreases n - i,
    {
        let c = chars[i];
        out.push(if c == '\\' { '/' } else { c });
        assert(chars@.take(i + 1) =~= chars@.take(i as int).push(c));
        assert(out@ =~= chars@.take(i + 1).map_values(|c: char| if c == '\\' { '/' } else { c }));
        i = i + 1;
    }
    assert(chars@.take(n as int) =~= chars@);
    crate::text::string_of(&out)
}

} // verus!
