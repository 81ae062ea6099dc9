//! Submodules as the repository lists them.
use vstd::prelude::*;

use crate::text::{chars_of, push_all, string_of};

verus! {

/// Information about a submodule in the repository.
pub struct SubmoduleInfo {
    /// Name of the submodule (from .gitmodules).
    pub name: String,
    /// Path relative to the repository root.
    pub path: String,
    /// URL of the submodule.
    pub url: String,
    /// Branch configured for the submodule, if any.
    pub branch: Option<String>,
    /// Commit recorded in HEAD's tree (what the superproject expects).
    pub head_oid: Option<String>,
    /// Commit in the index.
    pub index_oid: Option<String>,
    /// Commit checked out in the working directory.
    pub workdir_oid: Option<String>,
    /// Whether the submodule's repository exists.
    pub is_initialized: bool,
}

/// The first submodule named `name` among `names` (`None` where a name is
/// not valid text).
pub open spec fn named_index(names: Seq<Option<String>>, name: Seq<char>, i: int) -> Option<int>
    decreases names.len() - i,
{
    if i < 0 || i >= names.len() {
        None
    } else if (names[i] matches Some(n) && n@ == name) {
        Some(i)
    } else {
        named_index(names, name, i + 1)
    }
}

/// Finds the submodule to initialise or update by name; the error says it
/// is not there.
pub fn find_submodule(names: &Vec<Option<String>>, name: &str) -> (r: Result<usize, String>)
    ensures
        match r {
            Ok(i) => named_index(names@, name@, 0) == Some(i as int),
            Err(m) => named_index(names@, name@, 0) is None && m@ == "Submodule '"@ + name@
                + "' not found"@,
        },
{
    let wanted = chars_of(name);
    let mut i: usize = 0;
    while i < names.len()
        invariant
            i <= names@.len(),
            wanted@ == name@,
            named_index(names@, name@, 0) == named_index(names@, name@, i as int),
        decreases names@.len() - i,
    {
        if let Some(n) = &names[i] {
            if crate::text::chars_eq(&chars_of(n.as_str()), &wanted) {
                return Ok(i);
            }
        }
        i = i + 1;
    }
    let mut m = chars_of("Submodule '");
    push_all(&mut m, &wanted);
    push_all(&mut m, &chars_of("' not found"));
    Err(string_of(&m))
}

/// The name a submodule is listed under: its own, or `unknown` when it has
/// none that is valid text.
pub fn submodule_name(name: Option<&str>) -> (r: String)
    ensures
        r@ == match name {
            Some(n) => n@,
            None => "unknown"@,
        },
{
    match name {
        Some(n) => string_of(&chars_of(n)),
        None => string_of(&chars_of("unknown")),
    }
}

} // verus!
