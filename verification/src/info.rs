//! What the server says of itself.

use crate::config::AuthMode;
use vstd::prelude::*;
use vstd::string::*;

verus! {

/// What the server says of itself.
#[derive(Debug, Clone)]
pub struct AppInfo {
    pub version: String,
    /// Which of the two programs answers.
    pub head: String,
    pub can_pause_process: bool,
    pub auth_required: bool,
    /// The folders that the file browser may start from.
    pub browse_roots: Vec<String>,
}

/// A root as it is shown: resolved, or as it was configured if it is not there (yet).
pub open spec fn shown_root(configured: Seq<char>, resolved: Option<String>) -> Seq<char> {
    match resolved {
        Some(r) => r@,
        None => configured,
    }
}

/// What the server says of itself. `resolved` are the roots as they stand on disk, where they do.
pub fn app_info(
    version: &str,
    unix: bool,
    auth: &AuthMode,
    roots: &Vec<String>,
    resolved: &Vec<Option<String>>,
) -> (r: AppInfo)
    requires
        resolved.len() == roots.len(),
    ensures
        r.version@ == version@,
        r.head@ == "server"@,
        r.can_pause_process == unix,
        r.auth_required == !(auth is Open),
        r.browse_roots.len() == roots.len(),
        forall|i: int|
            0 <= i < roots.len() ==> (#[trigger] r.browse_roots@[i])@ == shown_root(
                roots@[i]@,
                resolved@[i],
            ),
{
    let mut shown: Vec<String> = Vec::new();
    let mut i: usize = 0;
    while i < roots.len()
        invariant
            i <= roots.len() == resolved.len(),
            shown.len() == i,
            forall|j: int|
                0 <= j < i ==> (#[trigger] shown@[j])@ == shown_root(roots@[j]@, resolved@[j]),
        decreases roots.len() - i,
    {
        match &resolved[i] {
            Some(r) => shown.push(r.clone()),
            None => shown.push(roots[i].clone()),
        }
        i = i + 1;
    }
    AppInfo {
        version: version.to_owned(),
        head: "server".to_owned(),
        can_pause_process: unix,
        auth_required: match auth {
            AuthMode::Open => false,
            AuthMode::Token(_) => true,
        },
        browse_roots: shown,
    }
}

/// A root is shown as it stands on disk; one that is not there yet is shown as it was configured.
pub proof fn roots_are_shown_as_they_stand(configured: Seq<char>, resolved: String)
    ensures
        shown_root(configured, Some(resolved)) == resolved@,
        shown_root(configured, None) == configured,
{
}


} // verus!
