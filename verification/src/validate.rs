//! Export path validation: every output path is checked before anything is
//! written. Traversal components are refused, absolute paths must stay under
//! the user's home or the system temp directory, and relative paths are
//! resolved against the working directory. The process shell supplies those
//! three base directories as plain strings and canonicalizes afterwards.

use vstd::prelude::*;

use crate::error::CortexError;
use crate::ext::chars_to_string;
use crate::extract::{trim_chars, trim_of};
use crate::path::{components_of, split_components};
use crate::text::chars_of;

verus! {

/// The directories validation is judged against: the user's home directory,
/// the system temp directory, and the current working directory.
pub struct PathContext {
    pub home_dir: String,
    pub temp_dir: String,
    pub current_dir: String,
}

/// Whether some component of the path walks to a parent directory.
pub open spec fn has_traversal(p: Seq<char>) -> bool {
    exists|k: int| 0 <= k < components_of(p).len() && #[trigger] components_of(p)[k] == ".."@
}

/// An absolute path: it starts at the root.
pub open spec fn is_absolute_path(p: Seq<char>) -> bool {
    p.len() > 0 && p[0] == '/'
}

/// Whether `base` is a component-wise prefix of `p`.
pub open spec fn is_path_prefix(base: Seq<char>, p: Seq<char>) -> bool {
    components_of(base).is_prefix_of(components_of(p))
}

/// Whether an absolute path lies under the home or the temp directory.
pub open spec fn abs_path_allowed(p: Seq<char>, home: Seq<char>, temp: Seq<char>) -> bool {
    is_path_prefix(home, p) || is_path_prefix(temp, p)
}

/// The path an accepted input resolves to: itself when absolute, else the
/// working directory joined with it.
pub open spec fn resolved_path(p: Seq<char>, cwd: Seq<char>) -> Seq<char> {
    if is_absolute_path(p) {
        p
    } else {
        cwd + seq!['/'] + p
    }
}

/// When an export path is accepted: not blank, free of traversal, and, when
/// absolute, under the home or the temp directory.
pub open spec fn path_accepted(p: Seq<char>, home: Seq<char>, temp: Seq<char>) -> bool {
    &&& trim_of(p).len() > 0
    &&& !has_traversal(p)
    &&& (is_absolute_path(p) ==> abs_path_allowed(p, home, temp))
}

/// The reason a rejected path carries, by the first violated rule: blank,
/// then traversal, then an absolute path outside the safe directories.
pub open spec fn rejection_reason(p: Seq<char>) -> Seq<char> {
    if trim_of(p).len() == 0 {
        "Export path cannot be empty"@
    } else if has_traversal(p) {
        "Path traversal is not allowed (..)"@
    } else {
        "Absolute paths must be within the home directory or the temp directory"@
    }
}

/// Decides whether one component list is a prefix of another.
fn components_prefix(base: &Vec<Vec<char>>, p: &Vec<Vec<char>>) -> (r: bool)
    ensures
        r == base.deep_view().is_prefix_of(p.deep_view()),
{
    if base.len() > p.len() {
        proof {
            assert(!base.deep_view().is_prefix_of(p.deep_view()));
        }
        return false;
    }
    let mut i: usize = 0;
    while i < base.len()
        invariant
            i <= base@.len() <= p@.len(),
            forall|k: int| 0 <= k < i ==> base.deep_view()[k] == p.deep_view()[k],
        decreases base@.len() - i,
    {
        proof {
            assert(base.deep_view()[i as int] =~= base@[i as int]@);
            assert(p.deep_view()[i as int] =~= p@[i as int]@);
        }
        if !crate::path::chars_eq(&base[i], &p[i]) {
            proof {
                assert(!base.deep_view().is_prefix_of(p.deep_view()));
            }
            return false;
        }
        i = i + 1;
    }
    proof {
        assert(base.deep_view() =~= p.deep_view().subrange(0, base.deep_view().len() as int));
    }
    true
}

/// Validates export output paths so that nothing is written outside safe
/// directories.
pub struct PathValidator;

impl PathValidator {
    /// Validates an export path: blank paths and traversal are refused;
    /// absolute paths must lie under the home or the temp directory; a
    /// relative path resolves against the working directory. Accepted, if
    /// and only if nothing above refuses it; the resolved path is returned.
    pub fn validate_export_path(path: &str, ctx: &PathContext) -> (r: Result<String, CortexError>)
        ensures
            r is Ok <==> path_accepted(path@, ctx.home_dir@, ctx.temp_dir@),
            r matches Ok(p) ==> p@ == resolved_path(path@, ctx.current_dir@),
            r matches Err(e) ==> e matches CortexError::InvalidPath { path: ep, reason: rr } && ep@
                == path@ && rr@ == rejection_reason(path@),
    {
        let pv = chars_of(path);
        let trimmed = trim_chars(&pv);
        if trimmed.len() == 0 {
            return Err(
                CortexError::InvalidPath {
                    path: String::from_str(path),
                    reason: String::from_str("Export path cannot be empty"),
                },
            );
        }
        let comps = split_components(&pv);
        let mut i: usize = 0;
        while i < comps.len()
            invariant
                i <= comps@.len(),
                comps.deep_view() == components_of(path@),
                trim_of(path@).len() > 0,
                forall|k: int| 0 <= k < i ==> #[trigger] components_of(path@)[k] != ".."@,
            decreases comps@.len() - i,
        {
            proof {
                assert(comps.deep_view()[i as int] =~= comps@[i as int]@);
            }
            if crate::path::chars_eq_str(&comps[i], "..") {
                proof {
                    assert(components_of(path@)[i as int] == ".."@);
                    assert(has_traversal(path@));
                }
                return Err(
                    CortexError::InvalidPath {
                        path: String::from_str(path),
                        reason: String::from_str("Path traversal is not allowed (..)"),
                    },
                );
            }
            i = i + 1;
        }
        proof {
            if has_traversal(path@) {
                let w = choose|w: int|
                    0 <= w < components_of(path@).len() && #[trigger] components_of(path@)[w]
                        == ".."@;
                assert(false);
            }
        }
        let absolute = pv.len() > 0 && pv[0] == '/';
        if absolute {
            let home = chars_of(ctx.home_dir.as_str());
            let temp = chars_of(ctx.temp_dir.as_str());
            let hc = split_components(&home);
            let tc = split_components(&temp);
            let under_home = components_prefix(&hc, &comps);
            let under_temp = components_prefix(&tc, &comps);
            if !under_home && !under_temp {
                return Err(
                    CortexError::InvalidPath {
                        path: String::from_str(path),
                        reason: String::from_str(
                            "Absolute paths must be within the home directory or the temp directory",
                        ),
                    },
                );
            }
            Ok(String::from_str(path))
        } else {
            let mut full = String::from_str(ctx.current_dir.as_str());
            full.append("/");
            full.append(path);
            proof {
                reveal_strlit("/");
                assert(full@ =~= resolved_path(path@, ctx.current_dir@));
            }
            Ok(full)
        }
    }

    /// Re-checks a canonicalized parent directory: a relative target must
    /// still lie under the working directory after links are resolved.
    pub fn confirm_canonical_parent(
        canonical_parent: &str,
        base_dir: &str,
        was_absolute: bool,
        original: &str,
    ) -> (r: Result<(), CortexError>)
        ensures
            r is Ok <==> (was_absolute || is_path_prefix(base_dir@, canonical_parent@)),
            r matches Err(e) ==> e matches CortexError::InvalidPath { path: ep, .. } && ep@
                == original@,
    {
        if was_absolute {
            return Ok(());
        }
        let cv = chars_of(canonical_parent);
        let bv = chars_of(base_dir);
        let cc = split_components(&cv);
        let bc = split_components(&bv);
        if components_prefix(&bc, &cc) {
            Ok(())
        } else {
            Err(
                CortexError::InvalidPath {
                    path: String::from_str(original),
                    reason: String::from_str("Path resolves outside of working directory"),
                },
            )
        }
    }
}

/// An accepted absolute path is a fixed point of validation: it resolves to
/// itself, and validating the resolved path accepts it again with the same
/// outcome. A rejected path is rejected again unchanged: acceptance depends
/// on the path and the base directories alone.
pub proof fn lemma_validator_fixed_point(p: Seq<char>, home: Seq<char>, temp: Seq<char>, cwd: Seq<
    char,
>)
    requires
        is_absolute_path(p),
        path_accepted(p, home, temp),
    ensures
        resolved_path(p, cwd) == p,
        path_accepted(resolved_path(p, cwd), home, temp),
{
}

} // verus!
