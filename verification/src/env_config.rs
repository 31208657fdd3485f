//! Paths from the environment.

use vstd::prelude::*;
use vstd::string::*;
use crate::text::chars_of;

verus! {

/// A base directory and a path below it joined with one separator. A path
/// that starts at the root replaces the base.
pub open spec fn joined(base: Seq<char>, rest: Seq<char>) -> Seq<char> {
    if rest.len() > 0 && rest[0] == '/' {
        rest
    } else if base.len() == 0 || base.last() == '/' {
        base + rest
    } else {
        base + seq!['/'] + rest
    }
}

/// Whether a path starts with `~/`.
pub open spec fn starts_at_home(path: Seq<char>) -> bool {
    path.len() >= 2 && path[0] == '~' && path[1] == '/'
}

/// A path with a leading `~/` replaced by the home directory. Other paths,
/// and every path when no home directory is known, stay as they are.
pub open spec fn expanded(path: Seq<char>, home: Option<Seq<char>>) -> Seq<char> {
    match home {
        Some(home) => if starts_at_home(path) {
            joined(home, path.subrange(2, path.len() as int))
        } else {
            path
        },
        None => path,
    }
}

/// Joins a base directory and a path below it.
pub fn join_path(base: &str, rest: &str) -> (path: String)
    ensures
        path@ == joined(base@, rest@),
{
    let base_chars: Vec<char> = chars_of(base);
    let rest_chars: Vec<char> = chars_of(rest);
    if rest_chars.len() > 0 && rest_chars[0] == '/' {
        rest.to_owned()
    } else if base_chars.len() == 0 || base_chars[base_chars.len() - 1] == '/' {
        base.to_owned().concat(rest)
    } else {
        proof {
            reveal_strlit("/");
        }
        let path: String = base.to_owned().concat("/").concat(rest);
        assert(path@ =~= base@ + seq!['/'] + rest@);
        path
    }
}

/// Expands a leading `~/` to the home directory, which the caller read from
/// the environment.
pub fn expand_path(path: &str, home: Option<&str>) -> (full: String)
    ensures
        full@ == expanded(
            path@,
            match home {
                Some(home) => Some(home@),
                None => None,
            },
        ),
{
    match home {
        Some(home) => {
            let chars: Vec<char> = chars_of(path);
            if chars.len() >= 2 && chars[0] == '~' && chars[1] == '/' {
                let rest: &str = path.substring_char(2, chars.len());
                join_path(home, rest)
            } else {
                path.to_owned()
            }
        },
        None => path.to_owned(),
    }
}

} // verus!
