//! Paths: `~` expansion and the fixed clone target.

use crate::config::HomeDirError;
use crate::text::{push_chars, str_chars, string_from_chars};
use vstd::prelude::*;

verus! {

/// Whether a path names the home directory: `~` alone, or `~/` and a rest.
/// A name that merely begins with a tilde, such as `~backup`, does not.
pub open spec fn tilde_prefixed(p: Seq<char>) -> bool {
    p.len() >= 1 && p[0] == '~' && (p.len() == 1 || p[1] == '/')
}

/// A directory and a relative path joined with a single separator.
pub open spec fn join_path(h: Seq<char>, rel: Seq<char>) -> Seq<char> {
    if h.len() > 0 && h[h.len() - 1] == '/' {
        h + rel
    } else {
        h + seq!['/'] + rel
    }
}

/// What `~` expansion yields for a path, given the home directory where one
/// is known: a path without the tilde prefix is kept as it is; `~` alone
/// becomes the home directory; `~/rest` becomes the home directory joined
/// with the rest; and `None` where the expansion needs a home directory
/// that is not there.
pub open spec fn expand_spec(p: Seq<char>, home: Option<Seq<char>>) -> Option<Seq<char>> {
    if !tilde_prefixed(p) {
        Some(p)
    } else {
        match home {
            None => None,
            Some(h) => if p.len() == 1 {
                Some(h)
            } else {
                Some(join_path(h, p.skip(2)))
            },
        }
    }
}

/// The home directory an `Option<&str>` argument stands for.
pub open spec fn home_view(home: Option<&str>) -> Option<Seq<char>> {
    match home {
        None => None,
        Some(h) => Some(h@),
    }
}

/// Expands a leading `~` against the given home directory; a path without
/// one is returned unchanged, and a path that needs a home directory fails
/// when none is given.
pub fn expand_home_with(path: &str, home: Option<&str>) -> (r: Result<String, HomeDirError>)
    ensures
        r matches Ok(out) ==> expand_spec(path@, home_view(home)) == Some(out@),
        r matches Err(e) ==> expand_spec(path@, home_view(home)) is None && e == HomeDirError,
{
    let p = str_chars(path);
    let tilde = p.len() >= 1 && p[0] == '~' && (p.len() == 1 || p[1] == '/');
    if !tilde {
        let out = path.to_owned();
        return Ok(out);
    }
    match home {
        None => Err(HomeDirError),
        Some(h) => {
            let hc = str_chars(h);
            if p.len() == 1 {
                return Ok(string_from_chars(&hc));
            }
            let mut out: Vec<char> = Vec::new();
            push_chars(&mut out, &hc);
            if hc.len() == 0 || hc[hc.len() - 1] != '/' {
                out.push('/');
            }
            let ghost base = out@;
            proof {
                assert(base + p@.subrange(2, 2) =~= base);
            }
            let mut i: usize = 2;
            while i < p.len()
                invariant
                    2 <= i <= p@.len(),
                    out@ == base + p@.subrange(2, i as int),
                decreases p@.len() - i,
            {
                out.push(p[i]);
                proof {
                    assert(out@ =~= base + p@.subrange(2, i + 1));
                }
                i = i + 1;
            }
            proof {
                assert(p@.subrange(2, p@.len() as int) =~= p@.skip(2));
                assert(out@ =~= join_path(h@, p@.skip(2)));
            }
            Ok(string_from_chars(&out))
        },
    }
}

/// Relies on dirs::home_dir: the user's home directory, where the platform
/// knows one that is representable in UTF-8. The result depends on the
/// environment, so nothing is promised of it.
#[verifier::external_body]
fn os_home_dir() -> Option<String> {
    dirs::home_dir().and_then(|p| p.to_str().map(|s| s.to_owned()))
}

/// Expands a leading `~` against the home directory the platform reports.
/// A path without one never needs the home directory and is returned
/// unchanged; the expansion fails only on a tilde-prefixed path with no
/// home directory to put in its place.
pub fn expand_home(path: &str) -> (r: Result<String, HomeDirError>)
    ensures
        !tilde_prefixed(path@) ==> (r matches Ok(out) && out@ == path@),
        r matches Ok(out) ==> (exists|h: Option<Seq<char>>|
            expand_spec(path@, h) == Some(out@)),
        r matches Err(e) ==> tilde_prefixed(path@) && e == HomeDirError,
{
    let home = os_home_dir();
    let home_ref = match &home {
        Some(h) => Some(h.as_str()),
        None => None,
    };
    let r = expand_home_with(path, home_ref);
    proof {
        match &r {
            Ok(out) => {
                assert(expand_spec(path@, home_view(home_ref)) == Some(out@));
            },
            Err(_) => {},
        }
    }
    r
}

/// The name of the directory the repository is cloned into.
pub open spec fn repo_dir_name() -> Seq<char> {
    seq!['.', 'd', 'o', 't', 'f', 'i', 'l', 'e', 's', '_', 'r', 'e', 'p', 'o']
}

/// The fixed clone target: the tool's one managed clone lives in a single
/// slot directly under the home directory.
pub fn repo_clone_path(home: &str) -> (r: String)
    ensures
        r@ == join_path(home@, repo_dir_name()),
{
    let hc = str_chars(home);
    let mut out: Vec<char> = Vec::new();
    push_chars(&mut out, &hc);
    if hc.len() == 0 || hc[hc.len() - 1] != '/' {
        out.push('/');
    }
    let name = str_chars(".dotfiles_repo");
    proof {
        reveal_strlit(".dotfiles_repo");
        assert(name@ =~= repo_dir_name());
    }
    push_chars(&mut out, &name);
    proof {
        assert(out@ =~= join_path(home@, repo_dir_name()));
    }
    string_from_chars(&out)
}

} // verus!
