//! Which kind of shortcut a path makes, and the names that a shortcut is built from.
use vstd::prelude::*;

use crate::alias::{braced_home, dollar_home, tilde};
use crate::path::{
    components, parse_components, path_starts_with, root_dir, texts,
};

verus! {

/// How a shortcut's value is written: through the variable of its parent
/// directory, or as literal path text.
#[derive(Clone, Copy, Debug, PartialEq, Eq, Structural)]
pub enum PathKind {
    Standard,
    Environment,
}

/// Whether path text starts with one of the home aliases.
pub open spec fn has_alias_prefix(p: Seq<char>) -> bool {
    path_starts_with(p, tilde()) || path_starts_with(p, dollar_home()) || path_starts_with(
        p,
        braced_home(),
    )
}

/// A path is home-relative when a home directory is known and the path starts
/// with an alias of it.
pub open spec fn kind_of(p: Seq<char>, home_known: bool) -> PathKind {
    if home_known && has_alias_prefix(p) {
        PathKind::Environment
    } else {
        PathKind::Standard
    }
}

/// A component that names a directory: not the root, `.` or `..`.
pub open spec fn is_dir_name(n: Seq<char>) -> bool {
    n != root_dir() && n != seq!['.'] && n != seq!['.', '.']
}

/// The last component of a path, where it names a directory.
pub open spec fn file_name(p: Seq<char>) -> Option<Seq<char>> {
    let c = components(p);
    if c.len() > 0 && is_dir_name(c.last()) {
        Some(c.last())
    } else {
        None
    }
}

/// The name of a path's parent directory: its component before the last,
/// where that names a directory.
pub open spec fn parent_name(p: Seq<char>) -> Option<Seq<char>> {
    let c = components(p);
    if c.len() > 1 && is_dir_name(c[c.len() - 2]) {
        Some(c[c.len() - 2])
    } else {
        None
    }
}

pub open spec fn text_view(o: Option<String>) -> Option<Seq<char>> {
    match o {
        Some(s) => Some(s@),
        None => None,
    }
}

/// The kind of shortcut that `fp` makes, given whether a home directory is known.
pub fn path_variant(fp: &str, home_known: bool) -> (r: PathKind)
    ensures
        r == kind_of(fp@, home_known),
{
    proof {
        reveal_strlit("~");
        reveal_strlit("$HOME");
        reveal_strlit("${HOME}");
    }
    assert("~"@ =~= tilde());
    assert("$HOME"@ =~= dollar_home());
    assert("${HOME}"@ =~= braced_home());
    if home_known && (crate::path::starts_with_path(fp, "~") || crate::path::starts_with_path(
        fp,
        "$HOME",
    ) || crate::path::starts_with_path(fp, "${HOME}")) {
        PathKind::Environment
    } else {
        PathKind::Standard
    }
}

/// The kind of shortcut that `fp` makes, asking the environment whether a
/// home directory is known.
pub fn get_path_variant(fp: &str) -> (r: PathKind)
    ensures
        r == kind_of(fp@, true) || r == kind_of(fp@, false),
        !has_alias_prefix(fp@) ==> r == PathKind::Standard,
{
    let home = crate::alias::home_dir_text();
    path_variant(fp, home.is_some())
}

fn is_dir_name_text(n: &String) -> (r: bool)
    ensures
        r == is_dir_name(n@),
{
    let len = n.unicode_len();
    if len == 1 {
        let c = n.get_char(0);
        if c == '/' {
            assert(n@ =~= root_dir());
            false
        } else if c == '.' {
            assert(n@ =~= seq!['.']);
            false
        } else {
            assert(n@ != root_dir() && n@ != seq!['.'] && n@ != seq!['.', '.']) by {
                assert(root_dir()[0] == '/');
                assert(seq!['.'][0] == '.');
            }
            true
        }
    } else if len == 2 {
        if n.get_char(0) == '.' && n.get_char(1) == '.' {
            assert(n@ =~= seq!['.', '.']);
            false
        } else {
            assert(n@ != seq!['.', '.']) by {
                let d = seq!['.', '.'];
                assert(d[0] == '.' && d[1] == '.');
            }
            true
        }
    } else {
        true
    }
}

/// The last component of `fp`, where it names a directory.
pub fn child_name_of(fp: &str) -> (r: Option<String>)
    ensures
        text_view(r) == file_name(fp@),
{
    let mut c = parse_components(fp);
    let n = c.len();
    if n == 0 {
        return None;
    }
    assert(texts(c@)[n - 1] == c@[n - 1]@);
    if !is_dir_name_text(&c[n - 1]) {
        return None;
    }
    let last = c.remove(n - 1);
    Some(last)
}

/// The component of `fp` before its last, where it names a directory.
pub fn parent_name_of(fp: &str) -> (r: Option<String>)
    ensures
        text_view(r) == parent_name(fp@),
{
    let mut c = parse_components(fp);
    let n = c.len();
    if n < 2 {
        return None;
    }
    assert(texts(c@)[n - 2] == c@[n - 2]@);
    if !is_dir_name_text(&c[n - 2]) {
        return None;
    }
    let name = c.remove(n - 2);
    Some(name)
}

/// The name of the directory that holds `fp`.
pub fn convert_parent_path(fp: &str) -> (r: String)
    requires
        parent_name(fp@) is Some,
    ensures
        r@ == parent_name(fp@)->0,
{
    match parent_name_of(fp) {
        Some(name) => name,
        None => String::new(),
    }
}

/// The name of the directory `fp` itself.
pub fn convert_child_path(fp: &str) -> (r: String)
    requires
        file_name(fp@) is Some,
    ensures
        r@ == file_name(fp@)->0,
{
    match child_name_of(fp) {
        Some(name) => name,
        None => String::new(),
    }
}

} // verus!
