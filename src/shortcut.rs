//! Shortcuts: a shell variable name and the directory it stands for.
use vstd::prelude::*;

use crate::alias::{compact_home, substituted, Root};
use crate::classify::{
    child_name_of, file_name, parent_name, parent_name_of, PathKind,
};
use crate::error::ShortcutError;

verus! {

/// The variable name made from a directory name: the name with every `-` removed.
pub open spec fn shell_name(n: Seq<char>) -> Seq<char> {
    n.filter(|c: char| c != '-')
}

/// The value of a shortcut: for a standard one, its parent's variable with
/// the child's name after it; for a home-relative one, the path text itself.
pub open spec fn env_value(kind: PathKind, parent: Seq<char>, child: Seq<char>) -> Seq<char> {
    match kind {
        PathKind::Standard => seq!['$'] + parent + seq!['/'] + child,
        PathKind::Environment => parent,
    }
}

/// A named shell variable that stands for a directory.
pub struct Shortcut {
    pub name: String,
    pub parent: String,
    pub child: String,
    pub kind: PathKind,
}

/// The value that a shortcut is exported with.
pub trait ToEnv {
    spec fn env_view(&self) -> Seq<char>;

    fn to_env_path(&self) -> (r: String)
        ensures
            r@ == self.env_view(),
    ;
}

impl ToEnv for Shortcut {
    open spec fn env_view(&self) -> Seq<char> {
        env_value(self.kind, self.parent@, self.child@)
    }

    fn to_env_path(&self) -> (r: String) {
        match self.kind {
            PathKind::Standard => {
                let mut v = "$".to_owned();
                v.append(self.parent.as_str());
                v.append("/");
                v.append(self.child.as_str());
                proof {
                    reveal_strlit("$");
                    reveal_strlit("/");
                }
                assert(v@ =~= env_value(self.kind, self.parent@, self.child@));
                v
            },
            PathKind::Environment => self.parent.clone(),
        }
    }
}

/// Whether a directory found under the root can be given a shortcut: it has
/// a name, and so has its parent.
pub open spec fn makes_child_shortcut(p: Seq<char>) -> bool {
    file_name(p) is Some && parent_name(p) is Some
}

/// `s` is the standard shortcut for directory `p`.
pub open spec fn is_child_shortcut(s: Shortcut, p: Seq<char>) -> bool {
    &&& s.kind == PathKind::Standard
    &&& s.child@ == file_name(p)->0
    &&& s.parent@ == parent_name(p)->0
    &&& s.name@ == shell_name(file_name(p)->0)
}

/// The root as its shortcut shows it: with the home directory compacted to
/// `alias` where the root lies under `home`, as given otherwise.
pub open spec fn root_shown(resolved: Seq<char>, home: Seq<char>, alias: Seq<char>) -> Seq<char> {
    match substituted(resolved, home, alias) {
        Some(v) => v.0,
        None => resolved,
    }
}

/// `s` is the home-relative shortcut for the root shown as `shown`.
pub open spec fn is_root_shortcut(s: Shortcut, shown: Seq<char>) -> bool {
    &&& s.kind == PathKind::Environment
    &&& s.parent@ == shown
    &&& s.child@ == file_name(shown)->0
    &&& s.name@ == shell_name(file_name(shown)->0)
}

/// The variable name for directory name `s`.
pub fn remove_dashes(s: &str) -> (r: String)
    ensures
        r@ == shell_name(s@),
{
    let n = s.unicode_len();
    let mut out = String::new();
    let mut start: usize = 0;
    let mut i: usize = 0;
    proof {
        reveal(Seq::filter);
        assert(s@.subrange(0, 0) =~= Seq::<char>::empty());
        assert(out@ + s@.subrange(0, 0) =~= Seq::<char>::empty());
    }
    while i < n
        invariant
            n == s@.len(),
            start <= i <= n,
            out@ + s@.subrange(start as int, i as int) == shell_name(s@.subrange(0, i as int)),
        decreases n - i,
    {
        let c = s.get_char(i);
        let ghost pre = s@.subrange(0, i as int);
        let ghost old_out = out@;
        proof {
            reveal(Seq::filter);
            assert(s@.subrange(0, i + 1).drop_last() =~= pre);
            assert(s@.subrange(0, i + 1).last() == c);
        }
        if c == '-' {
            out.append(s.substring_char(start, i));
            assert(out@ + s@.subrange(i + 1, i + 1) =~= old_out + s@.subrange(
                start as int,
                i as int,
            ));
            start = i + 1;
        } else {
            assert(out@ + s@.subrange(start as int, i + 1) =~= (old_out + s@.subrange(
                start as int,
                i as int,
            )).push(c));
        }
        i = i + 1;
    }
    out.append(s.substring_char(start, n));
    assert(s@.subrange(0, n as int) =~= s@);
    out
}

/// The standard shortcuts for the directories found under the root, in the
/// order they were found.
pub fn to_shortcuts(folders: Vec<String>) -> (r: Vec<Shortcut>)
    requires
        forall|i: int| 0 <= i < folders.len() ==> makes_child_shortcut(#[trigger] folders[i]@),
    ensures
        r.len() == folders.len(),
        forall|i: int| 0 <= i < folders.len() ==> is_child_shortcut(#[trigger] r[i], folders[i]@),
{
    let mut out: Vec<Shortcut> = Vec::new();
    let mut k: usize = 0;
    while k < folders.len()
        invariant
            k <= folders.len(),
            out.len() == k,
            forall|i: int| 0 <= i < folders.len() ==> makes_child_shortcut(#[trigger] folders[i]@),
            forall|i: int| 0 <= i < k ==> is_child_shortcut(#[trigger] out[i], folders[i]@),
        decreases folders.len() - k,
    {
        let fp = folders[k].as_str();
        assert(makes_child_shortcut(folders[k as int]@));
        let child = match child_name_of(fp) {
            Some(c) => c,
            None => String::new(),
        };
        let parent = match parent_name_of(fp) {
            Some(p) => p,
            None => String::new(),
        };
        let name = remove_dashes(child.as_str());
        out.push(Shortcut { name, parent, child, kind: PathKind::Standard });
        k = k + 1;
    }
    out
}

/// The shortcut for the root, shown with its home directory compacted to
/// `alias` where it lies under `home`; fails where what is shown has no name.
pub fn root_shortcut(resolved: &str, home: &str, alias: &str) -> (r: Result<Shortcut, ShortcutError>)
    ensures
        match r {
            Ok(s) => {
                &&& file_name(root_shown(resolved@, home@, alias@)) is Some
                &&& is_root_shortcut(s, root_shown(resolved@, home@, alias@))
            },
            Err(e) => {
                &&& file_name(root_shown(resolved@, home@, alias@)) is None
                &&& e == ShortcutError::NoDirectoryName
            },
        },
{
    let root = Root { root: resolved.to_owned() };
    let shown = match compact_home(&root, home, alias.to_owned()) {
        Some(v) => v.0,
        None => root.root,
    };
    match child_name_of(shown.as_str()) {
        Some(child) => {
            let name = remove_dashes(child.as_str());
            Ok(Shortcut { name, parent: shown, child, kind: PathKind::Environment })
        },
        None => Err(ShortcutError::NoDirectoryName),
    }
}

/// Whether `fp` can be given a standard shortcut.
fn has_shortcut_names(fp: &str) -> (r: bool)
    ensures
        r == makes_child_shortcut(fp@),
{
    child_name_of(fp).is_some() && parent_name_of(fp).is_some()
}

/// The root's shortcut followed by those of the directories found under it;
/// fails where the root or one of the directories has no name to give.
pub fn build_shortcuts(resolved: &str, home: &str, alias: &str, folders: Vec<String>) -> (r: Result<
    Vec<Shortcut>,
    ShortcutError,
>)
    ensures
        r is Ok <==> (file_name(root_shown(resolved@, home@, alias@)) is Some && forall|i: int|
            0 <= i < folders.len() ==> makes_child_shortcut(#[trigger] folders[i]@)),
        r is Err ==> r->Err_0 == ShortcutError::NoDirectoryName,
        r is Ok ==> {
            let v = r->Ok_0;
            &&& v.len() == folders.len() + 1
            &&& is_root_shortcut(v[0], root_shown(resolved@, home@, alias@))
            &&& forall|i: int|
                0 <= i < folders.len() ==> is_child_shortcut(#[trigger] v[i + 1], folders[i]@)
        },
{
    let root = match root_shortcut(resolved, home, alias) {
        Ok(s) => s,
        Err(e) => return Err(e),
    };
    let mut k: usize = 0;
    while k < folders.len()
        invariant
            k <= folders.len(),
            forall|i: int| 0 <= i < k ==> makes_child_shortcut(#[trigger] folders[i]@),
        decreases folders.len() - k,
    {
        if !has_shortcut_names(folders[k].as_str()) {
            return Err(ShortcutError::NoDirectoryName);
        }
        k = k + 1;
    }
    let ghost fs = folders@;
    let mut children = to_shortcuts(folders);
    let mut all: Vec<Shortcut> = Vec::new();
    all.push(root);
    let ghost made = children@;
    all.append(&mut children);
    assert forall|i: int| 0 <= i < fs.len() implies is_child_shortcut(#[trigger] all[i + 1], fs[i]@) by {
        assert(all@[i + 1] == made[i]);
    }
    Ok(all)
}

} // verus!
