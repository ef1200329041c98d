//! Home-directory aliases: `~`, `$HOME` and `${HOME}` at the start of a path,
//! expanded to the home directory and compacted back.
use vstd::prelude::*;

use crate::error::ShortcutError;
use crate::path::{
    components, is_name, is_normal, join_components, lemma_components_of_text,
    lemma_components_well_formed, path_starts_with, path_text, replace_prefix,
    replace_prefix_text, root_dir, starts_with_path, well_formed,
};

verus! {

pub open spec fn tilde() -> Seq<char> {
    seq!['~']
}

pub open spec fn dollar_home() -> Seq<char> {
    seq!['$', 'H', 'O', 'M', 'E']
}

pub open spec fn braced_home() -> Seq<char> {
    seq!['$', '{', 'H', 'O', 'M', 'E', '}']
}

/// The aliases of the home directory that a path may start with.
pub open spec fn is_home_alias(a: Seq<char>) -> bool {
    a == tilde() || a == dollar_home() || a == braced_home()
}

/// A path together with the prefix that was replaced to make it.
pub open spec fn span_view(sp: Option<(String, String)>) -> Option<(Seq<char>, Seq<char>)> {
    match sp {
        Some(v) => Some((v.0@, v.1@)),
        None => None,
    }
}

/// `p` with its prefix `base` replaced by `replacement`, paired with `base`;
/// nothing where `p` does not start with `base`.
pub open spec fn substituted(p: Seq<char>, base: Seq<char>, replacement: Seq<char>) -> Option<
    (Seq<char>, Seq<char>),
> {
    if path_starts_with(p, base) {
        Some((replace_prefix(p, base, replacement), base))
    } else {
        None
    }
}

/// `p` with its leading home alias, tried in the order `~`, `$HOME`, `${HOME}`,
/// replaced by `home`; nothing where it starts with none of them.
pub open spec fn expanded(p: Seq<char>, home: Seq<char>) -> Option<(Seq<char>, Seq<char>)> {
    if path_starts_with(p, tilde()) {
        substituted(p, tilde(), home)
    } else if path_starts_with(p, dollar_home()) {
        substituted(p, dollar_home(), home)
    } else {
        substituted(p, braced_home(), home)
    }
}

/// The root as the walk reads it: expanded where it starts with an alias, as
/// given where it does not.
pub open spec fn resolved(p: Seq<char>, home: Seq<char>) -> Seq<char> {
    match expanded(p, home) {
        Some(v) => v.0,
        None => p,
    }
}

proof fn lemma_alias_components(a: Seq<char>)
    requires
        is_home_alias(a),
    ensures
        components(a) == seq![a],
        a != root_dir(),
{
    assert(a[0] != '/');
    assert(!a.contains('/'));
    let c = seq![a];
    assert(well_formed(c));
    lemma_components_of_text(c);
    assert(c[0] != root_dir()) by {
        assert(root_dir()[0] == '/');
    }
}

/// Expanding a path that starts with a home alias and then compacting the
/// result onto the alias that was expanded gives back the text it started from,
/// whatever the home directory is. The text must be in normal form: no
/// repeated or trailing separator.
pub proof fn lemma_expand_compact_round_trip(p: Seq<char>, home: Seq<char>)
    requires
        is_normal(p),
        components(p).len() > 0,
        is_home_alias(components(p)[0]),
    ensures
        expanded(p, home) is Some,
        expanded(p, home)->Some_0.1 == components(p)[0],
        substituted(expanded(p, home)->Some_0.0, home, expanded(p, home)->Some_0.1) == Some(
            (p, home),
        ),
{
    let c = components(p);
    let a = c[0];
    lemma_alias_components(tilde());
    lemma_alias_components(dollar_home());
    lemma_alias_components(braced_home());
    lemma_components_well_formed(p);
    lemma_components_well_formed(home);
    let h = components(home);
    let rest = c.skip(1);
    assert(is_name(root_dir()) == false) by {
        assert(root_dir().contains('/')) by {
            assert(root_dir()[0] == '/');
        }
    }
    assert(forall|i: int| 0 <= i < rest.len() ==> is_name(#[trigger] rest[i])) by {
        assert(forall|i: int| 0 <= i < rest.len() ==> rest[i] == c[i + 1]);
    }
    assert(path_starts_with(p, a)) by {
        assert(components(a) =~= c.subrange(0, 1));
    }
    assert(tilde() != dollar_home() && tilde() != braced_home() && dollar_home() != braced_home());
    assert(c.subrange(0, 1) =~= seq![a]);
    assert(seq![tilde()][0] == tilde() && seq![dollar_home()][0] == dollar_home());
    assert(path_starts_with(p, tilde()) <==> a == tilde()) by {
        if a == tilde() {
            assert(seq![tilde()] =~= seq![a]);
        }
    }
    assert(path_starts_with(p, dollar_home()) <==> a == dollar_home()) by {
        if a == dollar_home() {
            assert(seq![dollar_home()] =~= seq![a]);
        }
    }
    assert(expanded(p, home) == substituted(p, a, home));
    let joined_path = h + rest;
    assert(join_components(h, rest) == joined_path);
    assert(well_formed(joined_path)) by {
        assert forall|i: int| 0 <= i < joined_path.len() implies (i == 0 && joined_path[i]
            == root_dir()) || is_name(#[trigger] joined_path[i]) by {
            if i >= h.len() {
                assert(joined_path[i] == rest[i - h.len()]);
            } else {
                assert(joined_path[i] == h[i]);
            }
        }
    }
    let t = path_text(joined_path);
    lemma_components_of_text(joined_path);
    assert(replace_prefix(p, a, home) == t);
    assert(h.is_prefix_of(components(t))) by {
        assert(components(t).subrange(0, h.len() as int) =~= h);
    }
    assert(components(t).skip(h.len() as int) =~= rest);
    assert(join_components(components(a), rest) =~= c);
}

/// The starting directory of a run, as the user wrote it.
pub struct Root {
    pub root: String,
}

/// Replacing the leading components of a path.
pub trait SubstitutePrefix {
    /// The path text that prefixes are replaced in.
    spec fn prefix_source(&self) -> Seq<char>;

    /// Whether the path starts with `base`, a whole component at a time.
    fn starts_with(&self, base: &str) -> (r: bool)
        ensures
            r == path_starts_with(self.prefix_source(), base@),
    ;

    /// The path with its prefix `base` replaced by `replace_with`, paired with
    /// `base`; fails where the path does not start with `base`.
    fn sub_prefix(&self, base: &str, replace_with: String) -> (r: Result<(String, String), ShortcutError>)
        ensures
            match r {
                Ok(v) => {
                    &&& path_starts_with(self.prefix_source(), base@)
                    &&& v.0@ == replace_prefix(self.prefix_source(), base@, replace_with@)
                    &&& v.1@ == base@
                },
                Err(e) => {
                    &&& !path_starts_with(self.prefix_source(), base@)
                    &&& e == ShortcutError::PrefixSubstitutionFailed
                },
            },
    ;
}

impl SubstitutePrefix for Root {
    open spec fn prefix_source(&self) -> Seq<char> {
        self.root@
    }

    fn starts_with(&self, base: &str) -> (r: bool) {
        starts_with_path(self.root.as_str(), base)
    }

    fn sub_prefix(&self, base: &str, replace_with: String) -> (r: Result<(String, String), ShortcutError>) {
        if self.starts_with(base) {
            let root = replace_prefix_text(self.root.as_str(), base, replace_with.as_str());
            Ok((root, base.to_owned()))
        } else {
            Err(ShortcutError::PrefixSubstitutionFailed)
        }
    }
}

/// Relies on dirs::home_dir for the current user's home directory, which it
/// reads from the environment or the user database; text that is not valid
/// Unicode counts as none. Nothing is promised of its value.
#[verifier::external_body]
pub(crate) fn home_dir_text() -> (r: Option<String>) {
    match dirs::home_dir() {
        Some(h) => h.into_os_string().into_string().ok(),
        None => None,
    }
}

/// The current user's home directory, which is needed to expand an alias.
pub fn get_home_dir() -> (r: Result<String, ShortcutError>)
    ensures
        r is Err ==> r->Err_0 == ShortcutError::HomeUnavailable,
{
    match home_dir_text() {
        Some(h) => Ok(h),
        None => Err(ShortcutError::HomeUnavailable),
    }
}

/// The root with its prefix `base` replaced by `replace_with`, paired with
/// `base`; `None` where the root does not start with `base`.
pub fn sub_path(root: &Root, base: &str, replace_with: String) -> (r: Option<(String, String)>)
    ensures
        span_view(r) == substituted(root.root@, base@, replace_with@),
{
    if root.starts_with(base) {
        match root.sub_prefix(base, replace_with) {
            Ok(v) => Some(v),
            Err(_) => None,
        }
    } else {
        None
    }
}

/// The root with its leading home alias replaced by `home`, and the alias that
/// matched; `None` where the root starts with none of `~`, `$HOME`, `${HOME}`.
pub fn expand_home(root: &Root, home: &str) -> (r: Option<(String, String)>)
    ensures
        span_view(r) == expanded(root.root@, home@),
{
    proof {
        reveal_strlit("~");
        reveal_strlit("$HOME");
        reveal_strlit("${HOME}");
    }
    assert("~"@ =~= tilde());
    assert("$HOME"@ =~= dollar_home());
    assert("${HOME}"@ =~= braced_home());
    let first = sub_path(root, "~", home.to_owned());
    if first.is_some() {
        return first;
    }
    let second = sub_path(root, "$HOME", home.to_owned());
    if second.is_some() {
        return second;
    }
    sub_path(root, "${HOME}", home.to_owned())
}

/// The root with the home directory `home` at its start replaced by the alias
/// `home_prefix`; `None` where the root does not lie under `home`.
pub fn compact_home(root: &Root, home: &str, home_prefix: String) -> (r: Option<(String, String)>)
    ensures
        span_view(r) == substituted(root.root@, home@, home_prefix@),
{
    sub_path(root, home, home_prefix)
}

/// The root that the walk starts from: the expansion of its alias, or the root
/// as given where it has none.
pub fn resolve_root(root: &Root, home: &str) -> (r: String)
    ensures
        r@ == resolved(root.root@, home@),
{
    match expand_home(root, home) {
        Some(v) => v.0,
        None => root.root.clone(),
    }
}

/// Whether an expansion can be used: there was none, or its target is on disk
/// (`target_exists`, as the file system answered for it).
pub fn span_path_exists(sp: &Option<(String, String)>, target_exists: bool) -> (r: bool)
    ensures
        r == (sp is None || target_exists),
{
    sp.is_none() || target_exists
}

} // verus!
