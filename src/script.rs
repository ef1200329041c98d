//! The shell script that exports the shortcuts.
use vstd::prelude::*;

use crate::alias::substituted;
use crate::classify::{file_name, parent_name, PathKind};
use crate::error::ShortcutError;
use crate::path::{
    components, join_components, lemma_components_without, lemma_concat_without,
    lemma_path_text_without, texts,
};
use crate::shortcut::{
    build_shortcuts, env_value, makes_child_shortcut, root_shown, shell_name, Shortcut, ToEnv,
};
use crate::tree::{collect_tree, kept_paths, WalkEntry};

verus! {

/// The first two lines of the script: the interpreter line and a blank line.
pub open spec fn shebang_header() -> Seq<char> {
    seq!['#', '!', '/', 'b', 'i', 'n', '/', 'b', 'a', 's', 'h', '\n', '\n']
}

/// `export NAME="VALUE"` and a line break.
pub open spec fn export_line(name: Seq<char>, value: Seq<char>) -> Seq<char> {
    seq!['e', 'x', 'p', 'o', 'r', 't', ' '] + name + seq!['=', '"'] + value + seq!['"', '\n']
}

/// One export line for each name and value, in order.
pub open spec fn export_lines(e: Seq<(Seq<char>, Seq<char>)>) -> Seq<char>
    decreases e.len(),
{
    if e.len() == 0 {
        Seq::empty()
    } else {
        export_lines(e.drop_last()) + export_line(e.last().0, e.last().1)
    }
}

/// The script that exports the given names and values.
pub open spec fn script_of(e: Seq<(Seq<char>, Seq<char>)>) -> Seq<char> {
    shebang_header() + export_lines(e)
}

/// The name and value that each shortcut is exported with.
pub open spec fn exports_of(s: Seq<Shortcut>) -> Seq<(Seq<char>, Seq<char>)> {
    s.map_values(|x: Shortcut| (x.name@, x.env_view()))
}

/// What the shortcut of a directory found under the root exports.
pub open spec fn child_export(p: Seq<char>) -> (Seq<char>, Seq<char>) {
    (
        shell_name(file_name(p)->0),
        env_value(PathKind::Standard, parent_name(p)->0, file_name(p)->0),
    )
}

/// What the root's shortcut exports, where the root is shown as `shown`.
pub open spec fn root_export(shown: Seq<char>) -> (Seq<char>, Seq<char>) {
    (shell_name(file_name(shown)->0), shown)
}

/// The exports of a run: the root first, then each directory found under it.
pub open spec fn planned_exports(
    resolved: Seq<char>,
    home: Seq<char>,
    alias: Seq<char>,
    folders: Seq<Seq<char>>,
) -> Seq<(Seq<char>, Seq<char>)> {
    seq![root_export(root_shown(resolved, home, alias))] + folders.map_values(
        |p: Seq<char>| child_export(p),
    )
}

/// Whether every shortcut of a run has a name to be given.
pub open spec fn plan_possible(
    resolved: Seq<char>,
    home: Seq<char>,
    alias: Seq<char>,
    folders: Seq<Seq<char>>,
) -> bool {
    &&& file_name(root_shown(resolved, home, alias)) is Some
    &&& forall|i: int| 0 <= i < folders.len() ==> makes_child_shortcut(#[trigger] folders[i])
}

proof fn lemma_export_lines_front(x: (Seq<char>, Seq<char>), rest: Seq<(Seq<char>, Seq<char>)>)
    ensures
        export_lines(seq![x] + rest) == export_line(x.0, x.1) + export_lines(rest),
    decreases rest.len(),
{
    if rest.len() == 0 {
        assert(seq![x] + rest =~= seq![x]);
        assert(seq![x].drop_last() =~= Seq::<(Seq<char>, Seq<char>)>::empty());
        assert(seq![x].last() == x);
        assert(export_lines(seq![x]) == export_lines(seq![x].drop_last()) + export_line(x.0, x.1));
        assert(export_line(x.0, x.1) + Seq::<char>::empty() =~= export_line(x.0, x.1));
        assert(Seq::<char>::empty() + export_line(x.0, x.1) =~= export_line(x.0, x.1));
    } else {
        lemma_export_lines_front(x, rest.drop_last());
        assert((seq![x] + rest).drop_last() =~= seq![x] + rest.drop_last());
        assert((seq![x] + rest).last() == rest.last());
        assert(export_lines(seq![x] + rest) == export_lines(seq![x] + rest.drop_last())
            + export_line(rest.last().0, rest.last().1));
        assert(export_line(x.0, x.1) + export_lines(rest.drop_last()) + export_line(
            rest.last().0,
            rest.last().1,
        ) =~= export_line(x.0, x.1) + (export_lines(rest.drop_last()) + export_line(
            rest.last().0,
            rest.last().1,
        )));
    }
}

/// The layout of every script: the interpreter line `#!/bin/bash` and a blank
/// line, then the root's export line, then one export line for each kept
/// directory in the order of the walk. So there is one export more than
/// there are kept directories, and the root's comes first.
pub proof fn lemma_script_layout(
    resolved: Seq<char>,
    home: Seq<char>,
    alias: Seq<char>,
    folders: Seq<Seq<char>>,
)
    ensures
        planned_exports(resolved, home, alias, folders).len() == folders.len() + 1,
        planned_exports(resolved, home, alias, folders)[0] == root_export(
            root_shown(resolved, home, alias),
        ),
        script_of(planned_exports(resolved, home, alias, folders)) == shebang_header()
            + export_line(
            root_export(root_shown(resolved, home, alias)).0,
            root_export(root_shown(resolved, home, alias)).1,
        ) + export_lines(folders.map_values(|p: Seq<char>| child_export(p))),
        script_of(planned_exports(resolved, home, alias, folders)).subrange(0, 12) == seq![
            '#',
            '!',
            '/',
            'b',
            'i',
            'n',
            '/',
            'b',
            'a',
            's',
            'h',
            '\n',
        ],
{
    let x = root_export(root_shown(resolved, home, alias));
    let rest = folders.map_values(|p: Seq<char>| child_export(p));
    lemma_export_lines_front(x, rest);
    let text = script_of(planned_exports(resolved, home, alias, folders));
    assert(text =~= shebang_header() + export_line(x.0, x.1) + export_lines(rest));
    assert(text.subrange(0, 12) =~= shebang_header().subrange(0, 12));
}

/// Every directory found under the root is exported under its name with the
/// dashes removed, as its parent's variable followed by its own name,
/// `$<parent>/<child>`: the variable is left for the shell to expand.
pub proof fn lemma_child_values(
    resolved: Seq<char>,
    home: Seq<char>,
    alias: Seq<char>,
    folders: Seq<Seq<char>>,
)
    ensures
        forall|i: int|
            0 <= i < folders.len() ==> #[trigger] planned_exports(resolved, home, alias, folders)[i
                + 1] == (
                shell_name(file_name(folders[i])->0),
                seq!['$'] + parent_name(folders[i])->0 + seq!['/'] + file_name(folders[i])->0,
            ),
{
    let plan = planned_exports(resolved, home, alias, folders);
    assert forall|i: int| 0 <= i < folders.len() implies #[trigger] plan[i + 1] == (
        shell_name(file_name(folders[i])->0),
        seq!['$'] + parent_name(folders[i])->0 + seq!['/'] + file_name(folders[i])->0,
    ) by {
        assert(plan[i + 1] == child_export(folders[i]));
    }
}

/// Picks out line breaks.
pub open spec fn line_break() -> spec_fn(char) -> bool {
    |c: char| c == '\n'
}

/// The number of line breaks in a text.
pub open spec fn line_breaks(s: Seq<char>) -> nat {
    s.filter(line_break()).len()
}

proof fn lemma_line_breaks_add(a: Seq<char>, b: Seq<char>)
    ensures
        line_breaks(a + b) == line_breaks(a) + line_breaks(b),
{
    Seq::filter_distributes_over_add(a, b, line_break());
}

proof fn lemma_no_line_breaks(s: Seq<char>)
    requires
        !s.contains('\n'),
    ensures
        line_breaks(s) == 0,
    decreases s.len(),
{
    reveal(Seq::filter);
    if s.len() > 0 {
        let d = s.drop_last();
        assert(!d.contains('\n')) by {
            if d.contains('\n') {
                let k = choose|k: int| 0 <= k < d.len() && d[k] == '\n';
                assert(s[k] == '\n');
            }
        }
        lemma_no_line_breaks(d);
        assert(s[s.len() - 1] == s.last());
    }
}

proof fn lemma_shell_name_without(x: Seq<char>, ch: char)
    requires
        !x.contains(ch),
    ensures
        !shell_name(x).contains(ch),
    decreases x.len(),
{
    reveal(Seq::filter);
    if x.len() > 0 {
        let d = x.drop_last();
        assert(!d.contains(ch)) by {
            if d.contains(ch) {
                let k = choose|k: int| 0 <= k < d.len() && d[k] == ch;
                assert(x[k] == ch);
            }
        }
        lemma_shell_name_without(d, ch);
        assert(x[x.len() - 1] == x.last());
        lemma_concat_without(shell_name(d), seq![x.last()], ch);
        assert(shell_name(d).push(x.last()) =~= shell_name(d) + seq![x.last()]);
    }
}

/// An export whose name and value hold no line break.
pub open spec fn single_line(e: (Seq<char>, Seq<char>)) -> bool {
    !e.0.contains('\n') && !e.1.contains('\n')
}

proof fn lemma_export_line_breaks(e: Seq<(Seq<char>, Seq<char>)>)
    requires
        forall|i: int| 0 <= i < e.len() ==> single_line(#[trigger] e[i]),
    ensures
        line_breaks(export_lines(e)) == e.len(),
    decreases e.len(),
{
    if e.len() > 0 {
        let d = e.drop_last();
        assert(forall|i: int| 0 <= i < d.len() ==> single_line(#[trigger] d[i])) by {
            assert(forall|i: int| 0 <= i < d.len() ==> d[i] == e[i]);
        }
        lemma_export_line_breaks(d);
        let x = e.last();
        assert(single_line(e[e.len() - 1]));
        let head = seq!['e', 'x', 'p', 'o', 'r', 't', ' '];
        let eq = seq!['=', '"'];
        assert(!head.contains('\n')) by {
            if head.contains('\n') {
                let k = choose|k: int| 0 <= k < head.len() && head[k] == '\n';
            }
        }
        assert(!eq.contains('\n')) by {
            if eq.contains('\n') {
                let k = choose|k: int| 0 <= k < eq.len() && eq[k] == '\n';
            }
        }
        assert(!seq!['"'].contains('\n')) by {
            if seq!['"'].contains('\n') {
                assert(seq!['"'][0] == '"');
            }
        }
        lemma_no_line_breaks(head);
        lemma_no_line_breaks(eq);
        lemma_no_line_breaks(x.0);
        lemma_no_line_breaks(x.1);
        lemma_no_line_breaks(seq!['"']);
        assert(line_breaks(seq!['\n']) == 1) by {
            reveal(Seq::filter);
            assert(seq!['\n'].drop_last() =~= Seq::<char>::empty());
            assert(seq!['\n'].last() == '\n');
        }
        lemma_line_breaks_add(seq!['"'], seq!['\n']);
        assert(seq!['"'] + seq!['\n'] =~= seq!['"', '\n']);
        lemma_line_breaks_add(head, x.0);
        lemma_line_breaks_add(head + x.0, eq);
        lemma_line_breaks_add(head + x.0 + eq, x.1);
        lemma_line_breaks_add(head + x.0 + eq + x.1, seq!['"', '\n']);
        lemma_line_breaks_add(export_lines(d), export_line(x.0, x.1));
    }
}

/// Where no input holds a line break, a script that can be made has exactly
/// two lines before its exports (the interpreter line and a blank line) and
/// one line per export: one for each kept directory and one for the root.
pub proof fn lemma_script_line_count(
    resolved: Seq<char>,
    home: Seq<char>,
    alias: Seq<char>,
    folders: Seq<Seq<char>>,
)
    requires
        !resolved.contains('\n'),
        !home.contains('\n'),
        !alias.contains('\n'),
        forall|i: int| 0 <= i < folders.len() ==> !(#[trigger] folders[i]).contains('\n'),
        plan_possible(resolved, home, alias, folders),
    ensures
        line_breaks(shebang_header()) == 2,
        line_breaks(export_lines(planned_exports(resolved, home, alias, folders))) == folders.len()
            + 1,
        line_breaks(script_of(planned_exports(resolved, home, alias, folders))) == folders.len()
            + 3,
{
    let ch = '\n';
    let plan = planned_exports(resolved, home, alias, folders);
    assert(!seq!['/'].contains(ch) && !seq!['$'].contains(ch)) by {
        if seq!['/'].contains(ch) {
            assert(seq!['/'][0] == '/');
        }
        if seq!['$'].contains(ch) {
            assert(seq!['$'][0] == '$');
        }
    }
    // The root's export.
    let shown = root_shown(resolved, home, alias);
    assert(!shown.contains(ch)) by {
        if substituted(resolved, home, alias) is Some {
            lemma_components_without(alias, ch);
            lemma_components_without(resolved, ch);
            let a = components(alias);
            let rest = components(resolved).skip(components(home).len() as int);
            let j = join_components(a, rest);
            assert(forall|i: int| 0 <= i < j.len() ==> !(#[trigger] j[i]).contains(ch)) by {
                assert forall|i: int| 0 <= i < j.len() implies !(#[trigger] j[i]).contains(ch) by {
                    if rest.len() > 0 && rest[0] == crate::path::root_dir() {
                        assert(j[i] == rest[i]);
                        assert(rest[i] == components(resolved)[i + components(home).len()]);
                    } else if i < a.len() {
                        assert(j[i] == a[i]);
                    } else {
                        assert(j[i] == rest[i - a.len()]);
                        assert(rest[i - a.len()] == components(resolved)[i - a.len()
                            + components(home).len()]);
                    }
                }
            }
            lemma_path_text_without(j, ch);
        }
    }
    lemma_components_without(shown, ch);
    let sc = components(shown);
    assert(!sc[sc.len() - 1].contains(ch));
    lemma_shell_name_without(file_name(shown)->0, ch);
    assert(single_line(plan[0]));
    // The exports of the directories under it.
    assert forall|i: int| 0 <= i < plan.len() implies single_line(#[trigger] plan[i]) by {
        if i > 0 {
            let f = folders[i - 1];
            assert(plan[i] == child_export(f));
            assert(makes_child_shortcut(f));
            lemma_components_without(f, ch);
            let c = components(f);
            assert(!c[c.len() - 1].contains(ch));
            assert(!c[c.len() - 2].contains(ch));
            let fname = file_name(f)->0;
            let pname = parent_name(f)->0;
            lemma_shell_name_without(fname, ch);
            lemma_concat_without(seq!['$'], pname, ch);
            lemma_concat_without(seq!['$'] + pname, seq!['/'], ch);
            lemma_concat_without(seq!['$'] + pname + seq!['/'], fname, ch);
        }
    }
    lemma_export_line_breaks(plan);
    let words = seq!['#', '!', '/', 'b', 'i', 'n', '/', 'b', 'a', 's', 'h'];
    assert(!words.contains(ch)) by {
        if words.contains(ch) {
            let k = choose|k: int| 0 <= k < words.len() && words[k] == ch;
        }
    }
    lemma_no_line_breaks(words);
    assert(line_breaks(seq!['\n', '\n']) == 2) by {
        reveal_with_fuel(Seq::filter, 3);
        assert(seq!['\n', '\n'].drop_last() =~= seq!['\n']);
        assert(seq!['\n'].drop_last() =~= Seq::<char>::empty());
    }
    lemma_line_breaks_add(words, seq!['\n', '\n']);
    assert(words + seq!['\n', '\n'] =~= shebang_header());
    lemma_line_breaks_add(shebang_header(), export_lines(plan));
}

/// The text of the script that exports `shortcuts`, in order.
pub fn to_bash(shortcuts: &Vec<Shortcut>) -> (r: String)
    ensures
        r@ == script_of(exports_of(shortcuts@)),
{
    let ghost e = exports_of(shortcuts@);
    let mut out = "#!/bin/bash\n\n".to_owned();
    proof {
        reveal_strlit("#!/bin/bash\n\n");
        reveal_strlit("export ");
        reveal_strlit("=\"");
        reveal_strlit("\"\n");
    }
    assert(out@ =~= shebang_header() + export_lines(e.subrange(0, 0)));
    let mut k: usize = 0;
    while k < shortcuts.len()
        invariant
            k <= shortcuts.len(),
            e == exports_of(shortcuts@),
            out@ == shebang_header() + export_lines(e.subrange(0, k as int)),
            "export "@ == seq!['e', 'x', 'p', 'o', 'r', 't', ' '],
            "=\""@ == seq!['=', '"'],
            "\"\n"@ == seq!['"', '\n'],
        decreases shortcuts.len() - k,
    {
        let s = &shortcuts[k];
        let value = s.to_env_path();
        out.append("export ");
        out.append(s.name.as_str());
        out.append("=\"");
        out.append(value.as_str());
        out.append("\"\n");
        assert(e.subrange(0, k + 1).drop_last() =~= e.subrange(0, k as int));
        assert(out@ =~= shebang_header() + export_lines(e.subrange(0, k + 1)));
        k = k + 1;
    }
    assert(e.subrange(0, shortcuts.len() as int) =~= e);
    out
}

/// The script for a run: the root, resolved from its alias, shown with the
/// home directory compacted to `alias`, and a shortcut for every directory
/// of the walk `entries` at most `depth` levels below it; fails where one of
/// them has no name to give.
pub fn generate_script(
    resolved: &str,
    home: &str,
    alias: &str,
    entries: &Vec<Option<WalkEntry>>,
    depth: usize,
) -> (r: Result<String, ShortcutError>)
    ensures
        r is Ok <==> plan_possible(resolved@, home@, alias@, kept_paths(entries@, depth as nat)),
        r is Err ==> r->Err_0 == ShortcutError::NoDirectoryName,
        r is Ok ==> r->Ok_0@ == script_of(
            planned_exports(resolved@, home@, alias@, kept_paths(entries@, depth as nat)),
        ),
{
    let folders = collect_tree(entries, depth);
    let ghost fs = folders@;
    let ghost kept = kept_paths(entries@, depth as nat);
    assert forall|i: int| 0 <= i < fs.len() implies fs[i]@ == kept[i] by {
        assert(texts(fs)[i] == fs[i]@);
    }
    match build_shortcuts(resolved, home, alias, folders) {
        Ok(v) => {
            let ghost plan = planned_exports(resolved@, home@, alias@, kept);
            assert(exports_of(v@) =~= plan) by {
                assert forall|i: int| 0 <= i < v.len() implies exports_of(v@)[i] == plan[i] by {
                    if i > 0 {
                        let j = i - 1;
                        assert(fs[j]@ == kept[j]);
                        assert(crate::shortcut::is_child_shortcut(v[j + 1], fs[j]@));
                        assert(plan[i] == child_export(kept[j]));
                    } else {
                        assert(plan[0] == root_export(root_shown(resolved@, home@, alias@)));
                    }
                }
            }
            Ok(to_bash(&v))
        },
        Err(e) => {
            assert(!plan_possible(resolved@, home@, alias@, kept)) by {
                if plan_possible(resolved@, home@, alias@, kept) {
                    assert forall|i: int| 0 <= i < fs.len() implies makes_child_shortcut(
                        #[trigger] fs[i]@,
                    ) by {
                        assert(makes_child_shortcut(kept[i]));
                    }
                }
            }
            Err(e)
        },
    }
}

} // verus!
