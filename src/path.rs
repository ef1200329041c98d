//! Path text read as a sequence of components, the way a Unix path is read:
//! an optional root directory followed by names, with `/` between them.
use vstd::prelude::*;

verus! {

/// The component that stands for the root directory of an absolute path.
pub open spec fn root_dir() -> Seq<char> {
    seq!['/']
}

/// What a list of `String`s holds, as character sequences.
pub open spec fn texts(v: Seq<String>) -> Seq<Seq<char>> {
    v.map_values(|x: String| x@)
}

/// Adds the name being read to the finished names, unless it is empty.
pub open spec fn close_name(done: Seq<Seq<char>>, cur: Seq<char>) -> Seq<Seq<char>> {
    if cur.len() == 0 {
        done
    } else {
        done.push(cur)
    }
}

/// Reads path text from left to right: the names finished so far, and the
/// characters of the name being read.
pub open spec fn scan(s: Seq<char>) -> (Seq<Seq<char>>, Seq<char>)
    decreases s.len(),
{
    if s.len() == 0 {
        (Seq::empty(), Seq::empty())
    } else {
        let prev = scan(s.drop_last());
        if s.last() == '/' {
            (close_name(prev.0, prev.1), Seq::empty())
        } else {
            (prev.0, prev.1.push(s.last()))
        }
    }
}

/// The names of a path: the non-empty pieces between `/` characters, so that
/// repeated and trailing separators make no difference.
pub open spec fn names(s: Seq<char>) -> Seq<Seq<char>> {
    close_name(scan(s).0, scan(s).1)
}

pub open spec fn is_absolute(s: Seq<char>) -> bool {
    s.len() > 0 && s[0] == '/'
}

/// The components of a path: the root directory first where the path is
/// absolute, then its names.
pub open spec fn components(s: Seq<char>) -> Seq<Seq<char>> {
    if is_absolute(s) {
        seq![root_dir()] + names(s)
    } else {
        names(s)
    }
}

/// A single name: not empty, and free of separators.
pub open spec fn is_name(n: Seq<char>) -> bool {
    n.len() > 0 && !n.contains('/')
}

/// Components that some path text has: names, after the root directory if any.
pub open spec fn well_formed(c: Seq<Seq<char>>) -> bool {
    forall|i: int| 0 <= i < c.len() ==> (i == 0 && c[i] == root_dir()) || is_name(#[trigger] c[i])
}

/// Names written out with `/` between them.
pub open spec fn joined(c: Seq<Seq<char>>) -> Seq<char>
    decreases c.len(),
{
    if c.len() == 0 {
        Seq::empty()
    } else if c.len() == 1 {
        c[0]
    } else {
        joined(c.drop_last()) + seq!['/'] + c.last()
    }
}

/// The text of the path with the given components, with no redundant separator.
pub open spec fn path_text(c: Seq<Seq<char>>) -> Seq<char> {
    if c.len() > 0 && c[0] == root_dir() {
        root_dir() + joined(c.skip(1))
    } else {
        joined(c)
    }
}

/// Path text in the form that `path_text` writes.
pub open spec fn is_normal(s: Seq<char>) -> bool {
    path_text(components(s)) == s
}

/// Whether the components of `base` begin the components of `p`: the way a
/// path starts with another, a whole component at a time.
pub open spec fn path_starts_with(p: Seq<char>, base: Seq<char>) -> bool {
    components(base).is_prefix_of(components(p))
}

/// Components `b` appended to components `a`; where `b` is absolute it
/// stands alone, as a path joined onto an absolute path does.
pub open spec fn join_components(a: Seq<Seq<char>>, b: Seq<Seq<char>>) -> Seq<Seq<char>> {
    if b.len() > 0 && b[0] == root_dir() {
        b
    } else {
        a + b
    }
}

/// The text of `p` with its leading components `base` taken off and the
/// remainder joined onto `replacement`.
pub open spec fn replace_prefix(p: Seq<char>, base: Seq<char>, replacement: Seq<char>) -> Seq<char> {
    path_text(
        join_components(components(replacement), components(p).skip(components(base).len() as int)),
    )
}

proof fn lemma_scan_name(a: Seq<char>, x: Seq<char>)
    requires
        scan(a).1.len() == 0,
        !x.contains('/'),
    ensures
        scan(a + x) == (scan(a).0, x),
    decreases x.len(),
{
    if x.len() == 0 {
        assert(a + x =~= a);
    } else {
        let y = x.drop_last();
        assert(!y.contains('/')) by {
            if y.contains('/') {
                let k = choose|k: int| 0 <= k < y.len() && y[k] == '/';
                assert(x[k] == '/');
            }
        }
        lemma_scan_name(a, y);
        assert((a + x).drop_last() =~= a + y);
        assert((a + x).last() == x[x.len() - 1]);
        assert(y.push(x.last()) =~= x);
    }
}

proof fn lemma_scan_separator(a: Seq<char>)
    ensures
        scan(a + seq!['/']) == (names(a), Seq::<char>::empty()),
{
    assert((a + seq!['/']).drop_last() =~= a);
}

proof fn lemma_scan_same_state(a: Seq<char>, b: Seq<char>, y: Seq<char>)
    requires
        scan(a) == scan(b),
    ensures
        scan(a + y) == scan(b + y),
    decreases y.len(),
{
    if y.len() == 0 {
        assert(a + y =~= a);
        assert(b + y =~= b);
    } else {
        lemma_scan_same_state(a, b, y.drop_last());
        assert((a + y).drop_last() =~= a + y.drop_last());
        assert((b + y).drop_last() =~= b + y.drop_last());
    }
}

proof fn lemma_scan_joined(c: Seq<Seq<char>>)
    requires
        c.len() > 0,
        forall|i: int| 0 <= i < c.len() ==> is_name(#[trigger] c[i]),
    ensures
        scan(joined(c)) == (c.drop_last(), c.last()),
    decreases c.len(),
{
    if c.len() == 1 {
        lemma_scan_name(Seq::empty(), c[0]);
        assert(Seq::<char>::empty() + c[0] =~= c[0]);
        assert(c.drop_last() =~= Seq::<Seq<char>>::empty());
    } else {
        let p = c.drop_last();
        assert(forall|i: int| 0 <= i < p.len() ==> is_name(#[trigger] p[i])) by {
            assert(forall|i: int| 0 <= i < p.len() ==> p[i] == c[i]);
        }
        lemma_scan_joined(p);
        assert(is_name(p[p.len() - 1]));
        assert(p.drop_last().push(p.last()) =~= p);
        lemma_scan_separator(joined(p));
        assert(is_name(c[c.len() - 1]));
        lemma_scan_name(joined(p) + seq!['/'], c.last());
    }
}

/// Names written out with separators read back as the same names.
pub proof fn lemma_names_joined(c: Seq<Seq<char>>)
    requires
        forall|i: int| 0 <= i < c.len() ==> is_name(#[trigger] c[i]),
    ensures
        names(joined(c)) == c,
{
    if c.len() > 0 {
        lemma_scan_joined(c);
        assert(is_name(c[c.len() - 1]));
        assert(c.drop_last().push(c.last()) =~= c);
    }
}

proof fn lemma_joined_first(c: Seq<Seq<char>>)
    requires
        c.len() > 0,
        forall|i: int| 0 <= i < c.len() ==> is_name(#[trigger] c[i]),
    ensures
        joined(c).len() > 0,
        joined(c)[0] == c[0][0],
    decreases c.len(),
{
    if c.len() > 1 {
        let p = c.drop_last();
        assert(forall|i: int| 0 <= i < p.len() ==> is_name(#[trigger] p[i])) by {
            assert(forall|i: int| 0 <= i < p.len() ==> p[i] == c[i]);
        }
        lemma_joined_first(p);
    } else {
        assert(is_name(c[0]));
    }
}

/// Components written out as path text read back as the same components.
pub proof fn lemma_components_of_text(c: Seq<Seq<char>>)
    requires
        well_formed(c),
    ensures
        components(path_text(c)) == c,
{
    if c.len() > 0 && c[0] == root_dir() {
        let rest = c.skip(1);
        assert(forall|i: int| 0 <= i < rest.len() ==> is_name(#[trigger] rest[i])) by {
            assert(forall|i: int| 0 <= i < rest.len() ==> rest[i] == c[i + 1]);
        }
        lemma_names_joined(rest);
        assert(scan(seq!['/']) == scan(Seq::<char>::empty())) by {
            assert(seq!['/'].drop_last() =~= Seq::<char>::empty());
        }
        lemma_scan_same_state(seq!['/'], Seq::empty(), joined(rest));
        assert(Seq::<char>::empty() + joined(rest) =~= joined(rest));
        assert(seq![root_dir()] + rest =~= c);
    } else {
        assert(forall|i: int| 0 <= i < c.len() ==> is_name(#[trigger] c[i]));
        lemma_names_joined(c);
        if c.len() > 0 {
            lemma_joined_first(c);
            assert(is_name(c[0]));
            assert(c[0][0] != '/') by {
                assert(c[0].contains(c[0][0]));
            }
        }
    }
}

proof fn lemma_scan_names(s: Seq<char>)
    ensures
        forall|i: int| 0 <= i < scan(s).0.len() ==> is_name(#[trigger] scan(s).0[i]),
        !scan(s).1.contains('/'),
    decreases s.len(),
{
    if s.len() > 0 {
        lemma_scan_names(s.drop_last());
        let prev = scan(s.drop_last());
        if s.last() != '/' {
            let cur = prev.1.push(s.last());
            assert(!cur.contains('/')) by {
                if cur.contains('/') {
                    let k = choose|k: int| 0 <= k < cur.len() && cur[k] == '/';
                    if k < prev.1.len() {
                        assert(prev.1[k] == '/');
                    }
                }
            }
        } else {
            assert(forall|i: int| 0 <= i < prev.0.len() ==> close_name(prev.0, prev.1)[i] == prev.0[i]);
        }
    }
}

/// The components of any path text are well formed.
pub proof fn lemma_components_well_formed(s: Seq<char>)
    ensures
        well_formed(components(s)),
{
    lemma_scan_names(s);
    let n = names(s);
    assert(forall|i: int| 0 <= i < n.len() ==> is_name(#[trigger] n[i])) by {
        assert(forall|i: int| 0 <= i < scan(s).0.len() ==> n[i] == scan(s).0[i]);
    }
    if is_absolute(s) {
        let c = components(s);
        assert(forall|i: int| 1 <= i < c.len() ==> c[i] == n[i - 1]);
    }
}

/// Joining texts that both lack a character gives a text that lacks it.
pub proof fn lemma_concat_without(a: Seq<char>, b: Seq<char>, ch: char)
    requires
        !a.contains(ch),
        !b.contains(ch),
    ensures
        !(a + b).contains(ch),
{
    if (a + b).contains(ch) {
        let k = choose|k: int| 0 <= k < (a + b).len() && (a + b)[k] == ch;
        if k < a.len() {
            assert(a[k] == ch);
        } else {
            assert(b[k - a.len()] == ch);
        }
    }
}

proof fn lemma_scan_without(s: Seq<char>, ch: char)
    requires
        !s.contains(ch),
    ensures
        forall|i: int| 0 <= i < scan(s).0.len() ==> !(#[trigger] scan(s).0[i]).contains(ch),
        !scan(s).1.contains(ch),
    decreases s.len(),
{
    if s.len() > 0 {
        let d = s.drop_last();
        assert(!d.contains(ch)) by {
            if d.contains(ch) {
                let k = choose|k: int| 0 <= k < d.len() && d[k] == ch;
                assert(s[k] == ch);
            }
        }
        lemma_scan_without(d, ch);
        let prev = scan(d);
        if s.last() != '/' {
            assert(s.last() != ch) by {
                assert(s[s.len() - 1] == s.last());
            }
            lemma_concat_without(prev.1, seq![s.last()], ch);
            assert(prev.1.push(s.last()) =~= prev.1 + seq![s.last()]);
        } else {
            assert(forall|i: int|
                0 <= i < prev.0.len() ==> close_name(prev.0, prev.1)[i] == prev.0[i]);
        }
    }
}

/// A character other than `/` that path text lacks is in none of its components.
pub proof fn lemma_components_without(s: Seq<char>, ch: char)
    requires
        !s.contains(ch),
        ch != '/',
    ensures
        forall|i: int| 0 <= i < components(s).len() ==> !(#[trigger] components(s)[i]).contains(ch),
{
    lemma_scan_without(s, ch);
    let n = names(s);
    assert(forall|i: int| 0 <= i < n.len() ==> !(#[trigger] n[i]).contains(ch)) by {
        assert(forall|i: int| 0 <= i < scan(s).0.len() ==> n[i] == scan(s).0[i]);
    }
    assert(!root_dir().contains(ch)) by {
        if root_dir().contains(ch) {
            assert(root_dir()[0] == '/');
        }
    }
    if is_absolute(s) {
        let c = components(s);
        assert(forall|i: int| 1 <= i < c.len() ==> c[i] == n[i - 1]);
    }
}

proof fn lemma_joined_without(c: Seq<Seq<char>>, ch: char)
    requires
        ch != '/',
        forall|i: int| 0 <= i < c.len() ==> !(#[trigger] c[i]).contains(ch),
    ensures
        !joined(c).contains(ch),
    decreases c.len(),
{
    if c.len() == 1 {
        assert(!c[0].contains(ch));
    } else if c.len() > 1 {
        let p = c.drop_last();
        assert(forall|i: int| 0 <= i < p.len() ==> !(#[trigger] p[i]).contains(ch)) by {
            assert(forall|i: int| 0 <= i < p.len() ==> p[i] == c[i]);
        }
        lemma_joined_without(p, ch);
        assert(!seq!['/'].contains(ch)) by {
            if seq!['/'].contains(ch) {
                assert(seq!['/'][0] == '/');
            }
        }
        lemma_concat_without(joined(p), seq!['/'], ch);
        assert(!c[c.len() - 1].contains(ch));
        lemma_concat_without(joined(p) + seq!['/'], c.last(), ch);
    }
}

/// Path text written from components that lack a character other than `/`
/// lacks it too.
pub proof fn lemma_path_text_without(c: Seq<Seq<char>>, ch: char)
    requires
        ch != '/',
        forall|i: int| 0 <= i < c.len() ==> !(#[trigger] c[i]).contains(ch),
    ensures
        !path_text(c).contains(ch),
{
    if c.len() > 0 && c[0] == root_dir() {
        let rest = c.skip(1);
        assert(forall|i: int| 0 <= i < rest.len() ==> !(#[trigger] rest[i]).contains(ch)) by {
            assert(forall|i: int| 0 <= i < rest.len() ==> rest[i] == c[i + 1]);
        }
        lemma_joined_without(rest, ch);
        assert(!c[0].contains(ch));
        lemma_concat_without(root_dir(), joined(rest), ch);
    } else {
        lemma_joined_without(c, ch);
    }
}

proof fn lemma_texts_push(v: Seq<String>, x: String)
    ensures
        texts(v.push(x)) == texts(v).push(x@),
{
    assert(texts(v.push(x)) =~= texts(v).push(x@));
}

/// Reads path text into its components.
pub(crate) fn parse_components(s: &str) -> (r: Vec<String>)
    ensures
        texts(r@) == components(s@),
{
    let n = s.unicode_len();
    let mut out: Vec<String> = Vec::new();
    let absolute = n > 0 && s.get_char(0) == '/';
    if absolute {
        let root = "/".to_owned();
        proof {
            reveal_strlit("/");
        }
        out.push(root);
    }
    let ghost lead: Seq<Seq<char>> = if absolute { seq![root_dir()] } else { Seq::empty() };
    assert(texts(out@) =~~= lead);
    let mut start: usize = 0;
    let mut i: usize = 0;
    while i < n
        invariant
            n == s@.len(),
            start <= i <= n,
            texts(out@) == lead + scan(s@.subrange(0, i as int)).0,
            s@.subrange(start as int, i as int) == scan(s@.subrange(0, i as int)).1,
        decreases n - i,
    {
        let c = s.get_char(i);
        let ghost pre = s@.subrange(0, i as int);
        assert(s@.subrange(0, i + 1).drop_last() =~= pre);
        assert(s@.subrange(0, i + 1).last() == c);
        if c == '/' {
            if start < i {
                let name = s.substring_char(start, i).to_owned();
                proof {
                    lemma_texts_push(out@, name);
                }
                out.push(name);
                assert(lead + scan(pre).0.push(scan(pre).1) =~= (lead + scan(pre).0).push(
                    scan(pre).1,
                ));
            }
            start = i + 1;
            assert(s@.subrange(start as int, i + 1) =~= Seq::<char>::empty());
        } else {
            assert(s@.subrange(start as int, i + 1) =~= s@.subrange(start as int, i as int).push(c));
        }
        i = i + 1;
    }
    assert(s@.subrange(0, n as int) =~= s@);
    if start < n {
        let name = s.substring_char(start, n).to_owned();
        proof {
            lemma_texts_push(out@, name);
        }
        out.push(name);
        let ghost last = scan(s@);
        assert(lead + last.0.push(last.1) =~= (lead + last.0).push(last.1));
    }
    out
}

fn is_root_component(c: &String) -> (r: bool)
    ensures
        r == (c@ == root_dir()),
{
    let r = c.unicode_len() == 1 && c.get_char(0) == '/';
    assert(r ==> c@ =~= root_dir());
    r
}

/// Whether path `p` starts with path `base`, component by component.
pub(crate) fn starts_with_path(p: &str, base: &str) -> (r: bool)
    ensures
        r == path_starts_with(p@, base@),
{
    let pc = parse_components(p);
    let bc = parse_components(base);
    if bc.len() > pc.len() {
        return false;
    }
    let mut i: usize = 0;
    while i < bc.len()
        invariant
            i <= bc.len() <= pc.len(),
            texts(pc@) == components(p@),
            texts(bc@) == components(base@),
            forall|j: int| 0 <= j < i ==> texts(bc@)[j] == texts(pc@)[j],
        decreases bc.len() - i,
    {
        if !(bc[i] == pc[i]) {
            assert(texts(pc@).subrange(0, bc.len() as int)[i as int] != texts(bc@)[i as int]);
            assert(texts(bc@) != texts(pc@).subrange(0, bc.len() as int));
            return false;
        }
        i = i + 1;
    }
    assert(texts(bc@) =~= texts(pc@).subrange(0, bc.len() as int));
    true
}

/// Path `p`, which starts with `base`, with that prefix replaced by `replacement`.
pub(crate) fn replace_prefix_text(p: &str, base: &str, replacement: &str) -> (r: String)
    requires
        path_starts_with(p@, base@),
    ensures
        r@ == replace_prefix(p@, base@, replacement@),
{
    let pc = parse_components(p);
    let bc = parse_components(base);
    let mut out = parse_components(replacement);
    let skip = bc.len();
    let ghost rest = texts(pc@).skip(skip as int);
    if skip < pc.len() && is_root_component(&pc[skip]) {
        out = Vec::new();
    }
    let ghost lead = texts(out@);
    assert(join_components(components(replacement@), rest) == lead + rest);
    let mut k: usize = skip;
    while k < pc.len()
        invariant
            skip <= k <= pc.len(),
            rest == texts(pc@).skip(skip as int),
            texts(out@) == lead + rest.subrange(0, k - skip),
        decreases pc.len() - k,
    {
        let item = pc[k].clone();
        proof {
            lemma_texts_push(out@, item);
        }
        out.push(item);
        assert(lead + rest.subrange(0, k + 1 - skip) =~= (lead + rest.subrange(0, k - skip)).push(
            pc@[k as int]@,
        ));
        k = k + 1;
    }
    assert(rest.subrange(0, pc.len() - skip) =~= rest);
    text_of_components(&out)
}

/// Writes components out as path text.
pub(crate) fn text_of_components(c: &Vec<String>) -> (r: String)
    ensures
        r@ == path_text(texts(c@)),
{
    let ghost t = texts(c@);
    let mut out = String::new();
    let mut first: usize = 0;
    if c.len() > 0 && is_root_component(&c[0]) {
        out.append("/");
        proof {
            reveal_strlit("/");
        }
        first = 1;
    }
    let ghost lead: Seq<char> = out@;
    assert(lead == if first == 1 { root_dir() } else { Seq::<char>::empty() });
    assert(first == 1 <==> (t.len() > 0 && t[0] == root_dir()));
    let mut k: usize = first;
    while k < c.len()
        invariant
            t == texts(c@),
            first <= k <= c.len(),
            first <= 1,
            out@ == lead + joined(t.subrange(first as int, k as int)),
        decreases c.len() - k,
    {
        let ghost before = t.subrange(first as int, k as int);
        let ghost after = t.subrange(first as int, k + 1);
        assert(after.drop_last() =~= before);
        if k > first {
            out.append("/");
            proof {
                reveal_strlit("/");
            }
        }
        out.append(c[k].as_str());
        assert(out@ =~= lead + joined(after));
        k = k + 1;
    }
    assert(t.subrange(first as int, c.len() as int) =~= if first == 1 { t.skip(1) } else { t });
    out
}

} // verus!
