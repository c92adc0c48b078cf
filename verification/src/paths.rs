//! File paths as text, with `/` as the separator.

use crate::text;
use vstd::prelude::*;

verus! {

/// Whether `p` is an absolute path.
pub open spec fn absolute(p: Seq<char>) -> bool {
    p.len() > 0 && p[0] == '/'
}

/// `rel` under `base`: an absolute `rel` stands by itself.
pub open spec fn joined(base: Seq<char>, rel: Seq<char>) -> Seq<char> {
    if absolute(rel) || base.len() == 0 {
        rel
    } else if base.last() == '/' {
        base + rel
    } else {
        base.push('/') + rel
    }
}

/// Whether `p` is an absolute path.
pub fn is_absolute(p: &str) -> (res: bool)
    ensures
        res == absolute(p@),
{
    let v = text::chars_of(p);
    v.len() > 0 && v[0] == '/'
}

/// `rel` under `base`: an absolute `rel` stands by itself.
pub fn join(base: &str, rel: &str) -> (res: String)
    ensures
        res@ == joined(base@, rel@),
{
    let b = text::chars_of(base);
    if is_absolute(rel) || b.len() == 0 {
        return rel.to_owned();
    }
    let mut out = base.to_owned();
    if b[b.len() - 1] != '/' {
        out.push('/');
    }
    out.append(rel);
    out
}

// ---------------------------------------------------------------------------------------------
// Components
// ---------------------------------------------------------------------------------------------
/// `s` without separators and `.` components at its start.
pub open spec fn clean_front(s: Seq<char>) -> Seq<char>
    decreases s.len(),
{
    if s.len() > 0 && (s[0] == '/' || (s[0] == '.' && (s.len() == 1 || s[1] == '/'))) {
        clean_front(s.drop_first())
    } else {
        s
    }
}

/// `s` without separators and `.` components at its end.
pub open spec fn clean_back(s: Seq<char>) -> Seq<char>
    decreases s.len(),
{
    if s.len() > 0 && (s.last() == '/' || (s.last() == '.' && (s.len() == 1 || s[s.len() - 2]
        == '/'))) {
        clean_back(s.drop_last())
    } else {
        s
    }
}

/// The first component of a cleaned path.
pub open spec fn head(s: Seq<char>) -> Seq<char> {
    s.take(text::find_char(s, '/'))
}

/// What follows the first component of a cleaned path.
pub open spec fn tail(s: Seq<char>) -> Seq<char> {
    clean_front(s.skip(text::find_char(s, '/')))
}

/// What remains of the cleaned path `p` behind the components of the cleaned path `base`.
pub open spec fn below(p: Seq<char>, base: Seq<char>) -> Option<Seq<char>>
    decreases base.len(),
    via below_decreases
{
    if base.len() == 0 {
        Some(clean_back(p))
    } else if p.len() == 0 || head(p) != head(base) {
        None
    } else {
        below(tail(p), tail(base))
    }
}

/// Cleaning the front of a path makes it no longer.
pub proof fn lemma_clean_front(s: Seq<char>)
    ensures
        clean_front(s).len() <= s.len(),
        s.len() > 0 && s[0] == '/' ==> clean_front(s).len() < s.len(),
        clean_front(clean_front(s)) == clean_front(s),
        clean_front(s).len() > 0 ==> clean_front(s)[0] != '/',
    decreases s.len(),
{
    if s.len() > 0 && (s[0] == '/' || (s[0] == '.' && (s.len() == 1 || s[1] == '/'))) {
        lemma_clean_front(s.drop_first());
    }
}

/// What follows the first component is shorter than the path.
proof fn lemma_tail_shorter(s: Seq<char>)
    requires
        s.len() > 0,
    ensures
        tail(s).len() < s.len(),
{
    let i = text::find_char(s, '/');
    text::lemma_find_char_bounds(s, '/');
    lemma_clean_front(s.skip(i));
}

#[via_fn]
proof fn below_decreases(p: Seq<char>, base: Seq<char>) {
    if base.len() > 0 {
        lemma_tail_shorter(base);
    }
}

/// What remains of the absolute path `p` behind the absolute path `base`, if `p` lies under it.
/// Components are compared, not characters: `/a/bc` does not lie under `/a/b`.
pub open spec fn relative_to(p: Seq<char>, base: Seq<char>) -> Option<Seq<char>> {
    if absolute(p) && absolute(base) {
        below(clean_front(p), clean_front(base))
    } else {
        None
    }
}

/// The last component of a path, unless it is `..` or there is none.
pub open spec fn last_component(p: Seq<char>) -> Option<Seq<char>> {
    let t = clean_back(p);
    let name = t.skip(text::rfind_char(t, '/') + 1);
    if t.len() == 0 || name == ".."@ {
        None
    } else {
        Some(name)
    }
}

/// What follows the last dot of the last component, unless that dot is its first character.
pub open spec fn extension_of(p: Seq<char>) -> Option<Seq<char>> {
    match last_component(p) {
        None => None,
        Some(name) => match text::split_at_last(name, '.') {
            Some((stem, ext)) => if stem.len() == 0 {
                None
            } else {
                Some(ext)
            },
            None => None,
        },
    }
}

/// `s` without separators and `.` components at its start.
fn cleaned_front<'a>(s: &'a str) -> (res: &'a str)
    ensures
        res@ == clean_front(s@),
{
    let v = text::chars_of(s);
    let mut i: usize = 0;
    assert(v@.skip(0) =~= s@);
    while i < v.len() && (v[i] == '/' || (v[i] == '.' && (i + 1 == v.len() || v[i + 1] == '/')))
        invariant
            v@ == s@,
            i <= v@.len(),
            clean_front(s@) == clean_front(v@.skip(i as int)),
        decreases v@.len() - i,
    {
        proof {
            let t = v@.skip(i as int);
            assert(t.drop_first() =~= v@.skip(i + 1));
            assert(t[0] == v@[i as int]);
            if i + 1 < v@.len() {
                assert(t[1] == v@[i + 1]);
            }
        }
        i = i + 1;
    }
    proof {
        let t = v@.skip(i as int);
        if i < v@.len() {
            assert(t[0] == v@[i as int]);
            if i + 1 < v@.len() {
                assert(t[1] == v@[i + 1]);
            }
        }
    }
    let r = s.substring_char(i, v.len());
    assert(r@ =~= v@.skip(i as int));
    r
}

/// `s` without separators and `.` components at its end.
fn cleaned_back<'a>(s: &'a str) -> (res: &'a str)
    ensures
        res@ == clean_back(s@),
{
    let v = text::chars_of(s);
    let mut n: usize = v.len();
    assert(v@.take(n as int) =~= s@);
    while n > 0 && (v[n - 1] == '/' || (v[n - 1] == '.' && (n == 1 || v[n - 2] == '/')))
        invariant
            v@ == s@,
            n <= v@.len(),
            clean_back(s@) == clean_back(v@.take(n as int)),
        decreases n,
    {
        proof {
            let t = v@.take(n as int);
            assert(t.drop_last() =~= v@.take(n - 1));
            assert(t.last() == v@[n - 1]);
        }
        n = n - 1;
    }
    proof {
        let t = v@.take(n as int);
        if n > 0 {
            assert(t.last() == v@[n - 1]);
        }
    }
    let r = s.substring_char(0, n);
    assert(r@ =~= v@.take(n as int));
    r
}

/// The first component of a cleaned path, and what follows it.
fn head_and_tail<'a>(s: &'a str) -> (res: (&'a str, &'a str))
    ensures
        res.0@ == head(s@),
        res.1@ == tail(s@),
{
    let v = text::chars_of(s);
    let i = text::find_from(&v, 0, '/');
    assert(v@.skip(0) =~= s@);
    let h = s.substring_char(0, i);
    let t = s.substring_char(i, v.len());
    assert(h@ =~= head(s@));
    assert(t@ =~= s@.skip(i as int));
    (h, cleaned_front(t))
}

/// What remains of the absolute path `p` behind the absolute path `base`, if `p` lies under it.
pub fn strip_base<'a>(p: &'a str, base: &str) -> (res: Option<&'a str>)
    ensures
        text::opt_slice(res) == relative_to(p@, base@),
{
    if !is_absolute(p) || !is_absolute(base) {
        return None;
    }
    let mut rest = cleaned_front(p);
    let mut left = cleaned_front(base);
    while !left.is_empty()
        invariant
            absolute(p@),
            absolute(base@),
            relative_to(p@, base@) == below(rest@, left@),
        decreases left@.len(),
    {
        let (h1, t1) = head_and_tail(rest);
        let (h2, t2) = head_and_tail(left);
        if rest.is_empty() || !text::same(h1, h2) {
            return None;
        }
        proof {
            lemma_tail_shorter(left@);
        }
        rest = t1;
        left = t2;
    }
    Some(cleaned_back(rest))
}

/// Whether the absolute path `p` is `root` or lies under it.
pub fn within(p: &str, root: &str) -> (res: bool)
    ensures
        res == (relative_to(p@, root@) is Some),
{
    match strip_base(p, root) {
        Some(_) => true,
        None => false,
    }
}

/// The last component of a path, unless it is `..` or there is none.
pub fn file_name<'a>(p: &'a str) -> (res: Option<&'a str>)
    ensures
        text::opt_slice(res) == last_component(p@),
{
    let t = cleaned_back(p);
    if t.is_empty() {
        return None;
    }
    let name = match text::rsplit_once(t, '/') {
        Some((_, b)) => b,
        None => {
            assert(t@.skip(0) =~= t@);
            t
        },
    };
    proof {
        text::lemma_rfind_char_bounds(t@, '/');
    }
    assert(name@ =~= t@.skip(text::rfind_char(t@, '/') + 1));
    if text::same(name, "..") {
        None
    } else {
        Some(name)
    }
}

/// What follows the last dot of the last component, unless that dot is its first character.
pub fn extension<'a>(p: &'a str) -> (res: Option<&'a str>)
    ensures
        text::opt_slice(res) == extension_of(p@),
{
    match file_name(p) {
        None => None,
        Some(name) => match text::rsplit_once(name, '.') {
            Some((stem, ext)) => if stem.is_empty() {
                None
            } else {
                Some(ext)
            },
            None => None,
        },
    }
}

// ---------------------------------------------------------------------------------------------
// Laws
// ---------------------------------------------------------------------------------------------
/// Whether `c` can be a component of a path that is written without detours.
pub open spec fn proper(c: Seq<char>) -> bool {
    c.len() > 0 && !c.contains('/') && c != seq!['.']
}

/// The absolute path of the given components.
pub open spec fn path_of(components: Seq<Seq<char>>) -> Seq<char>
    decreases components.len(),
{
    if components.len() == 0 {
        seq![]
    } else {
        seq!['/'] + components[0] + path_of(components.drop_first())
    }
}

/// Whether all of the components are proper.
pub open spec fn all_proper(components: Seq<Seq<char>>) -> bool {
    forall|i: int| 0 <= i < components.len() ==> proper(#[trigger] components[i])
}

/// Cleaning the front of a path of proper components takes its first separator away; its first
/// component and what follows it can then be told apart.
proof fn lemma_path_front(c: Seq<Seq<char>>)
    requires
        all_proper(c),
        c.len() > 0,
    ensures
        clean_front(path_of(c)) == c[0] + path_of(c.drop_first()),
        head(clean_front(path_of(c))) == c[0],
        tail(clean_front(path_of(c))) == clean_front(path_of(c.drop_first())),
{
    let p = path_of(c);
    let first = c[0];
    let rest = path_of(c.drop_first());
    let t = first + rest;
    assert(proper(first));
    assert(p.drop_first() =~= t);
    assert(t[0] == first[0]);
    assert(first[0] != '/') by {
        assert(!first.contains('/'));
    }
    if t[0] == '.' && (t.len() == 1 || t[1] == '/') {
        if first.len() == 1 {
            assert(first =~= seq!['.']);
        } else {
            assert(t[1] == first[1]);
            assert(first.contains('/'));
        }
    }
    assert(clean_front(t) == t);
    assert forall|k: int| 0 <= k < first.len() implies t[k] != '/' by {
        assert(t[k] == first[k]);
    }
    if c.len() > 1 {
        assert(rest[0] == '/');
        assert(t[first.len() as int] == '/');
    }
    text::lemma_find_char(t, '/', first.len() as int);
    assert(t.take(first.len() as int) =~= first);
    assert(t.skip(first.len() as int) =~= rest);
}

/// A path of proper components ends with its last component, behind a separator or alone.
proof fn lemma_path_back(c: Seq<Seq<char>>)
    requires
        all_proper(c),
        c.len() > 0,
    ensures
        path_of(c).len() >= 1 + c.last().len(),
        path_of(c).skip(path_of(c).len() - c.last().len()) == c.last(),
        path_of(c)[path_of(c).len() - c.last().len() - 1] == '/',
    decreases c.len(),
{
    let p = path_of(c);
    let rest = c.drop_first();
    if c.len() == 1 {
        assert(path_of(rest) =~= seq![]);
        assert(p.skip(1) =~= c.last());
    } else {
        assert(all_proper(rest));
        lemma_path_back(rest);
        let q = path_of(rest);
        let n = p.len() - q.len();
        assert(forall|k: int| 0 <= k < q.len() ==> p[n + k] == q[k]);
        assert(p.skip(p.len() - c.last().len()) =~= q.skip(q.len() - c.last().len()));
    }
}

/// Cleaning the back of a path of proper components changes nothing.
proof fn lemma_path_clean(c: Seq<Seq<char>>)
    requires
        all_proper(c),
        c.len() > 0,
    ensures
        clean_back(clean_front(path_of(c))) == clean_front(path_of(c)),
        clean_front(path_of(c)) == path_of(c).skip(1),
{
    let p = path_of(c);
    let s = clean_front(p);
    let l = c.last();
    lemma_path_front(c);
    lemma_path_back(c);
    assert(s =~= p.skip(1));
    assert(proper(l));
    let at = p.len() - l.len();
    assert(p.skip(at).last() == l.last());
    assert(s.last() == l.last());
    assert(l.last() != '/') by {
        assert(!l.contains('/'));
    }
    if l.last() == '.' && l.len() == 1 {
        assert(l =~= seq!['.']);
    }
    if l.len() > 1 {
        assert(l[l.len() - 2] != '/') by {
            assert(!l.contains('/'));
        }
        assert(p.skip(at)[l.len() - 2] == l[l.len() - 2]);
        assert(s[s.len() - 2] == l[l.len() - 2]);
    }
}

/// Components that two cleaned paths share are passed over.
proof fn lemma_below(base: Seq<Seq<char>>, rel: Seq<Seq<char>>)
    requires
        all_proper(base),
        all_proper(rel),
        rel.len() > 0,
    ensures
        below(clean_front(path_of(base + rel)), clean_front(path_of(base))) == Some(
            path_of(rel).skip(1),
        ),
    decreases base.len(),
{
    if base.len() == 0 {
        assert(base + rel =~= rel);
        assert(path_of(base) =~= seq![]);
        lemma_path_clean(rel);
    } else {
        let rest = base.drop_first();
        assert(all_proper(base + rel));
        assert((base + rel).drop_first() =~= rest + rel);
        lemma_path_front(base + rel);
        lemma_path_front(base);
        lemma_below(rest, rel);
        assert(proper(base[0]));
    }
}

/// A path under a directory, taken relative to that directory, gives the rest of its components.
pub proof fn law_relative_path(base: Seq<Seq<char>>, rel: Seq<Seq<char>>)
    requires
        all_proper(base),
        all_proper(rel),
        base.len() > 0,
        rel.len() > 0,
    ensures
        relative_to(path_of(base + rel), path_of(base)) == Some(path_of(rel).skip(1)),
{
    lemma_below(base, rel);
    assert(path_of(base)[0] == '/');
    assert((base + rel)[0] == base[0]);
    assert(path_of(base + rel)[0] == '/');
}

/// A relative path is taken under a directory with one separator between the two; an absolute one
/// stands by itself.
pub proof fn law_joined(base: Seq<char>, rel: Seq<char>)
    requires
        base.len() > 0,
    ensures
        rel.len() > 0 && rel[0] == '/' ==> joined(base, rel) == rel,
        !(rel.len() > 0 && rel[0] == '/') && base.last() != '/' ==> joined(base, rel) == base + seq![
            '/',
        ] + rel,
        !(rel.len() > 0 && rel[0] == '/') && base.last() == '/' ==> joined(base, rel) == base + rel,
{
    assert(base.push('/') =~= base + seq!['/']);
}

/// The last component of a path is what follows its last separator.
pub proof fn law_last_component(dir: Seq<char>, name: Seq<char>)
    requires
        proper(name),
        name != ".."@,
    ensures
        last_component(dir + seq!['/'] + name) == Some(name),
        last_component(name) == Some(name),
{
    let p = dir + seq!['/'] + name;
    let last = name.last();
    assert(last != '/') by {
        assert(!name.contains('/'));
        assert(name[name.len() - 1] == last);
    }
    if last == '.' && name.len() == 1 {
        assert(name =~= seq!['.']);
    }
    if name.len() > 1 {
        assert(name[name.len() - 2] != '/') by {
            assert(!name.contains('/'));
        }
        assert(p[p.len() - 2] == name[name.len() - 2]);
    }
    assert(p.last() == last);
    assert(clean_back(p) == p);
    assert(clean_back(name) == name);
    text::law_split_at_last(dir, '/', name);
    text::lemma_rfind_char_bounds(p, '/');
    text::lemma_rfind_char_bounds(name, '/');
    if text::rfind_char(name, '/') >= 0 {
        assert(name.contains('/'));
    }
    assert(name.skip(0) =~= name);
}

/// The extension of a file is what follows the last dot of its name, unless that dot is the first
/// character of the name.
pub proof fn law_extension(dir: Seq<char>, stem: Seq<char>, ext: Seq<char>, plain: Seq<char>)
    requires
        stem.len() > 0,
        !stem.contains('/'),
        ext.len() > 0,
        !ext.contains('/'),
        !ext.contains('.'),
        proper(plain),
        !plain.contains('.'),
    ensures
        extension_of(dir + seq!['/'] + (stem + seq!['.'] + ext)) == Some(ext),
        extension_of(dir + seq!['/'] + plain) is None,
        extension_of(dir + seq!['/'] + (seq!['.'] + plain)) is None,
{
    reveal_strlit("..");
    let name = stem + seq!['.'] + ext;
    assert(!name.contains('/')) by {
        if name.contains('/') {
            let k = choose|k: int| 0 <= k < name.len() && name[k] == '/';
            if k < stem.len() {
                assert(stem[k] == '/');
            } else {
                assert(ext[k - stem.len() - 1] == '/');
            }
        }
    }
    assert(name.len() > 2);
    law_last_component(dir, name);
    text::law_split_at_last(stem, '.', ext);
    assert(plain.contains(plain[0]));
    law_last_component(dir, plain);
    text::law_split_at_last(seq![], '.', plain);
    let hidden = seq!['.'] + plain;
    assert(hidden[1] == plain[0]);
    assert(!hidden.contains('/')) by {
        if hidden.contains('/') {
            let k = choose|k: int| 0 <= k < hidden.len() && hidden[k] == '/';
            assert(plain[k - 1] == '/');
        }
    }
    law_last_component(dir, hidden);
    assert(seq![] + seq!['.'] + plain =~= hidden);
}

/// A path that does not share its first component with another does not lie under it.
pub proof fn law_elsewhere(base: Seq<Seq<char>>, p: Seq<Seq<char>>)
    requires
        all_proper(base),
        all_proper(p),
        base.len() > 0,
        p.len() > 0,
        base[0] != p[0],
    ensures
        relative_to(path_of(p), path_of(base)) is None,
{
    lemma_path_front(base);
    lemma_path_front(p);
    assert(proper(base[0]));
}

/// A path lies under another only where all of its components come first: one that differs in some
/// component, whole components compared, does not, and neither does one that is shorter.
pub proof fn law_not_below(
    common: Seq<Seq<char>>,
    x: Seq<char>,
    y: Seq<char>,
    p: Seq<Seq<char>>,
    base: Seq<Seq<char>>,
)
    requires
        all_proper(common),
        proper(x),
        proper(y),
        all_proper(p),
        all_proper(base),
        x != y,
    ensures
        relative_to(
            path_of(common + (seq![x] + p)),
            path_of(common + (seq![y] + base)),
        ) is None,
        common.len() > 0 ==> relative_to(path_of(common), path_of(common + (seq![y] + base))) is None,
{
    let px = seq![x] + p;
    let by = seq![y] + base;
    assert(all_proper(px));
    assert(all_proper(by));
    lemma_not_below(common, px, by);
    lemma_not_below(common, seq![], by);
    assert(common + seq![] =~= common);
}

/// Components that two cleaned paths share are passed over, and then they differ.
proof fn lemma_not_below(common: Seq<Seq<char>>, p: Seq<Seq<char>>, base: Seq<Seq<char>>)
    requires
        all_proper(common),
        all_proper(p),
        all_proper(base),
        base.len() > 0,
        p.len() == 0 || p[0] != base[0],
    ensures
        below(clean_front(path_of(common + p)), clean_front(path_of(common + base))) is None,
    decreases common.len(),
{
    if common.len() == 0 {
        assert(common + p =~= p);
        assert(common + base =~= base);
        lemma_path_front(base);
        assert(proper(base[0]));
        if p.len() > 0 {
            lemma_path_front(p);
        } else {
            assert(path_of(p) =~= seq![]);
        }
    } else {
        let rest = common.drop_first();
        assert(all_proper(common + p));
        assert(all_proper(common + base));
        assert((common + p).drop_first() =~= rest + p);
        assert((common + base).drop_first() =~= rest + base);
        lemma_path_front(common + p);
        lemma_path_front(common + base);
        lemma_not_below(rest, p, base);
        assert(proper(common[0]));
    }
}

} // verus!
