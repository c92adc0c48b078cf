//! Text: searching, splitting, trimming and joining, stated over `Seq<char>`.

use vstd::prelude::*;

verus! {

/// Appends one character, as `String::push` of the standard library documents: "Appends the given
/// `char` to the end of this `String`."
pub assume_specification[ String::push ](s: &mut String, c: char)
    ensures
        final(s)@ == old(s)@.push(c),
;

/// The views of a list of text slices.
pub open spec fn slices(v: Seq<&str>) -> Seq<Seq<char>> {
    v.map_values(|x: &str| x@)
}

/// The views of a list of owned texts.
pub open spec fn texts(v: Seq<String>) -> Seq<Seq<char>> {
    v.map_values(|x: String| x@)
}

/// The view of an optional text slice.
pub open spec fn opt_slice(o: Option<&str>) -> Option<Seq<char>> {
    match o {
        Some(x) => Some(x@),
        None => None,
    }
}

/// The view of an optional owned text.
pub open spec fn opt_text(o: Option<String>) -> Option<Seq<char>> {
    match o {
        Some(x) => Some(x@),
        None => None,
    }
}

/// The characters of a text, in order.
pub fn chars_of(s: &str) -> (v: Vec<char>)
    ensures
        v@ == s@,
{
    let mut v: Vec<char> = Vec::new();
    for c in it: s.chars()
        invariant
            v@ == s@.take(it.index()),
            it.seq() == s@,
    {
        v.push(c);
        assert(s@.take(it.index() + 1) =~= s@.take(it.index()).push(c));
    }
    assert(s@.take(s@.len() as int) =~= s@);
    v
}

/// Borrows an optional text.
pub fn as_slice(o: &Option<String>) -> (res: Option<&str>)
    ensures
        opt_slice(res) == opt_text(*o),
{
    match o {
        Some(x) => Some(x.as_str()),
        None => None,
    }
}

/// Whether two texts hold the same characters.
pub fn same(a: &str, b: &str) -> (res: bool)
    ensures
        res == (a@ == b@),
{
    let va = chars_of(a);
    let vb = chars_of(b);
    if va.len() != vb.len() {
        return false;
    }
    let mut i: usize = 0;
    while i < va.len()
        invariant
            i <= va.len(),
            va.len() == vb.len(),
            va@ == a@,
            vb@ == b@,
            forall|k: int| 0 <= k < i ==> va@[k] == vb@[k],
        decreases va.len() - i,
    {
        if va[i] != vb[i] {
            assert(a@[i as int] != b@[i as int]);
            return false;
        }
        i = i + 1;
    }
    assert(a@ =~= b@);
    true
}

/// Whether two optional texts are both absent or hold the same characters.
pub fn same_opt(a: Option<&str>, b: Option<&str>) -> (res: bool)
    ensures
        res == (opt_slice(a) == opt_slice(b)),
{
    match (a, b) {
        (Some(x), Some(y)) => same(x, y),
        (None, None) => true,
        _ => false,
    }
}

// ---------------------------------------------------------------------------------------------
// Prefixes and suffixes
// ---------------------------------------------------------------------------------------------
/// Whether `s` begins with `prefix`.
pub fn starts_with(s: &str, prefix: &str) -> (res: bool)
    ensures
        res == prefix@.is_prefix_of(s@),
{
    let v = chars_of(s);
    let p = chars_of(prefix);
    if p.len() > v.len() {
        return false;
    }
    let mut i: usize = 0;
    while i < p.len()
        invariant
            i <= p.len() <= v.len(),
            v@ == s@,
            p@ == prefix@,
            forall|k: int| 0 <= k < i ==> v@[k] == p@[k],
        decreases p.len() - i,
    {
        if v[i] != p[i] {
            assert(prefix@[i as int] != s@.subrange(0, prefix@.len() as int)[i as int]);
            return false;
        }
        i = i + 1;
    }
    assert(prefix@ =~= s@.subrange(0, prefix@.len() as int));
    true
}

/// Whether `s` ends with `suffix`.
pub fn ends_with(s: &str, suffix: &str) -> (res: bool)
    ensures
        res == suffix@.is_suffix_of(s@),
{
    let v = chars_of(s);
    let p = chars_of(suffix);
    if p.len() > v.len() {
        return false;
    }
    let d: usize = v.len() - p.len();
    let mut i: usize = 0;
    while i < p.len()
        invariant
            i <= p.len() <= v.len(),
            d == v.len() - p.len(),
            v@ == s@,
            p@ == suffix@,
            forall|k: int| 0 <= k < i ==> v@[d + k] == p@[k],
        decreases p.len() - i,
    {
        if v[d + i] != p[i] {
            assert(suffix@[i as int] != s@.subrange(
                (s@.len() - suffix@.len()) as int,
                s@.len() as int,
            )[i as int]);
            return false;
        }
        i = i + 1;
    }
    assert(suffix@ =~= s@.subrange((s@.len() - suffix@.len()) as int, s@.len() as int));
    true
}

/// `s` without `prefix`, where it begins with it.
pub open spec fn without_prefix(s: Seq<char>, prefix: Seq<char>) -> Option<Seq<char>> {
    if prefix.is_prefix_of(s) {
        Some(s.skip(prefix.len() as int))
    } else {
        None
    }
}

/// `s` without `prefix`, where it begins with it.
pub fn strip_prefix<'a>(s: &'a str, prefix: &str) -> (res: Option<&'a str>)
    ensures
        opt_slice(res) == without_prefix(s@, prefix@),
{
    if starts_with(s, prefix) {
        let n: usize = prefix.unicode_len();
        let m: usize = s.unicode_len();
        let r = s.substring_char(n, m);
        assert(r@ =~= s@.skip(prefix@.len() as int));
        Some(r)
    } else {
        None
    }
}

/// The first `n` characters of `s`, or all of it where it is shorter.
pub open spec fn first_chars(s: Seq<char>, n: int) -> Seq<char> {
    if s.len() <= n {
        s
    } else {
        s.take(n)
    }
}

/// The first `n` characters of `s`, or all of it where it is shorter.
pub fn first_n(s: &str, n: usize) -> (res: String)
    ensures
        res@ == first_chars(s@, n as int),
{
    let m: usize = s.unicode_len();
    if m <= n {
        s.to_owned()
    } else {
        let r = s.substring_char(0, n);
        assert(r@ =~= s@.take(n as int));
        r.to_owned()
    }
}

// ---------------------------------------------------------------------------------------------
// Searching for a character
// ---------------------------------------------------------------------------------------------
/// The index of the first `c` in `s`, or the length of `s` where there is none.
pub open spec fn find_char(s: Seq<char>, c: char) -> int
    decreases s.len(),
{
    if s.len() == 0 || s[0] == c {
        0
    } else {
        1 + find_char(s.drop_first(), c)
    }
}

/// The index of the last `c` in `s`, or -1 where there is none.
pub open spec fn rfind_char(s: Seq<char>, c: char) -> int
    decreases s.len(),
{
    if s.len() == 0 {
        -1
    } else if s.last() == c {
        s.len() - 1
    } else {
        rfind_char(s.drop_last(), c)
    }
}

/// An index before which no `c` stands, and at which one stands or the text ends, is the one that
/// `find_char` gives.
pub proof fn lemma_find_char(s: Seq<char>, c: char, i: int)
    requires
        0 <= i <= s.len(),
        forall|k: int| 0 <= k < i ==> s[k] != c,
        i < s.len() ==> s[i] == c,
    ensures
        find_char(s, c) == i,
    decreases s.len(),
{
    if i > 0 {
        lemma_find_char(s.drop_first(), c, i - 1);
    }
}

/// What `find_char` gives is within the text, and no `c` stands before it.
pub proof fn lemma_find_char_bounds(s: Seq<char>, c: char)
    ensures
        0 <= find_char(s, c) <= s.len(),
        find_char(s, c) < s.len() ==> s[find_char(s, c)] == c,
        forall|k: int| 0 <= k < find_char(s, c) ==> s[k] != c,
    decreases s.len(),
{
    if s.len() != 0 && s[0] != c {
        let t = s.drop_first();
        lemma_find_char_bounds(t, c);
        assert forall|k: int| 0 <= k < find_char(s, c) implies s[k] != c by {
            if k > 0 {
                assert(s[k] == t[k - 1]);
            }
        }
    }
}

/// What `rfind_char` gives is within the text, and no `c` stands after it.
pub proof fn lemma_rfind_char_bounds(s: Seq<char>, c: char)
    ensures
        -1 <= rfind_char(s, c) < s.len(),
        rfind_char(s, c) >= 0 ==> s[rfind_char(s, c)] == c,
        forall|k: int| rfind_char(s, c) < k < s.len() ==> s[k] != c,
    decreases s.len(),
{
    if s.len() != 0 && s.last() != c {
        lemma_rfind_char_bounds(s.drop_last(), c);
        let t = s.drop_last();
        assert forall|k: int| rfind_char(s, c) < k < s.len() implies s[k] != c by {
            if k < t.len() {
                assert(s[k] == t[k]);
            }
        }
    }
}

/// The index of the first `c` at or behind `from`, or the length.
pub fn find_from(v: &Vec<char>, from: usize, c: char) -> (i: usize)
    requires
        from <= v@.len(),
    ensures
        from <= i <= v@.len(),
        i == from + find_char(v@.skip(from as int), c),
{
    let mut i: usize = from;
    while i < v.len() && v[i] != c
        invariant
            from <= i <= v@.len(),
            forall|k: int| from <= k < i ==> v@[k] != c,
        decreases v@.len() - i,
    {
        i = i + 1;
    }
    proof {
        lemma_find_char(v@.skip(from as int), c, i - from);
    }
    i
}

// ---------------------------------------------------------------------------------------------
// Splitting
// ---------------------------------------------------------------------------------------------
/// The pieces of `s` between the occurrences of `c`.
pub open spec fn split(s: Seq<char>, c: char) -> Seq<Seq<char>>
    decreases s.len(),
    via split_decreases
{
    let i = find_char(s, c);
    if i < s.len() {
        seq![s.take(i)] + split(s.skip(i + 1), c)
    } else {
        seq![s]
    }
}

#[via_fn]
proof fn split_decreases(s: Seq<char>, c: char) {
    lemma_find_char_bounds(s, c);
}

/// The text before the first `c` and the text behind it.
pub open spec fn split_at_first(s: Seq<char>, c: char) -> Option<(Seq<char>, Seq<char>)> {
    let i = find_char(s, c);
    if i < s.len() {
        Some((s.take(i), s.skip(i + 1)))
    } else {
        None
    }
}

/// The text before the last `c` and the text behind it.
pub open spec fn split_at_last(s: Seq<char>, c: char) -> Option<(Seq<char>, Seq<char>)> {
    let i = rfind_char(s, c);
    if i >= 0 {
        Some((s.take(i), s.skip(i + 1)))
    } else {
        None
    }
}

/// The first `n - 1` pieces of `s` between occurrences of `c`, and the rest as one piece.
pub open spec fn split_up_to(s: Seq<char>, n: nat, c: char) -> Seq<Seq<char>>
    decreases n,
{
    let i = find_char(s, c);
    if n <= 1 || i >= s.len() {
        seq![s]
    } else {
        seq![s.take(i)] + split_up_to(s.skip(i + 1), (n - 1) as nat, c)
    }
}

/// The pieces that a text is split into do not hold the character that it is split at.
pub proof fn lemma_split_pieces(s: Seq<char>, c: char)
    ensures
        split(s, c).len() >= 1,
        forall|i: int| 0 <= i < split(s, c).len() ==> !(#[trigger] split(s, c)[i]).contains(c),
    decreases s.len(),
{
    let i = find_char(s, c);
    lemma_find_char_bounds(s, c);
    if i < s.len() {
        let rest = split(s.skip(i + 1), c);
        lemma_split_pieces(s.skip(i + 1), c);
        assert(!s.take(i).contains(c));
        assert forall|k: int| 0 <= k < split(s, c).len() implies !(#[trigger] split(
            s,
            c,
        )[k]).contains(c) by {
            if k > 0 {
                assert(split(s, c)[k] == rest[k - 1]);
            }
        }
    }
}

/// At most the given number of pieces are split off.
pub proof fn lemma_split_up_to_len(s: Seq<char>, n: nat, c: char)
    ensures
        1 <= split_up_to(s, n, c).len(),
        n >= 1 ==> split_up_to(s, n, c).len() <= n,
    decreases n,
{
    let i = find_char(s, c);
    if n > 1 && i < s.len() {
        lemma_split_up_to_len(s.skip(i + 1), (n - 1) as nat, c);
    }
}

/// The view of a pair of text slices.
pub open spec fn opt_pair(o: Option<(&str, &str)>) -> Option<(Seq<char>, Seq<char>)> {
    match o {
        Some(p) => Some((p.0@, p.1@)),
        None => None,
    }
}

/// The pieces of `s` between the occurrences of `c`.
pub fn split_on<'a>(s: &'a str, c: char) -> (res: Vec<&'a str>)
    ensures
        slices(res@) == split(s@, c),
        res@.len() >= 1,
{
    let v = chars_of(s);
    let mut res: Vec<&'a str> = Vec::new();
    let mut start: usize = 0;
    let mut at: usize = find_from(&v, 0, c);
    proof {
        assert(slices(res@) + split(v@.skip(0), c) =~= split(s@, c)) by {
            assert(v@.skip(0) =~= s@);
        }
    }
    while at < v.len()
        invariant
            v@ == s@,
            start <= at <= v@.len(),
            at == start + find_char(v@.skip(start as int), c),
            slices(res@) + split(v@.skip(start as int), c) == split(s@, c),
        decreases v@.len() - at,
    {
        let piece = s.substring_char(start, at);
        let ghost rest = v@.skip(start as int);
        let ghost before = slices(res@);
        res.push(piece);
        proof {
            assert(piece@ =~= rest.take(at - start));
            assert(rest.skip(at - start + 1) =~= v@.skip(at + 1));
            assert(slices(res@) =~= before.push(piece@));
            assert(split(rest, c) == seq![rest.take(at - start)] + split(
                rest.skip(at - start + 1),
                c,
            ));
            assert(slices(res@) + split(v@.skip(at + 1), c) =~= before + split(rest, c));
        }
        start = at + 1;
        at = find_from(&v, start, c);
    }
    let piece = s.substring_char(start, v.len());
    let ghost before = slices(res@);
    res.push(piece);
    proof {
        let rest = v@.skip(start as int);
        assert(piece@ =~= rest);
        assert(slices(res@) =~= before.push(piece@));
        assert(split(rest, c) == seq![rest]);
        assert(slices(res@) =~= before + split(rest, c));
    }
    res
}

/// The text before the first `c` and the text behind it.
pub fn split_once<'a>(s: &'a str, c: char) -> (res: Option<(&'a str, &'a str)>)
    ensures
        opt_pair(res) == split_at_first(s@, c),
{
    let v = chars_of(s);
    let i = find_from(&v, 0, c);
    proof {
        assert(v@.skip(0) =~= s@);
    }
    if i < v.len() {
        let a = s.substring_char(0, i);
        let b = s.substring_char(i + 1, v.len());
        proof {
            assert(a@ =~= s@.take(i as int));
            assert(b@ =~= s@.skip(i + 1));
        }
        Some((a, b))
    } else {
        None
    }
}

/// The text before the last `c` and the text behind it.
pub fn rsplit_once<'a>(s: &'a str, c: char) -> (res: Option<(&'a str, &'a str)>)
    ensures
        opt_pair(res) == split_at_last(s@, c),
{
    let v = chars_of(s);
    let mut n: usize = v.len();
    proof {
        assert(s@.take(n as int) =~= s@);
    }
    while n > 0 && v[n - 1] != c
        invariant
            v@ == s@,
            n <= v@.len(),
            rfind_char(s@, c) == rfind_char(s@.take(n as int), c),
        decreases n,
    {
        proof {
            assert(s@.take(n as int).drop_last() =~= s@.take(n - 1));
        }
        n = n - 1;
    }
    if n > 0 {
        let i: usize = n - 1;
        let a = s.substring_char(0, i);
        let b = s.substring_char(i + 1, v.len());
        proof {
            assert(s@.take(n as int).last() == c);
            assert(a@ =~= s@.take(i as int));
            assert(b@ =~= s@.skip(i + 1));
        }
        Some((a, b))
    } else {
        None
    }
}

/// The first `n - 1` pieces of `s` between occurrences of `c`, and the rest as one piece.
pub fn splitn<'a>(s: &'a str, n: usize, c: char) -> (res: Vec<&'a str>)
    requires
        n >= 1,
    ensures
        slices(res@) == split_up_to(s@, n as nat, c),
{
    let v = chars_of(s);
    let mut res: Vec<&'a str> = Vec::new();
    let mut start: usize = 0;
    let mut left: usize = n;
    let mut at: usize = find_from(&v, 0, c);
    proof {
        assert(v@.skip(0) =~= s@);
        assert(slices(res@) + split_up_to(v@.skip(0), n as nat, c) =~= split_up_to(
            s@,
            n as nat,
            c,
        ));
    }
    while left > 1 && at < v.len()
        invariant
            v@ == s@,
            start <= at <= v@.len(),
            left >= 1,
            at == start + find_char(v@.skip(start as int), c),
            slices(res@) + split_up_to(v@.skip(start as int), left as nat, c) == split_up_to(
                s@,
                n as nat,
                c,
            ),
        decreases left,
    {
        let piece = s.substring_char(start, at);
        let ghost rest = v@.skip(start as int);
        let ghost before = slices(res@);
        res.push(piece);
        proof {
            assert(piece@ =~= rest.take(at - start));
            assert(rest.skip(at - start + 1) =~= v@.skip(at + 1));
            assert(slices(res@) =~= before.push(piece@));
            assert(split_up_to(rest, left as nat, c) == seq![rest.take(at - start)] + split_up_to(
                rest.skip(at - start + 1),
                (left - 1) as nat,
                c,
            ));
            assert(slices(res@) + split_up_to(v@.skip(at + 1), (left - 1) as nat, c) =~= before
                + split_up_to(rest, left as nat, c));
        }
        start = at + 1;
        left = left - 1;
        at = find_from(&v, start, c);
    }
    let piece = s.substring_char(start, v.len());
    let ghost before = slices(res@);
    res.push(piece);
    proof {
        let rest = v@.skip(start as int);
        assert(piece@ =~= rest);
        assert(slices(res@) =~= before.push(piece@));
        assert(split_up_to(rest, left as nat, c) == seq![rest]);
        assert(slices(res@) =~= before + split_up_to(rest, left as nat, c));
    }
    res
}

/// A line without a carriage return at its end.
pub open spec fn without_return(s: Seq<char>) -> Seq<char> {
    if s.len() > 0 && s.last() == '\r' {
        s.drop_last()
    } else {
        s
    }
}

/// The lines of `s`: a line ends at a newline, or at a carriage return and a newline. Nothing
/// behind the last newline is no line.
pub open spec fn lines(s: Seq<char>) -> Seq<Seq<char>>
    decreases s.len(),
    via lines_decreases
{
    let i = find_char(s, '\n');
    if s.len() == 0 {
        seq![]
    } else if i >= s.len() {
        seq![s]
    } else {
        seq![without_return(s.take(i))] + lines(s.skip(i + 1))
    }
}

#[via_fn]
proof fn lines_decreases(s: Seq<char>) {
    lemma_find_char_bounds(s, '\n');
}

/// The lines of `s`.
pub fn lines_of<'a>(s: &'a str) -> (res: Vec<&'a str>)
    ensures
        slices(res@) == lines(s@),
{
    let v = chars_of(s);
    let mut res: Vec<&'a str> = Vec::new();
    let mut start: usize = 0;
    proof {
        assert(v@.skip(0) =~= s@);
        assert(slices(res@) + lines(v@.skip(0)) =~= lines(s@));
    }
    while start < v.len()
        invariant
            v@ == s@,
            start <= v@.len(),
            slices(res@) + lines(v@.skip(start as int)) == lines(s@),
        decreases v@.len() - start,
    {
        let at = find_from(&v, start, '\n');
        let ghost rest = v@.skip(start as int);
        let ghost before = slices(res@);
        if at < v.len() {
            let end: usize = if at > start && v[at - 1] == '\r' {
                at - 1
            } else {
                at
            };
            let piece = s.substring_char(start, end);
            res.push(piece);
            proof {
                assert(piece@ =~= without_return(rest.take(at - start)));
                assert(rest.skip(at - start + 1) =~= v@.skip(at + 1));
                assert(slices(res@) =~= before.push(piece@));
                assert(slices(res@) + lines(v@.skip(at + 1)) =~= before + lines(rest));
            }
            start = at + 1;
        } else {
            let piece = s.substring_char(start, v.len());
            res.push(piece);
            proof {
                assert(piece@ =~= rest);
                assert(slices(res@) =~= before.push(piece@));
                assert(v@.skip(v@.len() as int).len() == 0);
                assert(slices(res@) + lines(v@.skip(v@.len() as int)) =~= before + lines(rest));
            }
            start = v.len();
        }
    }
    assert(lines(v@.skip(start as int)).len() == 0);
    assert(slices(res@) =~= lines(s@));
    res
}

// ---------------------------------------------------------------------------------------------
// Trimming
// ---------------------------------------------------------------------------------------------
/// A class of characters that trimming removes.
#[derive(Clone, Copy)]
pub enum CharClass {
    /// White space, in the sense of the Unicode property `White_Space`.
    Space,
    /// The path separator.
    Slash,
}

/// Whether `c` has the Unicode property `White_Space`.
pub open spec fn is_space(c: char) -> bool {
    let u = c as int;
    ||| 0x9 <= u <= 0xd
    ||| u == 0x20
    ||| u == 0x85
    ||| u == 0xa0
    ||| u == 0x1680
    ||| 0x2000 <= u <= 0x200a
    ||| u == 0x2028
    ||| u == 0x2029
    ||| u == 0x202f
    ||| u == 0x205f
    ||| u == 0x3000
}

impl CharClass {
    /// Whether `c` is of this class.
    pub open spec fn holds(self, c: char) -> bool {
        match self {
            CharClass::Space => is_space(c),
            CharClass::Slash => c == '/',
        }
    }

    /// Whether `c` is of this class.
    pub fn test(self, c: char) -> (res: bool)
        ensures
            res == self.holds(c),
    {
        let u: u32 = c as u32;
        match self {
            CharClass::Space => (0x9 <= u && u <= 0xd) || u == 0x20 || u == 0x85 || u == 0xa0
                || u == 0x1680 || (0x2000 <= u && u <= 0x200a) || u == 0x2028 || u == 0x2029 || u
                == 0x202f || u == 0x205f || u == 0x3000,
            CharClass::Slash => c == '/',
        }
    }
}

/// `s` without the characters of the class at its start.
pub open spec fn trim_front(s: Seq<char>, class: CharClass) -> Seq<char>
    decreases s.len(),
{
    if s.len() > 0 && class.holds(s[0]) {
        trim_front(s.drop_first(), class)
    } else {
        s
    }
}

/// `s` without the characters of the class at its end.
pub open spec fn trim_back(s: Seq<char>, class: CharClass) -> Seq<char>
    decreases s.len(),
{
    if s.len() > 0 && class.holds(s.last()) {
        trim_back(s.drop_last(), class)
    } else {
        s
    }
}

/// `s` without the characters of the class at either end.
pub open spec fn trimmed(s: Seq<char>, class: CharClass) -> Seq<char> {
    trim_back(trim_front(s, class), class)
}

/// `s` without the characters of the class at its start.
pub fn trim_start<'a>(s: &'a str, class: CharClass) -> (res: &'a str)
    ensures
        res@ == trim_front(s@, class),
{
    let v = chars_of(s);
    let mut i: usize = 0;
    proof {
        assert(v@.skip(0) =~= s@);
    }
    while i < v.len() && class.test(v[i])
        invariant
            v@ == s@,
            i <= v@.len(),
            trim_front(s@, class) == trim_front(v@.skip(i as int), class),
        decreases v@.len() - i,
    {
        proof {
            assert(v@.skip(i as int).drop_first() =~= v@.skip(i + 1));
        }
        i = i + 1;
    }
    let r = s.substring_char(i, v.len());
    assert(r@ =~= v@.skip(i as int));
    r
}

/// `s` without the characters of the class at its end.
pub fn trim_end<'a>(s: &'a str, class: CharClass) -> (res: &'a str)
    ensures
        res@ == trim_back(s@, class),
{
    let v = chars_of(s);
    let mut n: usize = v.len();
    proof {
        assert(v@.take(n as int) =~= s@);
    }
    while n > 0 && class.test(v[n - 1])
        invariant
            v@ == s@,
            n <= v@.len(),
            trim_back(s@, class) == trim_back(v@.take(n as int), class),
        decreases n,
    {
        proof {
            assert(v@.take(n as int).drop_last() =~= v@.take(n - 1));
        }
        n = n - 1;
    }
    let r = s.substring_char(0, n);
    assert(r@ =~= v@.take(n as int));
    r
}

/// `s` without the characters of the class at either end.
pub fn trim<'a>(s: &'a str, class: CharClass) -> (res: &'a str)
    ensures
        res@ == trimmed(s@, class),
{
    trim_end(trim_start(s, class), class)
}

/// Trimming the front leaves a text that does not begin with a character of the class.
proof fn lemma_trim_front(s: Seq<char>, class: CharClass)
    ensures
        trim_front(s, class).len() > 0 ==> !class.holds(trim_front(s, class)[0]),
        s.len() > 0 && !class.holds(s[0]) ==> trim_front(s, class) == s,
    decreases s.len(),
{
    if s.len() > 0 && class.holds(s[0]) {
        lemma_trim_front(s.drop_first(), class);
    }
}

/// Trimming the back leaves a beginning that does not end with a character of the class.
proof fn lemma_trim_back(s: Seq<char>, class: CharClass)
    ensures
        trim_back(s, class).is_prefix_of(s),
        trim_back(s, class).len() > 0 ==> !class.holds(trim_back(s, class).last()),
    decreases s.len(),
{
    if s.len() > 0 && class.holds(s.last()) {
        lemma_trim_back(s.drop_last(), class);
        assert(trim_back(s, class).is_prefix_of(s));
    }
}

/// A text that neither begins nor ends with a character of the class is left as it is.
pub proof fn lemma_trimmed_clean(s: Seq<char>, class: CharClass)
    requires
        s.len() > 0 ==> !class.holds(s[0]) && !class.holds(s.last()),
    ensures
        trimmed(s, class) == s,
{
    lemma_trim_front(s, class);
}

/// A trimmed text is left as it is by trimming it again.
pub proof fn law_trim_once(s: Seq<char>, class: CharClass)
    ensures
        trimmed(trimmed(s, class), class) == trimmed(s, class),
{
    let f = trim_front(s, class);
    let t = trimmed(s, class);
    lemma_trim_front(s, class);
    lemma_trim_back(f, class);
    if t.len() > 0 {
        assert(t[0] == f[0]);
    }
    lemma_trimmed_clean(t, class);
}

/// The number of characters before the first white space, or the length.
pub open spec fn word_len(s: Seq<char>) -> int
    decreases s.len(),
{
    if s.len() == 0 || is_space(s[0]) {
        0
    } else {
        1 + word_len(s.drop_first())
    }
}

/// The first run of characters other than white space.
pub open spec fn first_word(s: Seq<char>) -> Option<Seq<char>> {
    let t = trim_front(s, CharClass::Space);
    if t.len() == 0 {
        None
    } else {
        Some(t.take(word_len(t)))
    }
}

/// The first run of characters other than white space.
pub fn word<'a>(s: &'a str) -> (res: Option<&'a str>)
    ensures
        opt_slice(res) == first_word(s@),
{
    let t = trim_start(s, CharClass::Space);
    let v = chars_of(t);
    if v.len() == 0 {
        return None;
    }
    let mut i: usize = 0;
    proof {
        assert(v@.skip(0) =~= t@);
    }
    while i < v.len() && !CharClass::Space.test(v[i])
        invariant
            v@ == t@,
            i <= v@.len(),
            word_len(t@) == i + word_len(v@.skip(i as int)),
        decreases v@.len() - i,
    {
        proof {
            assert(v@.skip(i as int).drop_first() =~= v@.skip(i + 1));
        }
        i = i + 1;
    }
    let r = t.substring_char(0, i);
    assert(r@ =~= t@.take(word_len(t@)));
    Some(r)
}

// ---------------------------------------------------------------------------------------------
// Case
// ---------------------------------------------------------------------------------------------
/// The lower-case form of an ASCII capital; any other character as it is.
pub open spec fn ascii_lower_char(c: char) -> char {
    if 'A' <= c <= 'Z' {
        (c as u32 + 32) as char
    } else {
        c
    }
}

/// `s` with its ASCII capitals in lower case.
pub open spec fn ascii_lower(s: Seq<char>) -> Seq<char> {
    s.map_values(|c: char| ascii_lower_char(c))
}

/// `s` with its ASCII capitals in lower case.
pub fn to_ascii_lower(s: &str) -> (res: String)
    ensures
        res@ == ascii_lower(s@),
{
    let v = chars_of(s);
    let mut out = String::new();
    let mut i: usize = 0;
    while i < v.len()
        invariant
            v@ == s@,
            i <= v@.len(),
            out@ == ascii_lower(s@.take(i as int)),
        decreases v@.len() - i,
    {
        let c = v[i];
        let l = if 'A' <= c && c <= 'Z' {
            let u: u8 = c as u8;
            (u + 32) as char
        } else {
            c
        };
        out.push(l);
        proof {
            assert(s@.take(i + 1) =~= s@.take(i as int).push(c));
            assert(ascii_lower(s@.take(i + 1)) =~= ascii_lower(s@.take(i as int)).push(
                ascii_lower_char(c),
            ));
        }
        i = i + 1;
    }
    assert(s@.take(i as int) =~= s@);
    out
}

// ---------------------------------------------------------------------------------------------
// Replacing
// ---------------------------------------------------------------------------------------------
/// The first index of `s` at which `p` stands, if there is one.
pub open spec fn find_text(s: Seq<char>, p: Seq<char>) -> Option<int>
    decreases s.len(),
{
    if p.is_prefix_of(s) {
        Some(0)
    } else if s.len() == 0 {
        None
    } else {
        match find_text(s.drop_first(), p) {
            Some(i) => Some(i + 1),
            None => None,
        }
    }
}

/// What `find_text` gives is an index at which `p` stands.
pub proof fn lemma_find_text(s: Seq<char>, p: Seq<char>)
    ensures
        find_text(s, p) matches Some(i) ==> 0 <= i && i + p.len() <= s.len() && s.subrange(
            i,
            i + p.len(),
        ) == p,
    decreases s.len(),
{
    if !p.is_prefix_of(s) && s.len() != 0 {
        lemma_find_text(s.drop_first(), p);
        if let Some(i) = find_text(s.drop_first(), p) {
            assert(s.subrange(i + 1, i + 1 + p.len()) =~= s.drop_first().subrange(i, i + p.len()));
        }
    }
}

/// `s` with every occurrence of `p`, taken from the left without overlap, replaced by `r`.
pub open spec fn replaced(s: Seq<char>, p: Seq<char>, r: Seq<char>) -> Seq<char>
    decreases s.len(),
    via replaced_decreases
{
    if p.len() == 0 {
        s
    } else {
        match find_text(s, p) {
            None => s,
            Some(i) => s.take(i) + r + replaced(s.skip(i + p.len()), p, r),
        }
    }
}

#[via_fn]
proof fn replaced_decreases(s: Seq<char>, p: Seq<char>, r: Seq<char>) {
    lemma_find_text(s, p);
}

/// Whether `p` stands in `v` at `at`.
fn stands_at(v: &Vec<char>, at: usize, p: &Vec<char>) -> (res: bool)
    requires
        at <= v@.len(),
    ensures
        res == p@.is_prefix_of(v@.skip(at as int)),
{
    if p.len() > v.len() - at {
        return false;
    }
    let mut i: usize = 0;
    while i < p.len()
        invariant
            at <= v@.len(),
            i <= p@.len() <= v@.len() - at,
            forall|k: int| 0 <= k < i ==> v@[at + k] == p@[k],
        decreases p@.len() - i,
    {
        assert(at + i < v.len());
        if v[at + i] != p[i] {
            assert(p@[i as int] != v@.skip(at as int).subrange(0, p@.len() as int)[i as int]);
            return false;
        }
        i = i + 1;
    }
    assert(p@ =~= v@.skip(at as int).subrange(0, p@.len() as int));
    true
}

/// The first index at or behind `from` at which `p` stands.
fn find_text_from(v: &Vec<char>, from: usize, p: &Vec<char>) -> (res: Option<usize>)
    requires
        from <= v@.len(),
    ensures
        match res {
            Some(i) => from <= i && i + p@.len() <= v@.len() && find_text(
                v@.skip(from as int),
                p@,
            ) == Some(i - from),
            None => find_text(v@.skip(from as int), p@) is None,
        },
{
    let mut i: usize = from;
    loop
        invariant
            from <= i <= v@.len(),
            find_text(v@.skip(from as int), p@) == (match find_text(v@.skip(i as int), p@) {
                Some(j) => Some(j + i - from),
                None => None,
            }),
        decreases v@.len() - i,
    {
        if stands_at(v, i, p) {
            return Some(i);
        }
        if i >= v.len() {
            return None;
        }
        proof {
            assert(v@.skip(i as int).drop_first() =~= v@.skip(i + 1));
        }
        i = i + 1;
    }
}

/// Appends the characters of `v` from `from` up to `to`.
fn push_range(out: &mut String, v: &Vec<char>, from: usize, to: usize)
    requires
        from <= to <= v@.len(),
    ensures
        final(out)@ == old(out)@ + v@.subrange(from as int, to as int),
{
    let ghost before = out@;
    let mut i: usize = from;
    assert(out@ =~= before + v@.subrange(from as int, from as int));
    while i < to
        invariant
            from <= i <= to <= v@.len(),
            out@ == before + v@.subrange(from as int, i as int),
        decreases to - i,
    {
        out.push(v[i]);
        assert(before + v@.subrange(from as int, i + 1) =~= (before + v@.subrange(
            from as int,
            i as int,
        )).push(v@[i as int]));
        i = i + 1;
    }
}

/// `s` with every occurrence of `p` replaced by `r`.
pub fn replace(s: &str, p: &str, r: &str) -> (res: String)
    requires
        p@.len() > 0,
    ensures
        res@ == replaced(s@, p@, r@),
{
    let v = chars_of(s);
    let pv = chars_of(p);
    let mut out = String::new();
    let mut start: usize = 0;
    proof {
        assert(v@.skip(0) =~= s@);
        assert(out@ + replaced(v@.skip(0), p@, r@) =~= replaced(s@, p@, r@));
    }
    loop
        invariant
            v@ == s@,
            pv@ == p@,
            p@.len() > 0,
            start <= v@.len(),
            out@ + replaced(v@.skip(start as int), p@, r@) == replaced(s@, p@, r@),
        decreases v@.len() - start,
    {
        let ghost rest = v@.skip(start as int);
        let ghost before = out@;
        match find_text_from(&v, start, &pv) {
            Some(i) => {
                push_range(&mut out, &v, start, i);
                out.append(r);
                proof {
                    assert(v@.subrange(start as int, i as int) =~= rest.take(i - start));
                    assert(rest.skip(i - start + p@.len()) =~= v@.skip(i + p@.len()));
                    assert(out@ + replaced(v@.skip(i + p@.len()), p@, r@) =~= before + replaced(
                        rest,
                        p@,
                        r@,
                    ));
                }
                assert(i + pv.len() <= v.len());
                start = i + pv.len();
            },
            None => {
                push_range(&mut out, &v, start, v.len());
                proof {
                    assert(v@.subrange(start as int, v@.len() as int) =~= rest);
                }
                return out;
            },
        }
    }
}

/// Replacing a single character, one character of the text after the other.
pub proof fn lemma_replaced_char(s: Seq<char>, c: char, r: Seq<char>)
    ensures
        s.len() == 0 ==> replaced(s, seq![c], r) == s,
        s.len() > 0 ==> replaced(s, seq![c], r) == if s[0] == c {
            r + replaced(s.skip(1), seq![c], r)
        } else {
            seq![s[0]] + replaced(s.skip(1), seq![c], r)
        },
{
    let p = seq![c];
    if s.len() > 0 {
        let rest = s.skip(1);
        assert(rest =~= s.drop_first());
        if s[0] == c {
            assert(s.subrange(0, 1) =~= p);
            assert(find_text(s, p) == Some(0int));
            assert(replaced(s, p, r) =~= r + replaced(rest, p, r));
        } else {
            assert(!p.is_prefix_of(s)) by {
                if p.is_prefix_of(s) {
                    assert(s.subrange(0, 1)[0] == p[0]);
                }
            }
            lemma_find_text(rest, p);
            match find_text(rest, p) {
                Some(j) => {
                    assert(s.take(j + 1) =~= seq![s[0]] + rest.take(j));
                    assert(s.skip(j + 2) =~= rest.skip(j + 1));
                    assert(replaced(s, p, r) =~= seq![s[0]] + replaced(rest, p, r));
                },
                None => {
                    assert(replaced(s, p, r) =~= seq![s[0]] + replaced(rest, p, r));
                },
            }
        }
    }
}

/// Whether `part` stands somewhere in `whole`.
pub open spec fn holds_text(whole: Seq<char>, part: Seq<char>) -> bool {
    exists|k: int|
        0 <= k <= whole.len() - part.len() && #[trigger] whole.subrange(k, k + part.len()) == part
}

/// A text holds each of the parts that it is put together from.
pub proof fn lemma_holds_part(before: Seq<char>, part: Seq<char>, behind: Seq<char>)
    ensures
        holds_text(before + part + behind, part),
{
    let whole = before + part + behind;
    let k = before.len() as int;
    assert(whole.subrange(k, k + part.len()) =~= part);
}

/// What a part of a text holds, the text holds.
pub proof fn lemma_holds_wider(
    before: Seq<char>,
    middle: Seq<char>,
    behind: Seq<char>,
    part: Seq<char>,
)
    requires
        holds_text(middle, part),
    ensures
        holds_text(before + middle + behind, part),
{
    let whole = before + middle + behind;
    let k = choose|k: int|
        0 <= k <= middle.len() - part.len() && #[trigger] middle.subrange(k, k + part.len())
            == part;
    let at = before.len() + k;
    assert(whole.subrange(at, at + part.len()) =~= middle.subrange(k, k + part.len()));
}

/// The text before the first `p` and the text behind it.
pub open spec fn split_at_text(s: Seq<char>, p: Seq<char>) -> Option<(Seq<char>, Seq<char>)> {
    match find_text(s, p) {
        Some(i) => Some((s.take(i), s.skip(i + p.len()))),
        None => None,
    }
}

/// The text before the first `p` and the text behind it.
pub fn split_once_text<'a>(s: &'a str, p: &str) -> (res: Option<(&'a str, &'a str)>)
    ensures
        opt_pair(res) == split_at_text(s@, p@),
{
    let v = chars_of(s);
    let pv = chars_of(p);
    proof {
        assert(v@.skip(0) =~= s@);
    }
    let end: usize = v.len();
    match find_text_from(&v, 0, &pv) {
        Some(i) => {
            let a = s.substring_char(0, i);
            assert(i + pv@.len() <= end);
            let b = s.substring_char(i + pv.len(), end);
            proof {
                assert(a@ =~= s@.take(i as int));
                assert(b@ =~= s@.skip(i + p@.len()));
            }
            Some((a, b))
        },
        None => None,
    }
}

// ---------------------------------------------------------------------------------------------
// Joining
// ---------------------------------------------------------------------------------------------
/// The parts, with `sep` between each two.
pub open spec fn joined(parts: Seq<Seq<char>>, sep: Seq<char>) -> Seq<char>
    decreases parts.len(),
{
    if parts.len() == 0 {
        seq![]
    } else if parts.len() == 1 {
        parts[0]
    } else {
        joined(parts.drop_last(), sep) + sep + parts.last()
    }
}

/// The parts, with `sep` between each two.
pub fn join(parts: &Vec<String>, sep: &str) -> (res: String)
    ensures
        res@ == joined(texts(parts@), sep@),
{
    let mut out = String::new();
    let mut i: usize = 0;
    let ghost all = texts(parts@);
    assert(all.take(0) =~= seq![]);
    while i < parts.len()
        invariant
            i <= parts@.len(),
            all == texts(parts@),
            out@ == joined(all.take(i as int), sep@),
        decreases parts@.len() - i,
    {
        let ghost before = out@;
        if i > 0 {
            out.append(sep);
        }
        out.append(parts[i].as_str());
        proof {
            assert(all[i as int] == parts@[i as int]@);
            let t = all.take(i + 1);
            assert(t.drop_last() =~= all.take(i as int));
            assert(t.last() == all[i as int]);
            if i == 0 {
                assert(before =~= seq![]);
                assert(out@ =~= t[0]);
            }
        }
        i = i + 1;
    }
    assert(all.take(i as int) =~= all);
    out
}

/// The first of several parts stands first.
proof fn lemma_joined_front(parts: Seq<Seq<char>>, sep: Seq<char>)
    requires
        parts.len() > 1,
    ensures
        joined(parts, sep) == parts[0] + sep + joined(parts.drop_first(), sep),
    decreases parts.len(),
{
    let rest = parts.drop_first();
    let up = parts.drop_last();
    if parts.len() == 2 {
        assert(joined(up, sep) == parts[0]);
        assert(joined(rest, sep) == parts[1]);
    } else {
        lemma_joined_front(up, sep);
        assert(up.drop_first() =~= rest.drop_last());
        assert(joined(parts, sep) =~= parts[0] + sep + joined(rest, sep));
    }
}

/// Two lists of parts are joined by joining each, with the separator between the two.
pub proof fn lemma_joined_both(a: Seq<Seq<char>>, b: Seq<Seq<char>>, sep: Seq<char>)
    requires
        a.len() > 0,
        b.len() > 0,
    ensures
        joined(a + b, sep) == joined(a, sep) + sep + joined(b, sep),
    decreases b.len(),
{
    assert((a + b).last() == b.last());
    if b.len() == 1 {
        assert((a + b).drop_last() =~= a);
    } else {
        assert((a + b).drop_last() =~= a + b.drop_last());
        lemma_joined_both(a, b.drop_last(), sep);
        assert(joined(a + b, sep) =~= joined(a, sep) + sep + joined(b, sep));
    }
}

/// Parts that do not hold a character, joined by that character, are split into the same parts.
pub proof fn law_joined_is_split(parts: Seq<Seq<char>>, c: char)
    requires
        parts.len() > 0,
        forall|i: int| 0 <= i < parts.len() ==> !(#[trigger] parts[i]).contains(c),
    ensures
        split(joined(parts, seq![c]), c) == parts,
    decreases parts.len(),
{
    let s = joined(parts, seq![c]);
    let first = parts[0];
    assert(!first.contains(c));
    if parts.len() == 1 {
        lemma_find_char(s, c, s.len() as int);
        assert(split(s, c) =~= parts);
    } else {
        let rest = parts.drop_first();
        lemma_joined_front(parts, seq![c]);
        let t = joined(rest, seq![c]);
        assert forall|k: int| 0 <= k < first.len() implies s[k] != c by {
            assert(s[k] == first[k]);
        }
        assert(s[first.len() as int] == c);
        lemma_find_char(s, c, first.len() as int);
        assert(s.take(first.len() as int) =~= first);
        assert(s.skip(first.len() as int + 1) =~= t);
        law_joined_is_split(rest, c);
        assert(split(s, c) =~= parts);
    }
}

// ---------------------------------------------------------------------------------------------
// Ordering
// ---------------------------------------------------------------------------------------------
/// Whether `a` comes before `b` in the order of their characters' code points.
pub open spec fn text_before(a: Seq<char>, b: Seq<char>) -> bool
    decreases a.len(),
{
    if b.len() == 0 {
        false
    } else if a.len() == 0 {
        true
    } else if a[0] != b[0] {
        a[0] < b[0]
    } else {
        text_before(a.drop_first(), b.drop_first())
    }
}

/// Of two texts, at most one comes before the other, and neither only where they are the same.
pub proof fn lemma_text_before_total(a: Seq<char>, b: Seq<char>)
    ensures
        !(text_before(a, b) && text_before(b, a)),
        !text_before(a, b) && !text_before(b, a) ==> a == b,
        !text_before(a, a),
    decreases a.len(),
{
    if a.len() == 0 {
        if b.len() == 0 {
            assert(a =~= b);
        }
    } else {
        lemma_text_before_total(a.drop_first(), a.drop_first());
        if b.len() != 0 && a[0] == b[0] {
            lemma_text_before_total(a.drop_first(), b.drop_first());
            if a.drop_first() == b.drop_first() {
                assert(a =~= seq![a[0]] + a.drop_first());
                assert(b =~= seq![b[0]] + b.drop_first());
            }
        }
    }
}

/// The order of texts is transitive.
pub proof fn lemma_text_before_transitive(a: Seq<char>, b: Seq<char>, c: Seq<char>)
    requires
        text_before(a, b),
        text_before(b, c),
    ensures
        text_before(a, c),
    decreases a.len(),
{
    if a.len() != 0 && b.len() != 0 && c.len() != 0 && a[0] == b[0] && b[0] == c[0] {
        lemma_text_before_transitive(a.drop_first(), b.drop_first(), c.drop_first());
    }
}

/// Whether `a` comes before `b` in the order of their characters' code points.
pub fn before(a: &str, b: &str) -> (res: bool)
    ensures
        res == text_before(a@, b@),
{
    let va = chars_of(a);
    let vb = chars_of(b);
    let mut i: usize = 0;
    proof {
        assert(va@.skip(0) =~= a@);
        assert(vb@.skip(0) =~= b@);
    }
    loop
        invariant
            va@ == a@,
            vb@ == b@,
            i <= va@.len(),
            i <= vb@.len(),
            text_before(a@, b@) == text_before(va@.skip(i as int), vb@.skip(i as int)),
        decreases va@.len() - i,
    {
        if i >= vb.len() {
            return false;
        }
        if i >= va.len() {
            return true;
        }
        if va[i] != vb[i] {
            return va[i] < vb[i];
        }
        proof {
            assert(va@.skip(i as int).drop_first() =~= va@.skip(i + 1));
            assert(vb@.skip(i as int).drop_first() =~= vb@.skip(i + 1));
        }
        i = i + 1;
    }
}

// ---------------------------------------------------------------------------------------------
// Laws
// ---------------------------------------------------------------------------------------------
/// Behind a prefix stands what is left without it.
pub proof fn law_prefix_taken(prefix: Seq<char>, s: Seq<char>)
    ensures
        without_prefix(prefix + s, prefix) == Some(s),
{
    let t = prefix + s;
    assert(t.subrange(0, prefix.len() as int) =~= prefix);
    assert(t.skip(prefix.len() as int) =~= s);
}

/// A text that is split at the first `c` gives what stands on either side of it.
pub proof fn law_split_at_first(a: Seq<char>, c: char, b: Seq<char>)
    requires
        !a.contains(c),
    ensures
        split_at_first(a + seq![c] + b, c) == Some((a, b)),
        split_at_first(a, c) is None,
{
    let s = a + seq![c] + b;
    assert forall|k: int| 0 <= k < a.len() implies s[k] != c by {
        assert(s[k] == a[k]);
    }
    lemma_find_char(s, c, a.len() as int);
    lemma_find_char(a, c, a.len() as int);
    assert(s.take(a.len() as int) =~= a);
    assert(s.skip(a.len() as int + 1) =~= b);
}

/// An index behind which no `c` stands, and at which one stands or the text begins, is the one
/// that `rfind_char` gives.
proof fn lemma_rfind_char(s: Seq<char>, c: char, i: int)
    requires
        -1 <= i < s.len(),
        i >= 0 ==> s[i] == c,
        forall|k: int| i < k < s.len() ==> s[k] != c,
    ensures
        rfind_char(s, c) == i,
    decreases s.len(),
{
    if s.len() > 0 && i < s.len() - 1 {
        lemma_rfind_char(s.drop_last(), c, i);
    }
}

/// A text that is split at the last `c` gives what stands on either side of it.
pub proof fn law_split_at_last(a: Seq<char>, c: char, b: Seq<char>)
    requires
        !b.contains(c),
    ensures
        split_at_last(a + seq![c] + b, c) == Some((a, b)),
        split_at_last(b, c) is None,
{
    let s = a + seq![c] + b;
    assert forall|k: int| a.len() < k < s.len() implies s[k] != c by {
        assert(s[k] == b[k - a.len() - 1]);
    }
    lemma_rfind_char(s, c, a.len() as int);
    lemma_rfind_char(b, c, -1);
    assert(s.take(a.len() as int) =~= a);
    assert(s.skip(a.len() as int + 1) =~= b);
}

/// The pieces of a text are its first piece and those of the rest.
pub proof fn law_split_pieces(a: Seq<char>, c: char, b: Seq<char>)
    requires
        !a.contains(c),
    ensures
        split(a + seq![c] + b, c) == seq![a] + split(b, c),
        split(a, c) == seq![a],
{
    let s = a + seq![c] + b;
    assert forall|k: int| 0 <= k < a.len() implies s[k] != c by {
        assert(s[k] == a[k]);
    }
    lemma_find_char(s, c, a.len() as int);
    lemma_find_char(a, c, a.len() as int);
    assert(s.take(a.len() as int) =~= a);
    assert(s.skip(a.len() as int + 1) =~= b);
}

/// A text that is split into at most `n` pieces gives its first piece and at most one less of the
/// rest; the last piece is not split.
pub proof fn law_split_up_to(a: Seq<char>, c: char, b: Seq<char>, n: nat)
    requires
        !a.contains(c),
    ensures
        n > 1 ==> split_up_to(a + seq![c] + b, n, c) == seq![a] + split_up_to(b, (n - 1) as nat, c),
        split_up_to(a, n, c) == seq![a],
        split_up_to(b, 1, c) == seq![b],
{
    let s = a + seq![c] + b;
    assert forall|k: int| 0 <= k < a.len() implies s[k] != c by {
        assert(s[k] == a[k]);
    }
    lemma_find_char(s, c, a.len() as int);
    lemma_find_char(a, c, a.len() as int);
    assert(s.take(a.len() as int) =~= a);
    assert(s.skip(a.len() as int + 1) =~= b);
}

/// The lines of a text are its first line, without a carriage return at its end, and those of the
/// rest.
pub proof fn law_lines(a: Seq<char>, b: Seq<char>)
    requires
        !a.contains('\n'),
    ensures
        lines(a + seq!['\n'] + b) == seq![without_return(a)] + lines(b),
        a.len() > 0 ==> lines(a) == seq![a],
        lines(seq![]) == Seq::<Seq<char>>::empty(),
{
    let s = a + seq!['\n'] + b;
    assert forall|k: int| 0 <= k < a.len() implies s[k] != '\n' by {
        assert(s[k] == a[k]);
    }
    lemma_find_char(s, '\n', a.len() as int);
    lemma_find_char(a, '\n', a.len() as int);
    assert(s.take(a.len() as int) =~= a);
    assert(s.skip(a.len() as int + 1) =~= b);
}

/// A text that does not hold the first character of `p` does not hold `p`.
proof fn lemma_find_text_none(s: Seq<char>, p: Seq<char>)
    requires
        p.len() > 0,
        !s.contains(p[0]),
    ensures
        find_text(s, p) is None,
    decreases s.len(),
{
    if p.is_prefix_of(s) {
        assert(s.subrange(0, p.len() as int)[0] == p[0]);
        assert(s.contains(s[0]));
    }
    if s.len() > 0 {
        let t = s.drop_first();
        assert(!t.contains(p[0])) by {
            if t.contains(p[0]) {
                let k = choose|k: int| 0 <= k < t.len() && t[k] == p[0];
                assert(s[k + 1] == p[0]);
            }
        }
        lemma_find_text_none(t, p);
    }
}

/// Behind a text that does not hold its first character, `p` is found.
proof fn lemma_find_text_at(a: Seq<char>, p: Seq<char>, b: Seq<char>)
    requires
        p.len() > 0,
        !a.contains(p[0]),
    ensures
        find_text(a + p + b, p) == Some(a.len() as int),
    decreases a.len(),
{
    let s = a + p + b;
    if a.len() == 0 {
        assert(s.subrange(0, p.len() as int) =~= p);
    } else {
        let t = a.drop_first();
        assert(s[0] == a[0]);
        assert(a.contains(a[0]));
        assert(!p.is_prefix_of(s)) by {
            if p.is_prefix_of(s) {
                assert(s.subrange(0, p.len() as int)[0] == p[0]);
            }
        }
        assert(s.drop_first() =~= t + p + b);
        assert(!t.contains(p[0])) by {
            if t.contains(p[0]) {
                let k = choose|k: int| 0 <= k < t.len() && t[k] == p[0];
                assert(a[k + 1] == p[0]);
            }
        }
        lemma_find_text_at(t, p, b);
    }
}

/// Behind a text that does not hold its first character, `p` is replaced and the rest is gone on
/// with; such a text by itself is left as it is.
pub proof fn law_replaced(a: Seq<char>, p: Seq<char>, b: Seq<char>, r: Seq<char>)
    requires
        p.len() > 0,
        !a.contains(p[0]),
    ensures
        replaced(a + p + b, p, r) == a + r + replaced(b, p, r),
        replaced(a, p, r) == a,
{
    let s = a + p + b;
    lemma_find_text_at(a, p, b);
    lemma_find_text_none(a, p);
    assert(s.take(a.len() as int) =~= a);
    assert(s.skip(a.len() as int + p.len()) =~= b);
}

/// A text is split at the first `p` that stands behind a text without its first character.
pub proof fn law_split_at_text(a: Seq<char>, p: Seq<char>, b: Seq<char>)
    requires
        p.len() > 0,
        !a.contains(p[0]),
    ensures
        split_at_text(a + p + b, p) == Some((a, b)),
{
    let s = a + p + b;
    lemma_find_text_at(a, p, b);
    assert(s.take(a.len() as int) =~= a);
    assert(s.skip(a.len() as int + p.len()) =~= b);
}

/// The two sides of a text that is split at `p`, with `p` between them, are the text.
pub proof fn law_split_at_text_whole(s: Seq<char>, p: Seq<char>)
    ensures
        split_at_text(s, p) matches Some((a, b)) ==> s == a + p + b,
{
    lemma_find_text(s, p);
    if let Some(i) = find_text(s, p) {
        assert(s =~= s.take(i) + p + s.skip(i + p.len())) by {
            assert forall|k: int| 0 <= k < s.len() implies #[trigger] s[k] == (s.take(i) + p
                + s.skip(i + p.len()))[k] by {
                if i <= k < i + p.len() {
                    assert(s.subrange(i, i + p.len())[k - i] == p[k - i]);
                }
            }
        }
    }
}

/// Characters of the class around a text that neither begins nor ends with one are trimmed, and
/// nothing else is.
pub proof fn law_trimmed(a: Seq<char>, s: Seq<char>, b: Seq<char>, class: CharClass)
    requires
        s.len() > 0,
        !class.holds(s[0]),
        !class.holds(s.last()),
        forall|k: int| 0 <= k < a.len() ==> class.holds(#[trigger] a[k]),
        forall|k: int| 0 <= k < b.len() ==> class.holds(#[trigger] b[k]),
    ensures
        trimmed(a + s + b, class) == s,
    decreases a.len() + b.len(),
{
    if a.len() > 0 {
        let t = a.drop_first();
        assert((a + s + b)[0] == a[0]);
        assert((a + s + b).drop_first() =~= t + s + b);
        assert forall|k: int| 0 <= k < t.len() implies class.holds(#[trigger] t[k]) by {
            assert(t[k] == a[k + 1]);
        }
        law_trimmed(t, s, b, class);
    } else if b.len() > 0 {
        let t = b.drop_last();
        let w = a + s + b;
        assert(a + s + t =~= w.drop_last());
        law_trimmed(a, s, t, class);
        assert(w[0] == s[0] && w.last() == b.last());
        assert((a + s + t)[0] == s[0]);
        assert(trim_front(w, class) == w);
        assert(trim_front(w.drop_last(), class) == w.drop_last());
    } else {
        assert(a + s + b =~= s);
        lemma_trimmed_clean(s, class);
    }
}

/// A word without white space is the first word of a text that goes on behind white space.
pub proof fn law_first_word(w: Seq<char>, c: char, rest: Seq<char>)
    requires
        w.len() > 0,
        forall|k: int| 0 <= k < w.len() ==> !is_space(#[trigger] w[k]),
        is_space(c),
    ensures
        first_word(w + seq![c] + rest) == Some(w),
{
    let s = w + seq![c] + rest;
    assert(s[0] == w[0]);
    lemma_trim_front(s, CharClass::Space);
    lemma_word_len(w, c, rest);
    assert(s.take(w.len() as int) =~= w);
}

/// A word ends where white space begins.
proof fn lemma_word_len(w: Seq<char>, c: char, rest: Seq<char>)
    requires
        forall|k: int| 0 <= k < w.len() ==> !is_space(#[trigger] w[k]),
        is_space(c),
    ensures
        word_len(w + seq![c] + rest) == w.len(),
    decreases w.len(),
{
    let s = w + seq![c] + rest;
    if w.len() > 0 {
        let t = w.drop_first();
        assert(s[0] == w[0]);
        assert(s.drop_first() =~= t + seq![c] + rest);
        assert forall|k: int| 0 <= k < t.len() implies !is_space(#[trigger] t[k]) by {
            assert(t[k] == w[k + 1]);
        }
        lemma_word_len(t, c, rest);
    } else {
        assert(s[0] == c);
    }
}

/// Every text holds itself.
pub broadcast proof fn lemma_holds_self(s: Seq<char>)
    ensures
        #[trigger] holds_text(s, s),
{
    let start: int = 0;
    assert(s.subrange(start, start + s.len()) =~= s);
}

/// Two texts, one behind the other, hold what either of them holds.
pub broadcast proof fn lemma_holds_sum(a: Seq<char>, b: Seq<char>, part: Seq<char>)
    ensures
        holds_text(a, part) || holds_text(b, part) ==> #[trigger] holds_text(a + b, part),
{
    let none = Seq::<char>::empty();
    if holds_text(a, part) {
        lemma_holds_wider(none, a, b, part);
        assert(none + a + b =~= a + b);
    } else if holds_text(b, part) {
        lemma_holds_wider(a, b, none, part);
        assert(a + b + none =~= a + b);
    }
}

/// What a part of a text holds, the text holds.
pub proof fn lemma_holds_through(whole: Seq<char>, middle: Seq<char>, part: Seq<char>)
    requires
        holds_text(whole, middle),
        holds_text(middle, part),
    ensures
        holds_text(whole, part),
{
    let k = choose|k: int|
        0 <= k <= whole.len() - middle.len() && #[trigger] whole.subrange(k, k + middle.len())
            == middle;
    let before = whole.take(k);
    let behind = whole.skip(k + middle.len());
    assert(whole =~= before + middle + behind) by {
        assert forall|i: int| 0 <= i < whole.len() implies #[trigger] whole[i] == (before + middle
            + behind)[i] by {
            if k <= i < k + middle.len() {
                assert(whole.subrange(k, k + middle.len())[i - k] == middle[i - k]);
            }
        }
    }
    lemma_holds_wider(before, middle, behind, part);
}

/// Whether `a` stands in `whole`, and `b` behind it.
pub open spec fn holds_in_order(whole: Seq<char>, a: Seq<char>, b: Seq<char>) -> bool {
    exists|i: int, j: int|
        {
            &&& 0 <= i
            &&& i + a.len() <= j
            &&& j + b.len() <= whole.len()
            &&& #[trigger] whole.subrange(i, i + a.len()) == a
            &&& #[trigger] whole.subrange(j, j + b.len()) == b
        }
}

/// Of two texts, one behind the other, what the first holds stands before what the second holds.
pub proof fn lemma_in_order_sum(x: Seq<char>, y: Seq<char>, a: Seq<char>, b: Seq<char>)
    requires
        holds_text(x, a),
        holds_text(y, b),
    ensures
        holds_in_order(x + y, a, b),
{
    let i = choose|i: int|
        0 <= i <= x.len() - a.len() && #[trigger] x.subrange(i, i + a.len()) == a;
    let k = choose|k: int|
        0 <= k <= y.len() - b.len() && #[trigger] y.subrange(k, k + b.len()) == b;
    let j = x.len() + k;
    let w = x + y;
    assert(w.subrange(i, i + a.len()) =~= x.subrange(i, i + a.len()));
    assert(w.subrange(j, j + b.len()) =~= y.subrange(k, k + b.len()));
}

/// What stands in order in a part of a text stands in that order in the text.
pub proof fn lemma_in_order_wider(
    before: Seq<char>,
    middle: Seq<char>,
    behind: Seq<char>,
    a: Seq<char>,
    b: Seq<char>,
)
    requires
        holds_in_order(middle, a, b),
    ensures
        holds_in_order(before + middle + behind, a, b),
{
    let (i, j) = choose|i: int, j: int|
        {
            &&& 0 <= i
            &&& i + a.len() <= j
            &&& j + b.len() <= middle.len()
            &&& #[trigger] middle.subrange(i, i + a.len()) == a
            &&& #[trigger] middle.subrange(j, j + b.len()) == b
        };
    let w = before + middle + behind;
    let n = before.len() as int;
    assert(w.subrange(n + i, n + i + a.len()) =~= middle.subrange(i, i + a.len()));
    assert(w.subrange(n + j, n + j + b.len()) =~= middle.subrange(j, j + b.len()));
}

/// Texts are ordered by the first character in which they differ, and a text is before those that it
/// begins.
pub proof fn law_text_before(
    common: Seq<char>,
    x: char,
    y: char,
    a: Seq<char>,
    b: Seq<char>,
)
    requires
        x < y,
    ensures
        text_before(common + seq![x] + a, common + seq![y] + b),
        !text_before(common + seq![y] + b, common + seq![x] + a),
        text_before(common, common + seq![y] + b),
    decreases common.len(),
{
    let p = common + seq![x] + a;
    let q = common + seq![y] + b;
    if common.len() > 0 {
        let rest = common.drop_first();
        assert(p.drop_first() =~= rest + seq![x] + a);
        assert(q.drop_first() =~= rest + seq![y] + b);
        assert(p[0] == common[0] && q[0] == common[0]);
        law_text_before(rest, x, y, a, b);
    } else {
        assert(p[0] == x && q[0] == y);
    }
}

/// What stands at the end of a text stands behind everything that is held before it.
pub broadcast proof fn lemma_order_last(x: Seq<char>, y: Seq<char>, a: Seq<char>)
    requires
        holds_text(x, a),
    ensures
        #[trigger] holds_in_order(x + y, a, y),
{
    lemma_holds_self(y);
    lemma_in_order_sum(x, y, a, y);
}

/// What is held in order is so with more behind it.
pub broadcast proof fn lemma_order_kept(x: Seq<char>, y: Seq<char>, a: Seq<char>, b: Seq<char>)
    requires
        holds_in_order(x, a, b),
    ensures
        #[trigger] holds_in_order(x + y, a, b),
{
    lemma_in_order_wider(seq![], x, y, a, b);
    assert(seq![] + x + y =~= x + y);
}

/// Texts are put together in any grouping.
pub proof fn lemma_grouped(a: Seq<char>, b: Seq<char>, c: Seq<char>)
    ensures
        a + b + c == a + (b + c),
{
    assert(a + b + c =~= a + (b + c));
}

/// A text holds its last two parts together.
pub broadcast proof fn lemma_holds_pair(x: Seq<char>, a: Seq<char>, b: Seq<char>)
    ensures
        #[trigger] holds_text(x + a + b, a + b),
{
    lemma_grouped(x, a, b);
    lemma_holds_self(a + b);
    lemma_holds_sum(x, a + b, a + b);
}

/// A text holds its last four parts together.
pub broadcast proof fn lemma_holds_four(
    x: Seq<char>,
    a: Seq<char>,
    b: Seq<char>,
    c: Seq<char>,
    d: Seq<char>,
)
    ensures
        #[trigger] holds_text(x + a + b + c + d, a + b + c + d),
{
    lemma_grouped(x, a, b);
    lemma_grouped(x, a + b, c);
    lemma_grouped(x, a + b + c, d);
    lemma_holds_self(a + b + c + d);
    lemma_holds_sum(x, a + b + c + d, a + b + c + d);
}

} // verus!
