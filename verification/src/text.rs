//! Character-level text utilities: first occurrence of a character or of a
//! substring, splitting on a separator, whitespace trimming, line splitting
//! as Rust's `str::lines` does it, and a last-write-wins association list.
use vstd::prelude::*;

verus! {

/// The Unicode `White_Space` set, the characters `str::trim` removes.
pub open spec fn is_ws_char(c: char) -> bool {
    c == ' ' || c == '\t' || c == '\n' || c == '\u{b}' || c == '\u{c}' || c == '\r'
        || c == '\u{85}' || c == '\u{a0}' || c == '\u{1680}' || c == '\u{2000}' || c == '\u{2001}'
        || c == '\u{2002}' || c == '\u{2003}' || c == '\u{2004}' || c == '\u{2005}'
        || c == '\u{2006}' || c == '\u{2007}' || c == '\u{2008}' || c == '\u{2009}'
        || c == '\u{200a}' || c == '\u{2028}' || c == '\u{2029}' || c == '\u{202f}'
        || c == '\u{205f}' || c == '\u{3000}'
}

pub fn is_ws(c: char) -> (r: bool)
    ensures
        r == is_ws_char(c),
{
    c == ' ' || c == '\t' || c == '\n' || c == '\u{b}' || c == '\u{c}' || c == '\r'
        || c == '\u{85}' || c == '\u{a0}' || c == '\u{1680}' || c == '\u{2000}' || c == '\u{2001}'
        || c == '\u{2002}' || c == '\u{2003}' || c == '\u{2004}' || c == '\u{2005}'
        || c == '\u{2006}' || c == '\u{2007}' || c == '\u{2008}' || c == '\u{2009}'
        || c == '\u{200a}' || c == '\u{2028}' || c == '\u{2029}' || c == '\u{202f}'
        || c == '\u{205f}' || c == '\u{3000}'
}

/// Index of the first occurrence of `c` in `s`, or -1 when `c` does not occur.
pub open spec fn first_ix(s: Seq<char>, c: char) -> int
    decreases s.len(),
{
    if s.len() == 0 {
        -1
    } else if s[0] == c {
        0
    } else if first_ix(s.drop_first(), c) == -1 {
        -1
    } else {
        1 + first_ix(s.drop_first(), c)
    }
}

pub proof fn lemma_first_ix(s: Seq<char>, c: char)
    ensures
        (first_ix(s, c) == -1) <==> (forall|j: int| 0 <= j < s.len() ==> s[j] != c),
        first_ix(s, c) != -1 ==> 0 <= first_ix(s, c) < s.len() && s[first_ix(s, c)] == c && (forall|
            j: int,
        | 0 <= j < first_ix(s, c) ==> s[j] != c),
    decreases s.len(),
{
    if s.len() == 0 {
    } else if s[0] == c {
    } else {
        let t = s.drop_first();
        lemma_first_ix(t, c);
        assert(forall|j: int| 0 <= j < t.len() ==> t[j] == s[j + 1]);
        if first_ix(t, c) == -1 {
            assert forall|j: int| 0 <= j < s.len() implies s[j] != c by {
                if j > 0 {
                    assert(t[j - 1] != c);
                }
            }
        } else {
            let fi = first_ix(t, c);
            assert(s[1 + fi] == t[fi]);
            assert forall|j: int| 0 <= j < 1 + fi implies s[j] != c by {
                if j > 0 {
                    assert(t[j - 1] != c);
                }
            }
        }
    }
}

/// First index at which `c` occurs in `s`, scanning from the front.
pub fn find_char(s: &str, c: char) -> (r: Option<usize>)
    ensures
        match r {
            Some(i) => i == first_ix(s@, c),
            None => first_ix(s@, c) == -1,
        },
{
    proof {
        lemma_first_ix(s@, c);
    }
    let n = s.unicode_len();
    for i in 0..n
        invariant
            n == s@.len(),
            forall|j: int| 0 <= j < i ==> s@[j] != c,
    {
        if s.get_char(i) == c {
            proof {
                lemma_first_ix(s@, c);
                let fi = first_ix(s@, c);
                assert(s@[i as int] == c);
                assert(fi != -1);
                if fi < i as int {
                    assert(s@[fi] == c);
                    assert(false);
                }
                if fi > i as int {
                    assert(s@[i as int] != c);
                    assert(false);
                }
            }
            return Some(i);
        }
    }
    None
}

/// `s` split on `sep`: the pieces between occurrences, in order, always at
/// least one piece (the empty string splits into one empty piece).
pub open spec fn split_char(s: Seq<char>, sep: char) -> Seq<Seq<char>>
    decreases s.len(),
    via split_char_dec
{
    let i = first_ix(s, sep);
    if i == -1 {
        seq![s]
    } else {
        seq![s.subrange(0, i)] + split_char(s.subrange(i + 1, s.len() as int), sep)
    }
}

#[via_fn]
proof fn split_char_dec(s: Seq<char>, sep: char) {
    lemma_first_ix(s, sep);
}

/// The views of a vector of strings.
pub open spec fn views_of(v: Seq<String>) -> Seq<Seq<char>> {
    v.map_values(|t: String| t@)
}

pub fn split_str(s: &str, sep: char) -> (r: Vec<String>)
    ensures
        views_of(r@) == split_char(s@, sep),
    decreases s@.len(),
{
    proof {
        lemma_first_ix(s@, sep);
    }
    let n = s.unicode_len();
    match find_char(s, sep) {
        None => {
            let mut v: Vec<String> = Vec::new();
            v.push(s.to_owned());
            assert(views_of(v@) =~= split_char(s@, sep));
            v
        },
        Some(i) => {
            let head = s.substring_char(0, i).to_owned();
            let rest = s.substring_char(i + 1, n);
            let mut r = split_str(rest, sep);
            r.insert(0, head);
            assert(views_of(r@) =~= split_char(s@, sep));
            r
        },
    }
}

/// `s` with leading and trailing whitespace removed.
pub open spec fn trim_spec(s: Seq<char>) -> Seq<char>
    decreases s.len(),
{
    if s.len() == 0 {
        s
    } else if is_ws_char(s[0]) {
        trim_spec(s.drop_first())
    } else if is_ws_char(s.last()) {
        trim_spec(s.drop_last())
    } else {
        s
    }
}

pub fn trim_str(s: &str) -> (r: String)
    ensures
        r@ == trim_spec(s@),
    decreases s@.len(),
{
    let n = s.unicode_len();
    if n == 0 {
        let r = String::new();
        assert(r@ =~= trim_spec(s@));
        r
    } else if is_ws(s.get_char(0)) {
        let r = trim_str(s.substring_char(1, n));
        assert(s@.subrange(1, n as int) =~= s@.drop_first());
        r
    } else if is_ws(s.get_char(n - 1)) {
        let r = trim_str(s.substring_char(0, n - 1));
        assert(s@.subrange(0, n - 1 as int) =~= s@.drop_last());
        r
    } else {
        s.to_owned()
    }
}

/// A line with one trailing carriage return removed.
pub open spec fn strip_cr(l: Seq<char>) -> Seq<char> {
    if l.len() > 0 && l.last() == '\r' {
        l.drop_last()
    } else {
        l
    }
}

/// The lines of `text` as Rust's `str::lines` yields them: split on `'\n'`,
/// one trailing `'\r'` stripped from each line that a `'\n'` ended, no
/// final empty line for a text that ends in `'\n'`, and a final line without
/// a line ending kept whole, trailing `'\r'` included.
pub open spec fn spec_lines(text: Seq<char>) -> Seq<Seq<char>> {
    if text.len() == 0 {
        Seq::empty()
    } else if text.last() == '\n' {
        split_char(text.drop_last(), '\n').map_values(|l: Seq<char>| strip_cr(l))
    } else {
        let ps = split_char(text, '\n');
        ps.map_values(|l: Seq<char>| strip_cr(l)).update(ps.len() - 1, ps.last())
    }
}

pub fn split_lines(s: &str) -> (r: Vec<String>)
    ensures
        views_of(r@) == spec_lines(s@),
{
    let n = s.unicode_len();
    if n == 0 {
        let r: Vec<String> = Vec::new();
        assert(views_of(r@) =~= spec_lines(s@));
        return r;
    }
    let ends_nl = s.get_char(n - 1) == '\n';
    let body: &str = if ends_nl {
        let b = s.substring_char(0, n - 1);
        proof {
            assert(s@.subrange(0, n - 1 as int) =~= s@.drop_last());
        }
        b
    } else {
        s
    };
    let parts = split_str(body, '\n');
    let ghost target = split_char(body@, '\n').map_values(|l: Seq<char>| strip_cr(l));
    let mut out: Vec<String> = Vec::new();
    assert(views_of(out@) =~= target.take(0));
    for idx in 0..parts.len()
        invariant
            views_of(parts@) == split_char(body@, '\n'),
            target == split_char(body@, '\n').map_values(|l: Seq<char>| strip_cr(l)),
            views_of(out@) == target.take(idx as int),
    {
        let p = &parts[idx];
        let m = p.unicode_len();
        if m > 0 && p.get_char(m - 1) == '\r' {
            proof {
                assert(p@.subrange(0, m - 1 as int) =~= p@.drop_last());
            }
            out.push(p.as_str().substring_char(0, m - 1).to_owned());
        } else {
            out.push(p.clone());
        }
        proof {
            assert(views_of(parts@)[idx as int] == p@);
            assert(target[idx as int] == strip_cr(p@));
            assert(target.take(idx + 1) =~= target.take(idx as int).push(target[idx as int]));
            assert(views_of(out@) =~= target.take(idx + 1));
        }
    }
    assert(target.take(parts@.len() as int) =~= target);
    if !ends_nl {
        let last_ix = parts.len() - 1;
        let unstripped = parts[last_ix].clone();
        let _ = out.pop();
        out.push(unstripped);
        proof {
            assert(views_of(out@) =~= target.update(
                split_char(body@, '\n').len() - 1,
                split_char(body@, '\n').last(),
            ));
        }
    }
    assert(views_of(out@) =~= spec_lines(s@));
    out
}

/// The map an association list denotes when a later pair for the same key
/// overwrites an earlier one.
pub open spec fn map_of<K, V>(s: Seq<(K, V)>) -> Map<K, V>
    decreases s.len(),
{
    if s.len() == 0 {
        Map::empty()
    } else {
        map_of(s.drop_last()).insert(s.last().0, s.last().1)
    }
}

pub proof fn lemma_map_of_last<K, V>(s: Seq<(K, V)>, i: int, k: K)
    requires
        0 <= i < s.len(),
        s[i].0 == k,
        forall|j: int| i < j < s.len() ==> s[j].0 != k,
    ensures
        map_of(s).contains_key(k),
        map_of(s)[k] == s[i].1,
    decreases s.len(),
{
    if i == s.len() - 1 {
    } else {
        assert(forall|j: int| 0 <= j < s.len() - 1 ==> s.drop_last()[j] == s[j]);
        lemma_map_of_last(s.drop_last(), i, k);
        assert(s.last().0 != k);
    }
}

pub proof fn lemma_map_of_absent<K, V>(s: Seq<(K, V)>, k: K)
    requires
        forall|j: int| 0 <= j < s.len() ==> s[j].0 != k,
    ensures
        !map_of(s).contains_key(k),
    decreases s.len(),
{
    if s.len() == 0 {
    } else {
        assert(forall|j: int| 0 <= j < s.len() - 1 ==> s.drop_last()[j] == s[j]);
        lemma_map_of_absent(s.drop_last(), k);
        assert(s.last().0 != k);
    }
}

/// The views of an association list whose keys are strings.
pub open spec fn pair_views<V: View>(s: Seq<(String, V)>) -> Seq<(Seq<char>, V::V)> {
    s.map_values(|p: (String, V)| (p.0@, p.1@))
}

/// Looks `key` up in `pairs`, the latest pair for a key winning.
pub fn lookup_last<'a, V: View>(pairs: &'a Vec<(String, V)>, key: &str) -> (r: Option<&'a V>)
    ensures
        match r {
            Some(v) => map_of(pair_views(pairs@)).contains_key(key@) && v@ == map_of(
                pair_views(pairs@),
            )[key@],
            None => !map_of(pair_views(pairs@)).contains_key(key@),
        },
{
    let k = key.to_owned();
    let mut i = pairs.len();
    while i > 0
        invariant
            i <= pairs.len(),
            k@ == key@,
            forall|j: int| i <= j < pairs.len() ==> pair_views(pairs@)[j].0 != key@,
        decreases i,
    {
        i = i - 1;
        if pairs[i].0 == k {
            proof {
                assert(pair_views(pairs@)[i as int].0 == key@);
                lemma_map_of_last(pair_views(pairs@), i as int, key@);
            }
            return Some(&pairs[i].1);
        }
        proof {
            assert(pair_views(pairs@)[i as int].0 == pairs@[i as int].0@);
        }
    }
    proof {
        lemma_map_of_absent(pair_views(pairs@), key@);
    }
    None
}

/// Index of the first occurrence of `needle` as a contiguous run in `hay`,
/// or -1 when there is none; an empty needle occurs at 0.
pub open spec fn first_sub_ix(hay: Seq<char>, needle: Seq<char>) -> int
    decreases hay.len(),
    via first_sub_ix_dec
{
    if needle.len() > hay.len() {
        -1
    } else if hay.subrange(0, needle.len() as int) == needle {
        0
    } else if first_sub_ix(hay.drop_first(), needle) == -1 {
        -1
    } else {
        1 + first_sub_ix(hay.drop_first(), needle)
    }
}

#[via_fn]
proof fn first_sub_ix_dec(hay: Seq<char>, needle: Seq<char>) {
    if needle.len() <= hay.len() && hay.len() == 0 {
        assert(hay.subrange(0, needle.len() as int) =~= needle);
    }
}

pub proof fn lemma_first_sub_ix_bound(hay: Seq<char>, needle: Seq<char>)
    ensures
        first_sub_ix(hay, needle) != -1 ==> 0 <= first_sub_ix(hay, needle) && first_sub_ix(
            hay,
            needle,
        ) + needle.len() <= hay.len(),
    decreases hay.len(),
{
    if needle.len() > hay.len() {
    } else if hay.subrange(0, needle.len() as int) == needle {
    } else {
        if hay.len() == 0 {
            assert(hay.subrange(0, needle.len() as int) =~= needle);
        } else {
            lemma_first_sub_ix_bound(hay.drop_first(), needle);
        }
    }
}

/// String equality through the specified `String` comparison.
pub fn str_eq(a: &str, b: &str) -> (r: bool)
    ensures
        r == (a@ == b@),
{
    let x = a.to_owned();
    let y = b.to_owned();
    x == y
}

/// First index at which `needle` occurs as a substring of `hay`.
pub fn find_sub(hay: &str, needle: &str) -> (r: Option<usize>)
    ensures
        match r {
            Some(i) => i == first_sub_ix(hay@, needle@),
            None => first_sub_ix(hay@, needle@) == -1,
        },
    decreases hay@.len(),
{
    let hn = hay.unicode_len();
    let nn = needle.unicode_len();
    if nn > hn {
        None
    } else if str_eq(hay.substring_char(0, nn), needle) {
        Some(0)
    } else {
        proof {
            if hn == 0 {
                assert(hay@.subrange(0, nn as int) =~= needle@);
            }
        }
        let rest = hay.substring_char(1, hn);
        proof {
            assert(rest@ =~= hay@.drop_first());
            lemma_first_sub_ix_bound(hay@.drop_first(), needle@);
        }
        match find_sub(rest, needle) {
            None => None,
            Some(i) => Some(i + 1),
        }
    }
}

} // verus!
