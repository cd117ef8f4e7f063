//! Verified text helpers: character search, splitting, joining, filtering,
//! deduplication and lexicographic comparison over `Seq<char>` views.
//!
//! Every parser and serializer of the library is specified in terms of the
//! spec functions of this module.

use vstd::prelude::*;

verus! {

/// True when `c` occurs somewhere in `s`.
pub open spec fn has_char(s: Seq<char>, c: char) -> bool {
    exists|i: int| 0 <= i < s.len() && s[i] == c
}

/// Index of the first occurrence of `c` in `s`, if any.
pub open spec fn find_char_spec(s: Seq<char>, c: char) -> Option<int>
    decreases s.len(),
{
    if s.len() == 0 {
        None
    } else if s[0] == c {
        Some(0int)
    } else {
        match find_char_spec(s.skip(1), c) {
            None => None,
            Some(i) => Some(i + 1),
        }
    }
}

/// `find_char_spec` returns the first index holding `c`, or `None` when `c`
/// does not occur.
pub proof fn lemma_find_char(s: Seq<char>, c: char)
    ensures
        match find_char_spec(s, c) {
            Some(i) => 0 <= i < s.len() && s[i] == c && (forall|j: int| 0 <= j < i ==> s[j] != c),
            None => forall|j: int| 0 <= j < s.len() ==> s[j] != c,
        },
    decreases s.len(),
{
    if s.len() != 0 && s[0] != c {
        lemma_find_char(s.skip(1), c);
        match find_char_spec(s.skip(1), c) {
            None => {
                assert forall|j: int| 0 <= j < s.len() implies s[j] != c by {
                    if j >= 1 {
                        assert(s[j] == s.skip(1)[j - 1]);
                    }
                }
            },
            Some(i) => {
                assert(s[i + 1] == s.skip(1)[i]);
                assert forall|j: int| 0 <= j < i + 1 implies s[j] != c by {
                    if j >= 1 {
                        assert(s[j] == s.skip(1)[j - 1]);
                    }
                }
            },
        }
    }
}

/// Characters are equal exactly when their code points are.
pub proof fn lemma_char_code_injective(c1: char, c2: char)
    ensures
        (c1 as u32 == c2 as u32) <==> c1 == c2,
{
}

/// First index of `c` in `s`, executable form.
pub fn find_char(s: &str, c: char) -> (r: Option<usize>)
    ensures
        r matches Some(i) ==> Some(i as int) == find_char_spec(s@, c),
        r is None ==> find_char_spec(s@, c) is None,
{
    let n = s.unicode_len();
    let mut i: usize = 0;
    while i < n
        invariant
            n == s@.len(),
            0 <= i <= n,
            forall|j: int| 0 <= j < i ==> s@[j] != c,
        decreases n - i,
    {
        if s.get_char(i) == c {
            proof {
                lemma_find_char(s@, c);
            }
            return Some(i);
        }
        i = i + 1;
    }
    proof {
        lemma_find_char(s@, c);
    }
    None
}

/// The parts of `s` between occurrences of the separator `c`.
///
/// Always at least one part; a separator at the start, the end, or next to
/// another separator contributes an empty part.
pub open spec fn split_char_spec(s: Seq<char>, c: char) -> Seq<Seq<char>>
    decreases s.len(),
{
    if s.len() == 0 {
        seq![s]
    } else if s[0] == c {
        seq![Seq::<char>::empty()] + split_char_spec(s.skip(1), c)
    } else {
        let rest = split_char_spec(s.skip(1), c);
        seq![seq![s[0]] + rest[0]] + rest.skip(1)
    }
}

/// Splitting yields at least one part.
pub proof fn lemma_split_len(s: Seq<char>, c: char)
    ensures
        split_char_spec(s, c).len() >= 1,
    decreases s.len(),
{
    if s.len() != 0 {
        lemma_split_len(s.skip(1), c);
    }
}

/// Splitting a separator-free string yields that string as the only part.
pub proof fn lemma_split_no_sep(s: Seq<char>, c: char)
    requires
        !has_char(s, c),
    ensures
        split_char_spec(s, c) =~= seq![s],
    decreases s.len(),
{
    if s.len() != 0 {
        assert(s[0] != c);
        assert forall|j: int| 0 <= j < s.skip(1).len() implies s.skip(1)[j] != c by {
            assert(s.skip(1)[j] == s[j + 1]);
        }
        lemma_split_no_sep(s.skip(1), c);
        assert(split_char_spec(s, c) =~= seq![seq![s[0]] + s.skip(1)]);
        assert(seq![s[0]] + s.skip(1) =~= s);
    }
}

/// Splitting at a separator boundary splits each side independently.
pub proof fn lemma_split_concat(x: Seq<char>, y: Seq<char>, c: char)
    ensures
        split_char_spec(x + seq![c] + y, c) =~= split_char_spec(x, c) + split_char_spec(y, c),
    decreases x.len(),
{
    let s = x + seq![c] + y;
    if x.len() == 0 {
        assert(s =~= seq![c] + y);
        assert(s[0] == c);
        assert(s.skip(1) =~= y);
        assert(x =~= Seq::<char>::empty());
        assert(split_char_spec(x, c) =~~= seq![Seq::<char>::empty()]);
        assert(split_char_spec(s, c) =~~= split_char_spec(x, c) + split_char_spec(y, c));
    } else {
        lemma_split_concat(x.skip(1), y, c);
        assert(s[0] == x[0]);
        assert(s.skip(1) =~= x.skip(1) + seq![c] + y);
        lemma_split_len(x.skip(1), c);
        lemma_split_len(y, c);
        let rx = split_char_spec(x.skip(1), c);
        let rs = split_char_spec(s.skip(1), c);
        assert(rs =~= rx + split_char_spec(y, c));
        if x[0] == c {
            assert(split_char_spec(s, c) =~= seq![Seq::<char>::empty()] + rs);
            assert(split_char_spec(x, c) =~= seq![Seq::<char>::empty()] + rx);
        } else {
            assert(rs[0] == rx[0]);
            assert(rs.skip(1) =~= rx.skip(1) + split_char_spec(y, c));
            assert(split_char_spec(s, c) =~= seq![seq![s[0]] + rs[0]] + rs.skip(1));
            assert(split_char_spec(x, c) =~= seq![seq![x[0]] + rx[0]] + rx.skip(1));
        }
    }
}

/// Splits `s` at every occurrence of `c`, executable form.
pub fn split_str(s: &str, c: char) -> (r: Vec<String>)
    ensures
        r.deep_view() == split_char_spec(s@, c),
        r.len() >= 1,
{
    let n = s.unicode_len();
    let mut out: Vec<String> = Vec::new();
    let mut start: usize = 0;
    let mut i: usize = 0;
    proof {
        lemma_split_len(s@, c);
        assert(out.deep_view() =~= Seq::<Seq<char>>::empty());
        assert(s@.skip(0) =~= s@);
        assert(s@.subrange(0int, 0int) + split_char_spec(s@, c)[0]
            =~= split_char_spec(s@, c)[0]);
        assert(Seq::<Seq<char>>::empty() + seq![split_char_spec(s@, c)[0]]
            + split_char_spec(s@, c).skip(1) =~= split_char_spec(s@, c));
    }
    while i < n
        invariant
            n == s@.len(),
            0 <= start <= i <= n,
            split_char_spec(s@, c) =~= out.deep_view() + seq![
                s@.subrange(start as int, i as int) + split_char_spec(s@.skip(i as int), c)[0]
            ] + split_char_spec(s@.skip(i as int), c).skip(1),
            split_char_spec(s@.skip(i as int), c).len() >= 1,
        decreases n - i,
    {
        let ghost pre = out.deep_view();
        let ghost tail = s@.skip(i as int);
        proof {
            assert(tail.len() == n - i);
            assert(tail[0] == s@[i as int]);
            assert(tail.skip(1) =~= s@.skip(i as int + 1));
            lemma_split_len(s@.skip(i as int + 1), c);
        }
        if s.get_char(i) == c {
            let part = s.substring_char(start, i).to_owned();
            proof {
                assert(part@ =~= s@.subrange(start as int, i as int));
            }
            out.push(part);
            proof {
                assert(out.deep_view() =~= pre.push(s@.subrange(start as int, i as int)));
                // the tail starts with the separator, so its split starts
                // with an empty part
                assert(split_char_spec(tail, c) =~= seq![Seq::<char>::empty()]
                    + split_char_spec(s@.skip(i as int + 1), c));
                assert(s@.subrange(start as int, i as int) + Seq::<char>::empty()
                    =~= s@.subrange(start as int, i as int));
                assert(s@.subrange(i as int + 1, i as int + 1) + split_char_spec(
                    s@.skip(i as int + 1), c)[0]
                    =~= split_char_spec(s@.skip(i as int + 1), c)[0]);
            }
            start = i + 1;
            i = i + 1;
            proof {
                assert(split_char_spec(s@, c) =~= out.deep_view() + seq![
                    s@.subrange(start as int, i as int) + split_char_spec(s@.skip(i as int), c)[0]
                ] + split_char_spec(s@.skip(i as int), c).skip(1));
            }
        } else {
            proof {
                let rest = split_char_spec(s@.skip(i as int + 1), c);
                assert(split_char_spec(tail, c) =~= seq![seq![tail[0]] + rest[0]] + rest.skip(1));
                assert(s@.subrange(start as int, i as int) + (seq![tail[0]] + rest[0])
                    =~= s@.subrange(start as int, i as int + 1) + rest[0]);
            }
            i = i + 1;
        }
    }
    let part = s.substring_char(start, n).to_owned();
    let ghost pre = out.deep_view();
    proof {
        assert(s@.skip(n as int).len() == 0);
        assert(split_char_spec(s@.skip(n as int), c) =~= seq![s@.skip(n as int)]);
        assert(s@.skip(n as int) =~= Seq::<char>::empty());
        assert(part@ =~= s@.subrange(start as int, n as int));
    }
    out.push(part);
    proof {
        assert(out.deep_view() =~= pre.push(s@.subrange(start as int, n as int)));
        assert(s@.subrange(start as int, n as int) + Seq::<char>::empty()
            =~= s@.subrange(start as int, n as int));
        assert(split_char_spec(s@, c) =~= out.deep_view());
        lemma_split_len(s@, c);
    }
    out
}

/// The parts joined with the separator sequence `sep`, starting at part `i`.
pub open spec fn join_from_spec(parts: Seq<Seq<char>>, sep: Seq<char>, i: int) -> Seq<char>
    decreases parts.len() - i,
{
    if i < 0 || i >= parts.len() {
        Seq::empty()
    } else if i == parts.len() - 1 {
        parts[i]
    } else {
        parts[i] + sep + join_from_spec(parts, sep, i + 1)
    }
}

/// The parts joined with the separator sequence `sep`.
pub open spec fn join_spec(parts: Seq<Seq<char>>, sep: Seq<char>) -> Seq<char> {
    join_from_spec(parts, sep, 0)
}

/// Joins the views of `parts` with `sep`, executable form.
pub fn join_strs(parts: &Vec<String>, sep: &str) -> (r: String)
    ensures
        r@ == join_spec(parts.deep_view(), sep@),
{
    let mut acc = String::new();
    if parts.len() == 0 {
        return acc;
    }
    let n = parts.len();
    let mut i: usize = 0;
    while i < n - 1
        invariant
            n == parts.len(),
            n >= 1,
            0 <= i <= n - 1,
            acc@ + join_from_spec(parts.deep_view(), sep@, i as int)
                == join_spec(parts.deep_view(), sep@),
        decreases n - i,
    {
        acc.append(parts[i].as_str());
        acc.append(sep);
        i = i + 1;
    }
    acc.append(parts[i].as_str());
    proof {
        assert(parts.deep_view()[i as int] == parts@[i as int]@);
    }
    acc
}

/// A join of `c2`-free parts with a `c2`-free separator is `c2`-free.
pub proof fn lemma_join_no_char(parts: Seq<Seq<char>>, sep: Seq<char>, i: int, c2: char)
    requires
        forall|k: int| 0 <= k < parts.len() ==> !has_char(#[trigger] parts[k], c2),
        !has_char(sep, c2),
    ensures
        !has_char(join_from_spec(parts, sep, i), c2),
    decreases parts.len() - i,
{
    if i < 0 || i >= parts.len() {
    } else if i == parts.len() - 1 {
    } else {
        lemma_join_no_char(parts, sep, i + 1, c2);
        let joined = parts[i] + sep + join_from_spec(parts, sep, i + 1);
        assert forall|j: int| 0 <= j < joined.len() implies joined[j] != c2 by {
            if j < parts[i].len() {
                assert(joined[j] == parts[i][j]);
            } else if j < parts[i].len() + sep.len() {
                assert(joined[j] == sep[j - parts[i].len()]);
            } else {
                assert(joined[j] == join_from_spec(parts, sep, i + 1)[
                    j - parts[i].len() - sep.len()]);
            }
        }
    }
}

/// The parts with empty elements removed.
pub open spec fn keep_nonempty_spec(parts: Seq<Seq<char>>) -> Seq<Seq<char>>
    decreases parts.len(),
{
    if parts.len() == 0 {
        Seq::empty()
    } else if parts.last().len() > 0 {
        keep_nonempty_spec(parts.drop_last()) + seq![parts.last()]
    } else {
        keep_nonempty_spec(parts.drop_last())
    }
}

/// Removes empty strings, executable form.
pub fn keep_nonempty(parts: &Vec<String>) -> (r: Vec<String>)
    ensures
        r.deep_view() == keep_nonempty_spec(parts.deep_view()),
{
    let n = parts.len();
    let mut out: Vec<String> = Vec::new();
    let mut i: usize = 0;
    while i < n
        invariant
            n == parts.len(),
            0 <= i <= n,
            out.deep_view() =~= keep_nonempty_spec(parts.deep_view().take(i as int)),
        decreases n - i,
    {
        let ghost pre = out.deep_view();
        proof {
            assert(parts.deep_view().take(i as int + 1).drop_last()
                =~= parts.deep_view().take(i as int));
            assert(parts.deep_view().take(i as int + 1).last() == parts@[i as int]@);
        }
        if parts[i].as_str().unicode_len() > 0 {
            let item = parts[i].clone();
            out.push(item);
            proof {
                assert(out.deep_view() =~= pre.push(parts@[i as int]@));
            }
        }
        i = i + 1;
    }
    proof {
        assert(parts.deep_view().take(n as int) =~= parts.deep_view());
    }
    out
}

/// The parts with later duplicates removed; the first occurrence stays.
pub open spec fn dedup_spec(parts: Seq<Seq<char>>) -> Seq<Seq<char>>
    decreases parts.len(),
{
    if parts.len() == 0 {
        Seq::empty()
    } else if parts.drop_last().contains(parts.last()) {
        dedup_spec(parts.drop_last())
    } else {
        dedup_spec(parts.drop_last()) + seq![parts.last()]
    }
}

/// Deduplication keeps exactly the elements of the input.
pub proof fn lemma_dedup_same_elements(parts: Seq<Seq<char>>, x: Seq<char>)
    ensures
        dedup_spec(parts).contains(x) <==> parts.contains(x),
    decreases parts.len(),
{
    if parts.len() > 0 {
        let prev = parts.drop_last();
        let l = parts.last();
        lemma_dedup_same_elements(prev, x);
        // lift membership in the shorter prefix to the whole sequence
        assert(prev.contains(x) ==> parts.contains(x)) by {
            if prev.contains(x) {
                let j = choose|j: int| 0 <= j < prev.len() && prev[j] == x;
                assert(parts[j] == x);
            }
        }
        if parts.contains(x) {
            let i = choose|i: int| 0 <= i < parts.len() && parts[i] == x;
            if i < parts.len() - 1 {
                assert(prev[i] == x);
                assert(prev.contains(x));
                if prev.contains(l) {
                    assert(dedup_spec(parts) == dedup_spec(prev));
                } else {
                    let d = dedup_spec(prev);
                    let j = choose|j: int| 0 <= j < d.len() && d[j] == x;
                    assert((d + seq![l])[j] == x);
                }
                assert(dedup_spec(parts).contains(x));
            } else {
                assert(x == l);
                if prev.contains(l) {
                    assert(prev.contains(x));
                } else {
                    let d = dedup_spec(prev);
                    assert((d + seq![l])[d.len() as int] == x);
                }
                assert(dedup_spec(parts).contains(x));
            }
        }
        if dedup_spec(parts).contains(x) {
            if prev.contains(l) {
                assert(dedup_spec(prev).contains(x));
            } else {
                let d = dedup_spec(prev);
                let j = choose|j: int|
                    0 <= j < dedup_spec(parts).len() && dedup_spec(parts)[j] == x;
                if j < d.len() {
                    assert(d[j] == x);
                    assert(d.contains(x));
                } else {
                    assert(x == l);
                    assert(parts[parts.len() - 1] == x);
                }
            }
            assert(parts.contains(x));
        }
    }
}

/// Deduplication leaves no duplicates.
pub proof fn lemma_dedup_is_distinct(parts: Seq<Seq<char>>)
    ensures
        forall|i: int, j: int|
            0 <= i < j < dedup_spec(parts).len() ==> dedup_spec(parts)[i] != dedup_spec(parts)[j],
    decreases parts.len(),
{
    if parts.len() > 0 {
        let prev = parts.drop_last();
        lemma_dedup_is_distinct(prev);
        if !prev.contains(parts.last()) {
            let d = dedup_spec(prev);
            let dn = dedup_spec(parts);
            assert(dn =~= d + seq![parts.last()]);
            assert forall|i: int, j: int| 0 <= i < j < dn.len() implies dn[i] != dn[j] by {
                if j == dn.len() - 1 {
                    assert(dn[j] == parts.last());
                    assert(dn[i] == d[i]);
                    lemma_dedup_same_elements(prev, d[i]);
                    assert(d.contains(d[i]));
                }
            }
        }
    }
}

/// A sequence of non-empty parts is unchanged by dropping empty parts.
pub proof fn lemma_keep_nonempty_of_nonempty(parts: Seq<Seq<char>>)
    requires
        forall|i: int| 0 <= i < parts.len() ==> (#[trigger] parts[i]).len() > 0,
    ensures
        keep_nonempty_spec(parts) =~= parts,
    decreases parts.len(),
{
    if parts.len() > 0 {
        lemma_keep_nonempty_of_nonempty(parts.drop_last());
    }
}

/// A duplicate-free sequence is unchanged by deduplication.
pub proof fn lemma_dedup_of_distinct(parts: Seq<Seq<char>>)
    requires
        forall|i: int, j: int| 0 <= i < j < parts.len() ==> parts[i] != parts[j],
    ensures
        dedup_spec(parts) =~= parts,
    decreases parts.len(),
{
    if parts.len() > 0 {
        lemma_dedup_of_distinct(parts.drop_last());
        if parts.drop_last().contains(parts.last()) {
            let i = choose|i: int|
                0 <= i < parts.drop_last().len() && parts.drop_last()[i] == parts.last();
            assert(parts[i] == parts[parts.len() - 1]);
            assert(false);
        }
    }
}

/// True when some element of `v` views to `x`.
pub fn contains_string(v: &Vec<String>, x: &String) -> (r: bool)
    ensures
        r == v.deep_view().contains(x@),
{
    let n = v.len();
    let mut i: usize = 0;
    while i < n
        invariant
            n == v.len(),
            0 <= i <= n,
            forall|j: int| 0 <= j < i ==> v.deep_view()[j] != x@,
        decreases n - i,
    {
        if str_eq(v[i].as_str(), x.as_str()) {
            proof {
                assert(v.deep_view()[i as int] == x@);
            }
            return true;
        }
        proof {
            assert(v.deep_view()[i as int] == v@[i as int]@);
        }
        i = i + 1;
    }
    proof {
        if v.deep_view().contains(x@) {
            let j = choose|j: int| 0 <= j < v.deep_view().len() && v.deep_view()[j] == x@;
            assert(false);
        }
    }
    false
}

/// Removes later duplicates, keeping first occurrences, executable form.
pub fn dedup_strings(parts: &Vec<String>) -> (r: Vec<String>)
    ensures
        r.deep_view() == dedup_spec(parts.deep_view()),
{
    let n = parts.len();
    let mut out: Vec<String> = Vec::new();
    let mut i: usize = 0;
    while i < n
        invariant
            n == parts.len(),
            0 <= i <= n,
            out.deep_view() =~= dedup_spec(parts.deep_view().take(i as int)),
        decreases n - i,
    {
        let ghost pre = out.deep_view();
        proof {
            assert(parts.deep_view().take(i as int + 1).drop_last()
                =~= parts.deep_view().take(i as int));
            assert(parts.deep_view().take(i as int + 1).last() == parts@[i as int]@);
            lemma_dedup_same_elements(parts.deep_view().take(i as int), parts@[i as int]@);
        }
        let seen = contains_string(&out, &parts[i]);
        if !seen {
            let item = parts[i].clone();
            out.push(item);
            proof {
                assert(out.deep_view() =~= pre.push(parts@[i as int]@));
            }
        }
        i = i + 1;
    }
    proof {
        assert(parts.deep_view().take(n as int) =~= parts.deep_view());
    }
    out
}

/// True when `p` is a prefix of `s`.
pub open spec fn is_prefix_of(p: Seq<char>, s: Seq<char>) -> bool {
    p.len() <= s.len() && s.take(p.len() as int) == p
}

/// Prefix test, executable form.
pub fn starts_with(s: &str, p: &str) -> (r: bool)
    ensures
        r == is_prefix_of(p@, s@),
{
    let ns = s.unicode_len();
    let np = p.unicode_len();
    if np > ns {
        proof {
            assert(!is_prefix_of(p@, s@));
        }
        return false;
    }
    let mut i: usize = 0;
    while i < np
        invariant
            ns == s@.len(),
            np == p@.len(),
            np <= ns,
            0 <= i <= np,
            forall|j: int| 0 <= j < i ==> s@[j] == p@[j],
        decreases np - i,
    {
        if s.get_char(i) != p.get_char(i) {
            proof {
                assert(s@.take(np as int)[i as int] != p@[i as int]);
            }
            return false;
        }
        i = i + 1;
    }
    proof {
        assert(s@.take(np as int) =~= p@);
    }
    true
}

/// String equality on views, executable form.
pub fn str_eq(a: &str, b: &str) -> (r: bool)
    ensures
        r == (a@ == b@),
{
    let sa = a.to_owned();
    let sb = b.to_owned();
    sa == sb
}

/// Strict lexicographic order on character sequences, by code point.
pub open spec fn lex_lt(a: Seq<char>, b: Seq<char>) -> bool
    decreases a.len(),
{
    if b.len() == 0 {
        false
    } else if a.len() == 0 {
        true
    } else if (a[0] as u32) < (b[0] as u32) {
        true
    } else if (a[0] as u32) > (b[0] as u32) {
        false
    } else {
        lex_lt(a.skip(1), b.skip(1))
    }
}

/// Exactly one of `lex_lt(a, b)`, `lex_lt(b, a)`, `a == b` holds.
pub proof fn lemma_lex_lt_trichotomy(a: Seq<char>, b: Seq<char>)
    ensures
        a != b ==> (lex_lt(a, b) <==> !lex_lt(b, a)),
        lex_lt(a, b) ==> a != b,
    decreases a.len(),
{
    if a.len() != 0 && b.len() != 0 {
        lemma_char_code_injective(a[0], b[0]);
        if a[0] == b[0] {
            lemma_lex_lt_trichotomy(a.skip(1), b.skip(1));
            assert(a == b <==> a.skip(1) == b.skip(1)) by {
                if a.skip(1) == b.skip(1) {
                    assert(a =~= seq![a[0]] + a.skip(1));
                    assert(b =~= seq![b[0]] + b.skip(1));
                    assert(seq![a[0]] + a.skip(1) =~= seq![b[0]] + b.skip(1));
                }
            }
        }
    } else if a.len() == 0 && b.len() == 0 {
        assert(a =~= b);
    }
}

/// Lexicographic order is transitive.
pub proof fn lemma_lex_lt_trans(a: Seq<char>, b: Seq<char>, c: Seq<char>)
    requires
        lex_lt(a, b),
        lex_lt(b, c),
    ensures
        lex_lt(a, c),
    decreases a.len(),
{
    if b.len() == 0 {
        assert(!lex_lt(a, b));
    } else if c.len() == 0 {
        assert(!lex_lt(b, c));
    } else if a.len() == 0 {
        assert(lex_lt(a, c));
    } else {
        lemma_char_code_injective(a[0], b[0]);
        lemma_char_code_injective(b[0], c[0]);
        lemma_char_code_injective(a[0], c[0]);
        if a[0] == b[0] && b[0] == c[0] {
            lemma_lex_lt_trans(a.skip(1), b.skip(1), c.skip(1));
        }
    }
}

/// Lexicographic comparison, executable form.
pub fn str_lt(a: &str, b: &str) -> (r: bool)
    ensures
        r == lex_lt(a@, b@),
{
    let na = a.unicode_len();
    let nb = b.unicode_len();
    let mut i: usize = 0;
    proof {
        assert(a@.skip(0) =~= a@);
        assert(b@.skip(0) =~= b@);
    }
    loop
        invariant
            na == a@.len(),
            nb == b@.len(),
            0 <= i <= na,
            0 <= i <= nb,
            lex_lt(a@, b@) == lex_lt(a@.skip(i as int), b@.skip(i as int)),
        decreases na - i,
    {
        proof {
            assert(a@.skip(i as int).len() == na - i);
            assert(b@.skip(i as int).len() == nb - i);
        }
        if i >= nb {
            // b is exhausted: a cannot be less
            return false;
        }
        if i >= na {
            return true;
        }
        let ca = a.get_char(i);
        let cb = b.get_char(i);
        proof {
            assert(a@.skip(i as int)[0] == a@[i as int]);
            assert(b@.skip(i as int)[0] == b@[i as int]);
            assert(a@.skip(i as int).skip(1) =~= a@.skip(i as int + 1));
            assert(b@.skip(i as int).skip(1) =~= b@.skip(i as int + 1));
        }
        if (ca as u32) < (cb as u32) {
            return true;
        }
        if (ca as u32) > (cb as u32) {
            return false;
        }
        proof {
            assert(ca == cb) by {
                assert((ca as u32) == (cb as u32));
            }
        }
        i = i + 1;
    }
}

/// True for the whitespace characters that trailing-trim removes.
pub open spec fn is_trim_ws(c: char) -> bool {
    c == ' ' || c == '\t' || c == '\n' || c == '\r'
}

/// `s` with trailing whitespace removed.
pub open spec fn trim_end_spec(s: Seq<char>) -> Seq<char>
    decreases s.len(),
{
    if s.len() > 0 && is_trim_ws(s.last()) {
        trim_end_spec(s.drop_last())
    } else {
        s
    }
}

/// Removes trailing whitespace, executable form.
pub fn trim_end(s: &str) -> (r: String)
    ensures
        r@ == trim_end_spec(s@),
{
    let n = s.unicode_len();
    let mut end: usize = n;
    let mut stop = false;
    proof {
        assert(s@.take(n as int) =~= s@);
    }
    while !stop && end > 0
        invariant
            n == s@.len(),
            0 <= end <= n,
            trim_end_spec(s@) == trim_end_spec(s@.take(end as int)),
            stop ==> end > 0 && !is_trim_ws(s@[end as int - 1]),
        decreases end + (if stop { 0int } else { 1int }),
    {
        let c = s.get_char(end - 1);
        if c == ' ' || c == '\t' || c == '\n' || c == '\r' {
            proof {
                assert(s@.take(end as int).last() == s@[end as int - 1]);
                assert(s@.take(end as int).drop_last() =~= s@.take(end as int - 1));
            }
            end = end - 1;
        } else {
            stop = true;
        }
    }
    proof {
        if end > 0 {
            assert(s@.take(end as int).last() == s@[end as int - 1]);
            assert(!is_trim_ws(s@.take(end as int).last()));
        }
        assert(trim_end_spec(s@.take(end as int)) == s@.take(end as int));
    }
    let r = s.substring_char(0, end).to_owned();
    proof {
        assert(r@ =~= s@.take(end as int));
    }
    r
}

} // verus!
