//! An association map from MIME type texts to ordered handler lists, kept
//! sorted by key.
//!
//! The map backs both the user override sections and the system catalog.
//! Keys are unique and strictly sorted, every value list is non-empty and
//! duplicate-free, and value order is preserved — the first handler of a
//! list is the preferred one.

use vstd::prelude::*;

use crate::handler::Handler;
use crate::mime_types::Mime;
use crate::strutil::{lemma_lex_lt_trans, lemma_lex_lt_trichotomy, lex_lt, str_eq, str_lt};

verus! {

/// One key of the map with its handler list, as mathematical values.
pub type MapEntry = (Seq<char>, Seq<Seq<char>>);

/// The value stored under key `k`, by first match.
pub open spec fn map_get(m: Seq<MapEntry>, k: Seq<char>) -> Option<Seq<Seq<char>>>
    decreases m.len(),
{
    if m.len() == 0 {
        None
    } else if m[0].0 == k {
        Some(m[0].1)
    } else {
        map_get(m.skip(1), k)
    }
}

/// A found value sits at some index; a missing key is at no index.
pub proof fn lemma_map_get_key_index(m: Seq<MapEntry>, k: Seq<char>)
    ensures
        match map_get(m, k) {
            Some(v) => exists|i: int| 0 <= i < m.len() && m[i].0 == k && m[i].1 == v,
            None => forall|i: int| 0 <= i < m.len() ==> (#[trigger] m[i]).0 != k,
        },
    decreases m.len(),
{
    if m.len() > 0 && m[0].0 != k {
        lemma_map_get_key_index(m.skip(1), k);
        match map_get(m.skip(1), k) {
            Some(v) => {
                let i = choose|i: int|
                    0 <= i < m.skip(1).len() && m.skip(1)[i].0 == k && m.skip(1)[i].1 == v;
                assert(m[i + 1] == m.skip(1)[i]);
            },
            None => {
                assert forall|i: int| 0 <= i < m.len() implies (#[trigger] m[i]).0 != k by {
                    if i >= 1 {
                        assert(m[i] == m.skip(1)[i - 1]);
                    }
                }
            },
        }
    }
}

/// Lookup in a concatenation: the left side wins when it holds the key.
pub proof fn lemma_map_get_append(a: Seq<MapEntry>, b: Seq<MapEntry>, k: Seq<char>)
    ensures
        map_get(a + b, k) == (if map_get(a, k) is Some {
            map_get(a, k)
        } else {
            map_get(b, k)
        }),
    decreases a.len(),
{
    if a.len() == 0 {
        assert(a + b =~= b);
    } else {
        assert((a + b)[0] == a[0]);
        assert((a + b).len() > 0);
        if a[0].0 != k {
            assert((a + b).skip(1) =~= a.skip(1) + b);
            lemma_map_get_append(a.skip(1), b, k);
        }
    }
}

/// Lookup in a one-entry map.
pub proof fn lemma_map_get_single(k: Seq<char>, v: Seq<Seq<char>>, k2: Seq<char>)
    ensures
        map_get(seq![(k, v)], k2) == (if k2 == k {
            Some(v)
        } else {
            None
        }),
{
    assert(seq![(k, v)].skip(1) =~= Seq::<MapEntry>::empty());
    assert(map_get(Seq::<MapEntry>::empty(), k2) is None);
    assert(seq![(k, v)][0] == (k, v));
}

/// No two equal elements.
pub open spec fn distinct_seq(s: Seq<Seq<char>>) -> bool {
    forall|i: int, j: int| 0 <= i < j < s.len() ==> s[i] != s[j]
}

/// In a well-formed map, earlier keys are below later ones.
pub proof fn lemma_wf_sorted(m: Seq<MapEntry>, i: int, j: int)
    requires
        map_wf(m),
        0 <= i < j < m.len(),
    ensures
        lex_lt(m[i].0, m[j].0),
{
}

/// Well-formedness: keys strictly sorted (hence unique), values non-empty
/// and duplicate-free.
pub open spec fn map_wf(m: Seq<MapEntry>) -> bool {
    &&& forall|i: int, j: int|
        0 <= i < j < m.len() ==> lex_lt((#[trigger] m[i]).0, (#[trigger] m[j]).0)
    &&& forall|i: int| 0 <= i < m.len() ==> (#[trigger] m[i]).1.len() > 0
    &&& forall|i: int| 0 <= i < m.len() ==> distinct_seq((#[trigger] m[i]).1)
}

/// True when some handler in `v` has the name `x`.
fn handlers_contain(v: &Vec<Handler>, x: &String) -> (r: bool)
    ensures
        r == v.deep_view().contains(x@),
{
    let n = v.len();
    let mut i: usize = 0;
    while i < n
        invariant
            n == v.len(),
            0 <= i <= n,
            forall|j: int| 0 <= j < i ==> v.deep_view()[j] != x@,
        decreases n - i,
    {
        if str_eq(v[i].name().as_str(), x.as_str()) {
            proof {
                assert(v.deep_view()[i as int] == x@);
            }
            return true;
        }
        proof {
            assert(v.deep_view()[i as int] == v@[i as int]@);
        }
        i = i + 1;
    }
    proof {
        if v.deep_view().contains(x@) {
            let j = choose|j: int| 0 <= j < v.deep_view().len() && v.deep_view()[j] == x@;
            assert(false);
        }
    }
    false
}

/// An association map from MIME texts to ordered, duplicate-free handler
/// lists, kept sorted by key.
#[derive(Debug)]
pub struct MimeMap {
    pub entries: Vec<(Mime, Vec<Handler>)>,
}

/// The mathematical content of an entry list.
pub open spec fn view_of(entries: Seq<(Mime, Vec<Handler>)>) -> Seq<MapEntry> {
    Seq::new(entries.len(), |i: int| (entries[i].0@, entries[i].1.deep_view()))
}

impl View for MimeMap {
    type V = Seq<MapEntry>;

    open spec fn view(&self) -> Seq<MapEntry> {
        view_of(self.entries@)
    }
}

/// The handlers of `hs` whose names are in `valid`, in order.
pub open spec fn keep_named(hs: Seq<Seq<char>>, valid: Seq<Seq<char>>) -> Seq<Seq<char>>
    decreases hs.len(),
{
    if hs.len() == 0 {
        Seq::empty()
    } else if valid.contains(hs.last()) {
        keep_named(hs.drop_last(), valid) + seq![hs.last()]
    } else {
        keep_named(hs.drop_last(), valid)
    }
}

/// Filtering keeps only elements of the input.
pub proof fn lemma_keep_named_subset(hs: Seq<Seq<char>>, valid: Seq<Seq<char>>, x: Seq<char>)
    requires
        keep_named(hs, valid).contains(x),
    ensures
        hs.contains(x),
    decreases hs.len(),
{
    if hs.len() > 0 {
        let kp = keep_named(hs.drop_last(), valid);
        if valid.contains(hs.last()) {
            let t = choose|t: int|
                0 <= t < keep_named(hs, valid).len() && keep_named(hs, valid)[t] == x;
            if t < kp.len() {
                assert(kp[t] == x);
                assert(kp.contains(x));
                lemma_keep_named_subset(hs.drop_last(), valid, x);
                let j = choose|j: int| 0 <= j < hs.drop_last().len() && hs.drop_last()[j] == x;
                assert(hs[j] == x);
            } else {
                assert(x == hs.last());
                assert(hs[hs.len() - 1] == x);
            }
        } else {
            lemma_keep_named_subset(hs.drop_last(), valid, x);
            let j = choose|j: int| 0 <= j < hs.drop_last().len() && hs.drop_last()[j] == x;
            assert(hs[j] == x);
        }
    }
}

/// Filtering a duplicate-free list leaves it duplicate-free.
pub proof fn lemma_keep_named_distinct(hs: Seq<Seq<char>>, valid: Seq<Seq<char>>)
    requires
        distinct_seq(hs),
    ensures
        distinct_seq(keep_named(hs, valid)),
    decreases hs.len(),
{
    if hs.len() > 0 {
        assert(distinct_seq(hs.drop_last())) by {
            assert forall|a: int, b: int|
                0 <= a < b < hs.drop_last().len() implies hs.drop_last()[a]
                != hs.drop_last()[b] by {
                assert(hs[a] == hs.drop_last()[a]);
                assert(hs[b] == hs.drop_last()[b]);
            }
        }
        lemma_keep_named_distinct(hs.drop_last(), valid);
        if valid.contains(hs.last()) {
            let kp = keep_named(hs.drop_last(), valid);
            let kn = keep_named(hs, valid);
            assert forall|a: int, b: int| 0 <= a < b < kn.len() implies kn[a] != kn[b] by {
                if b == kn.len() - 1 {
                    assert(kn[b] == hs.last());
                    assert(kn[a] == kp[a]);
                    if kn[a] == hs.last() {
                        assert(kp.contains(kp[a]));
                        lemma_keep_named_subset(hs.drop_last(), valid, kp[a]);
                        let j = choose|j: int|
                            0 <= j < hs.drop_last().len() && hs.drop_last()[j] == kp[a];
                        assert(hs[j] == hs[hs.len() - 1]);
                    }
                } else {
                    assert(kn[a] == kp[a]);
                    assert(kn[b] == kp[b]);
                }
            }
        }
    }
}

/// The names of the handlers of a list, views preserved.
fn names_of(v: &Vec<Handler>) -> (r: Vec<String>)
    ensures
        r.deep_view() == v.deep_view(),
{
    let n = v.len();
    let mut out: Vec<String> = Vec::new();
    let mut i: usize = 0;
    while i < n
        invariant
            n == v.len(),
            0 <= i <= n,
            out.deep_view() =~= v.deep_view().take(i as int),
        decreases n - i,
    {
        let ghost pre = out.deep_view();
        out.push(v[i].name().clone());
        proof {
            assert(out.deep_view() =~= pre.push(v@[i as int]@));
            assert(out.deep_view() =~= v.deep_view().take(i as int + 1));
        }
        i = i + 1;
    }
    proof {
        assert(v.deep_view().take(n as int) =~= v.deep_view());
    }
    out
}

/// Keeps the handlers whose names are in `valid`, executable form.
fn filter_by_names(v: &Vec<Handler>, valid: &Vec<String>) -> (r: Vec<Handler>)
    ensures
        r.deep_view() == keep_named(v.deep_view(), valid.deep_view()),
{
    let n = v.len();
    let mut out: Vec<Handler> = Vec::new();
    let mut i: usize = 0;
    while i < n
        invariant
            n == v.len(),
            0 <= i <= n,
            out.deep_view() =~= keep_named(v.deep_view().take(i as int), valid.deep_view()),
        decreases n - i,
    {
        let ghost pre = out.deep_view();
        proof {
            assert(v.deep_view().take(i as int + 1).drop_last() =~= v.deep_view().take(i as int));
            assert(v.deep_view().take(i as int + 1).last() == v@[i as int]@);
        }
        if crate::strutil::contains_string(valid, v[i].name()) {
            out.push(v[i].clone());
            proof {
                assert(out.deep_view() =~= pre.push(v@[i as int]@));
                assert(pre.push(v@[i as int]@) =~= pre + seq![v@[i as int]@]);
            }
        }
        i = i + 1;
    }
    proof {
        assert(v.deep_view().take(n as int) =~= v.deep_view());
    }
    out
}

impl Clone for MimeMap {
    fn clone(&self) -> (r: Self)
        ensures
            r@ == self@,
    {
        let n = self.entries.len();
        let mut out: Vec<(Mime, Vec<Handler>)> = Vec::new();
        let mut i: usize = 0;
        while i < n
            invariant
                n == self.entries@.len(),
                0 <= i <= n,
                out@.len() == i,
                forall|j: int|
                    0 <= j < i ==> (#[trigger] out@[j]).0@ == self.entries@[j].0@ && out@[j].1.deep_view()
                        == self.entries@[j].1.deep_view(),
            decreases n - i,
        {
            let mime = self.entries[i].0.clone();
            let mut hs: Vec<Handler> = Vec::new();
            let m = self.entries[i].1.len();
            let mut j: usize = 0;
            while j < m
                invariant
                    m == self.entries@[i as int].1.len(),
                    0 <= i < n,
                    n == self.entries@.len(),
                    0 <= j <= m,
                    hs.deep_view() =~= self.entries@[i as int].1.deep_view().take(j as int),
                decreases m - j,
            {
                let ghost pre = hs.deep_view();
                hs.push(self.entries[i].1[j].clone());
                proof {
                    assert(hs.deep_view() =~= pre.push(self.entries@[i as int].1@[j as int]@));
                    assert(self.entries@[i as int].1.deep_view()[j as int]
                        == self.entries@[i as int].1@[j as int]@);
                    assert(hs.deep_view() =~= self.entries@[i as int].1.deep_view().take(
                        j as int + 1));
                }
                j = j + 1;
            }
            proof {
                assert(self.entries@[i as int].1.deep_view().take(m as int)
                    =~= self.entries@[i as int].1.deep_view());
            }
            out.push((mime, hs));
            i = i + 1;
        }
        let r = MimeMap { entries: out };
        proof {
            assert(r@ =~= self@);
        }
        r
    }
}

impl MimeMap {
    /// An empty map.
    pub fn new() -> (r: MimeMap)
        ensures
            r@ =~= Seq::<MapEntry>::empty(),
            map_wf(r@),
    {
        MimeMap { entries: Vec::new() }
    }

    /// Number of keys.
    pub fn len(&self) -> (r: usize)
        ensures
            r == self@.len(),
    {
        self.entries.len()
    }

    /// The handler list under `k`, if the key is present.
    pub fn get_list(&self, k: &str) -> (r: Option<&Vec<Handler>>)
        ensures
            match r {
                Some(v) => map_get(self@, k@) == Some(v.deep_view()),
                None => map_get(self@, k@) is None,
            },
    {
        let n = self.entries.len();
        let mut i: usize = 0;
        proof {
            assert(self@.skip(0) =~= self@);
        }
        while i < n
            invariant
                n == self.entries@.len(),
                0 <= i <= n,
                map_get(self@, k@) == map_get(self@.skip(i as int), k@),
            decreases n - i,
        {
            proof {
                assert(self@.skip(i as int).len() == n - i);
                assert(self@.skip(i as int)[0] == self@[i as int]);
                assert(self@.skip(i as int).skip(1) =~= self@.skip(i as int + 1));
            }
            if str_eq(self.entries[i].0.0.as_str(), k) {
                proof {
                    assert(self@[i as int].0 == k@);
                }
                return Some(&self.entries[i].1);
            }
            i = i + 1;
        }
        proof {
            assert(self@.skip(n as int).len() == 0);
        }
        None
    }

    /// First position whose key is not below `k`.
    fn lower_bound(&self, k: &str) -> (pos: usize)
        ensures
            0 <= pos <= self@.len(),
            forall|j: int| 0 <= j < pos ==> lex_lt((#[trigger] self@[j]).0, k@),
            pos < self@.len() ==> !lex_lt(self@[pos as int].0, k@),
    {
        let n = self.entries.len();
        let mut pos: usize = 0;
        while pos < n
            invariant
                n == self.entries@.len(),
                0 <= pos <= n,
                forall|j: int| 0 <= j < pos ==> lex_lt((#[trigger] self@[j]).0, k@),
            decreases n - pos,
        {
            if !str_lt(self.entries[pos].0.0.as_str(), k) {
                return pos;
            }
            pos = pos + 1;
        }
        pos
    }

    /// Replaces (or creates) the whole list under `k`.
    pub fn set_list(&mut self, k: Mime, v: Vec<Handler>)
        requires
            map_wf(old(self)@),
            v.deep_view().len() > 0,
            distinct_seq(v.deep_view()),
        ensures
            map_wf(final(self)@),
            map_get(final(self)@, k@) == Some(v.deep_view()),
            forall|k2: Seq<char>|
                k2 != k@ ==> #[trigger] map_get(final(self)@, k2) == map_get(old(self)@, k2),
    {
        let ghost m0 = self@;
        let ghost kv = k@;
        let ghost vv = v.deep_view();
        let pos = self.lower_bound(k.0.as_str());
        let n = self.entries.len();
        let mut replace = false;
        if pos < n {
            if str_eq(self.entries[pos].0.0.as_str(), k.0.as_str()) {
                replace = true;
            }
        }
        if replace {
            self.entries.remove(pos);
            self.entries.insert(pos, (k, v));
            proof {
                let mn = self@;
                assert(mn =~= m0.take(pos as int) + seq![(kv, vv)] + m0.skip(pos as int + 1));
                assert(m0 =~= m0.take(pos as int) + seq![m0[pos as int]] + m0.skip(pos as int + 1));
                Self::lemma_replace_at(m0, pos as int, kv, vv);
            }
        } else {
            self.entries.insert(pos, (k, v));
            proof {
                let mn = self@;
                assert(mn =~= m0.take(pos as int) + seq![(kv, vv)] + m0.skip(pos as int));
                assert(m0 =~= m0.take(pos as int) + m0.skip(pos as int));
                if pos < m0.len() {
                    assert(m0[pos as int].0 != kv);
                    lemma_lex_lt_trichotomy(m0[pos as int].0, kv);
                }
                Self::lemma_insert_at(m0, pos as int, kv, vv);
            }
        }
    }

    /// Replacing the value at a present key changes only that key.
    proof fn lemma_replace_at(m0: Seq<MapEntry>, pos: int, kv: Seq<char>, vv: Seq<Seq<char>>)
        requires
            map_wf(m0),
            0 <= pos < m0.len(),
            m0[pos].0 == kv,
            vv.len() > 0,
            distinct_seq(vv),
            forall|j: int| 0 <= j < pos ==> lex_lt((#[trigger] m0[j]).0, kv),
        ensures
            map_wf(m0.take(pos) + seq![(kv, vv)] + m0.skip(pos + 1)),
            map_get(m0.take(pos) + seq![(kv, vv)] + m0.skip(pos + 1), kv) == Some(vv),
            forall|k2: Seq<char>|
                k2 != kv ==> #[trigger] map_get(m0.take(pos) + seq![(kv, vv)] + m0.skip(pos + 1), k2)
                    == map_get(m0, k2),
    {
        let pre = m0.take(pos);
        let suf = m0.skip(pos + 1);
        let mn = pre + seq![(kv, vv)] + suf;
        assert(m0 =~= pre + seq![m0[pos]] + suf);
        // sortedness of the new sequence
        assert forall|i: int, j: int| 0 <= i < j < mn.len() implies lex_lt(
            (#[trigger] mn[i]).0,
            (#[trigger] mn[j]).0,
        ) by {
            assert(mn.len() == m0.len());
            assert(forall|t: int| 0 <= t < m0.len() && t != pos ==> mn[t] == m0[t]);
            assert(mn[pos].0 == m0[pos].0);
        }
        assert forall|i: int| 0 <= i < mn.len() implies (#[trigger] mn[i]).1.len() > 0 by {
            if i != pos {
                assert(mn[i] == m0[i]);
            }
        }
        assert forall|i: int| 0 <= i < mn.len() implies distinct_seq((#[trigger] mn[i]).1) by {
            if i != pos {
                assert(mn[i] == m0[i]);
            }
        }
        // lookups
        lemma_map_get_key_index(pre, kv);
        assert forall|t: int| 0 <= t < pre.len() implies (#[trigger] pre[t]).0 != kv by {
            assert(pre[t] == m0[t]);
            lemma_lex_lt_trichotomy(m0[t].0, kv);
        }
        assert(map_get(pre, kv) is None);
        assert forall|k2: Seq<char>| true implies #[trigger] map_get(mn, k2) == (if k2 == kv {
            Some(vv)
        } else {
            map_get(m0, k2)
        }) by {
            lemma_map_get_append(pre + seq![(kv, vv)], suf, k2);
            lemma_map_get_append(pre, seq![(kv, vv)], k2);
            lemma_map_get_append(pre + seq![m0[pos]], suf, k2);
            lemma_map_get_append(pre, seq![m0[pos]], k2);
            lemma_map_get_single(kv, vv, k2);
            lemma_map_get_single(m0[pos].0, m0[pos].1, k2);
            assert(mn =~= (pre + seq![(kv, vv)]) + suf);
            assert(m0 =~= (pre + seq![m0[pos]]) + suf);
        }
    }

    /// Inserting a fresh key at its sorted place changes only that key.
    proof fn lemma_insert_at(m0: Seq<MapEntry>, pos: int, kv: Seq<char>, vv: Seq<Seq<char>>)
        requires
            map_wf(m0),
            0 <= pos <= m0.len(),
            vv.len() > 0,
            distinct_seq(vv),
            forall|j: int| 0 <= j < pos ==> lex_lt((#[trigger] m0[j]).0, kv),
            pos < m0.len() ==> lex_lt(kv, m0[pos].0),
        ensures
            map_wf(m0.take(pos) + seq![(kv, vv)] + m0.skip(pos)),
            map_get(m0.take(pos) + seq![(kv, vv)] + m0.skip(pos), kv) == Some(vv),
            forall|k2: Seq<char>|
                k2 != kv ==> #[trigger] map_get(m0.take(pos) + seq![(kv, vv)] + m0.skip(pos), k2)
                    == map_get(m0, k2),
    {
        let pre = m0.take(pos);
        let suf = m0.skip(pos);
        let mn = pre + seq![(kv, vv)] + suf;
        assert(m0 =~= pre + suf);
        assert(forall|p: int, q: int|
            0 <= p < q < m0.len() ==> lex_lt((#[trigger] m0[p]).0, (#[trigger] m0[q]).0));
        // sortedness: entries before pos are below kv, entries from pos on
        // are above it
        assert forall|i: int, j: int| 0 <= i < j < mn.len() implies lex_lt(
            (#[trigger] mn[i]).0,
            (#[trigger] mn[j]).0,
        ) by {
            assert(forall|t: int| 0 <= t < pos ==> mn[t] == m0[t]);
            assert(forall|t: int| pos < t < mn.len() ==> mn[t] == m0[t - 1]);
            assert(mn[pos].0 == kv);
            if i < pos && j == pos {
                // mn[i] is below kv by the position requirement
            } else if i == pos && j > pos {
                // kv is below m0[pos], which is below every later key
                if j - 1 == pos {
                    assert(lex_lt(kv, m0[pos].0));
                } else {
                    assert(lex_lt(m0[pos].0, m0[j - 1].0));
                    lemma_lex_lt_trans(kv, m0[pos].0, m0[j - 1].0);
                }
            } else if i < pos && j > pos {
                assert(lex_lt(m0[i].0, kv));
                if j - 1 == pos {
                    assert(lex_lt(kv, m0[pos].0));
                    lemma_lex_lt_trans(m0[i].0, kv, m0[pos].0);
                    assert(mn[j] == m0[pos]);
                } else {
                    let b = j - 1;
                    assert(0 <= i < b < m0.len());
                    lemma_wf_sorted(m0, i, b);
                }
            } else if j < pos {
                assert(mn[i] == m0[i]);
                assert(mn[j] == m0[j]);
                lemma_wf_sorted(m0, i, j);
            } else {
                assert(i > pos);
                assert(mn[i] == m0[i - 1]);
                assert(mn[j] == m0[j - 1]);
                lemma_wf_sorted(m0, i - 1, j - 1);
            }
        }
        assert forall|i: int| 0 <= i < mn.len() implies (#[trigger] mn[i]).1.len() > 0 by {
            if i < pos {
                assert(mn[i] == m0[i]);
            } else if i > pos {
                assert(mn[i] == m0[i - 1]);
            }
        }
        assert forall|i: int| 0 <= i < mn.len() implies distinct_seq((#[trigger] mn[i]).1) by {
            if i < pos {
                assert(mn[i] == m0[i]);
            } else if i > pos {
                assert(mn[i] == m0[i - 1]);
            }
        }
        // lookups
        assert forall|t: int| 0 <= t < pre.len() implies (#[trigger] pre[t]).0 != kv by {
            assert(pre[t] == m0[t]);
            lemma_lex_lt_trichotomy(m0[t].0, kv);
        }
        lemma_map_get_key_index(pre, kv);
        assert(map_get(pre, kv) is None);
        assert forall|k2: Seq<char>| true implies #[trigger] map_get(mn, k2) == (if k2 == kv {
            Some(vv)
        } else {
            map_get(m0, k2)
        }) by {
            lemma_map_get_append(pre + seq![(kv, vv)], suf, k2);
            lemma_map_get_append(pre, seq![(kv, vv)], k2);
            lemma_map_get_append(pre, suf, k2);
            lemma_map_get_single(kv, vv, k2);
            assert(mn =~= (pre + seq![(kv, vv)]) + suf);
        }
    }

    /// Appends `h` to the list under `k`, creating the key if it is absent
    /// and leaving the list unchanged when it already holds `h`.
    pub fn push_handler(&mut self, k: &Mime, h: Handler)
        requires
            map_wf(old(self)@),
        ensures
            map_wf(final(self)@),
            map_get(final(self)@, k@) == Some(
                match map_get(old(self)@, k@) {
                    Some(v) => if v.contains(h@) {
                        v
                    } else {
                        v.push(h@)
                    },
                    None => seq![h@],
                },
            ),
            forall|k2: Seq<char>|
                k2 != k@ ==> #[trigger] map_get(final(self)@, k2) == map_get(old(self)@, k2),
    {
        let ghost m0 = self@;
        let ghost kv = k@;
        let pos = self.lower_bound(k.0.as_str());
        let n = self.entries.len();
        let mut found = false;
        if pos < n {
            if str_eq(self.entries[pos].0.0.as_str(), k.0.as_str()) {
                found = true;
            }
        }
        if found {
            proof {
                assert(m0[pos as int].0 == kv);
                lemma_map_get_key_index(m0.take(pos as int), kv);
                assert forall|t: int| 0 <= t < pos implies (#[trigger] m0.take(pos as int)[t]).0
                    != kv by {
                    assert(m0.take(pos as int)[t] == m0[t]);
                    lemma_lex_lt_trichotomy(m0[t].0, kv);
                }
                assert(map_get(m0.take(pos as int), kv) is None);
                lemma_map_get_append(m0.take(pos as int), m0.skip(pos as int), kv);
                assert(m0 =~= m0.take(pos as int) + m0.skip(pos as int));
                assert(m0.skip(pos as int)[0] == m0[pos as int]);
                assert(map_get(m0.skip(pos as int), kv) == Some(m0[pos as int].1));
                assert(map_get(m0, kv) == Some(m0[pos as int].1));
            }
            let mut entry = self.entries.remove(pos);
            let ghost oldlist = entry.1.deep_view();
            let present = handlers_contain(&entry.1, h.name());
            if !present {
                entry.1.push(h);
                proof {
                    assert(entry.1.deep_view() =~= oldlist.push(h@));
                }
            }
            let ghost newlist = entry.1.deep_view();
            self.entries.insert(pos, entry);
            proof {
                assert(newlist == if oldlist.contains(h@) {
                    oldlist
                } else {
                    oldlist.push(h@)
                });
                assert(newlist.len() > 0);
                assert(distinct_seq(newlist)) by {
                    assert(oldlist == m0[pos as int].1);
                    assert(distinct_seq(oldlist));
                    if !oldlist.contains(h@) {
                        assert forall|a: int, b: int| 0 <= a < b < newlist.len() implies newlist[a]
                            != newlist[b] by {
                            if b == newlist.len() - 1 {
                                assert(newlist[b] == h@);
                                assert(newlist[a] == oldlist[a]);
                                assert(oldlist.contains(oldlist[a]));
                            }
                        }
                    }
                }
                assert(self@ =~= m0.take(pos as int) + seq![(kv, newlist)] + m0.skip(pos as int + 1));
                Self::lemma_replace_at(m0, pos as int, kv, newlist);
            }
        } else {
            let mut hs: Vec<Handler> = Vec::new();
            hs.push(h);
            let ghost vv = hs.deep_view();
            proof {
                assert(vv =~= seq![h@]);
                lemma_map_get_key_index(m0, kv);
                assert forall|t: int| 0 <= t < m0.len() implies (#[trigger] m0[t]).0 != kv by {
                    if t < pos {
                        lemma_lex_lt_trichotomy(m0[t].0, kv);
                    } else {
                        assert(!lex_lt(m0[pos as int].0, kv));
                        lemma_lex_lt_trichotomy(m0[pos as int].0, kv);
                        if t > pos {
                            assert(lex_lt(m0[pos as int].0, m0[t].0));
                            if m0[t].0 == kv {
                                assert(lex_lt(m0[pos as int].0, kv));
                            }
                        }
                    }
                }
                assert(map_get(m0, kv) is None);
                if pos < m0.len() {
                    lemma_lex_lt_trichotomy(m0[pos as int].0, kv);
                }
            }
            self.entries.insert(pos, (k.clone(), hs));
            proof {
                assert(self@ =~= m0.take(pos as int) + seq![(kv, vv)] + m0.skip(pos as int));
                Self::lemma_insert_at(m0, pos as int, kv, vv);
            }
        }
    }

    /// One table row per key: the MIME text and its handlers joined by a
    /// comma, in key order.
    pub fn rows(&self) -> (r: Vec<Vec<String>>)
        ensures
            r.deep_view().len() == self@.len(),
            forall|i: int|
                0 <= i < self@.len() ==> #[trigger] r.deep_view()[i] =~= seq![
                    self@[i].0,
                    crate::strutil::join_spec(self@[i].1, ", "@),
                ],
    {
        let n = self.entries.len();
        let mut out: Vec<Vec<String>> = Vec::new();
        let mut i: usize = 0;
        while i < n
            invariant
                n == self.entries@.len(),
                n == self@.len(),
                0 <= i <= n,
                out.deep_view().len() == i,
                forall|t: int|
                    0 <= t < i ==> #[trigger] out.deep_view()[t] =~= seq![
                        self@[t].0,
                        crate::strutil::join_spec(self@[t].1, ", "@),
                    ],
            decreases n - i,
        {
            let names = names_of(&self.entries[i].1);
            let joined = crate::strutil::join_strs(&names, ", ");
            let mut row: Vec<String> = Vec::new();
            row.push(self.entries[i].0.0.clone());
            row.push(joined);
            proof {
                assert(self@[i as int].0 == self.entries@[i as int].0@);
                assert(self@[i as int].1 == self.entries@[i as int].1.deep_view());
                assert(row.deep_view() =~= seq![
                    self@[i as int].0,
                    crate::strutil::join_spec(self@[i as int].1, ", "@),
                ]);
            }
            let ghost rowv = row.deep_view();
            let ghost pre = out.deep_view();
            out.push(row);
            proof {
                assert(out.deep_view() =~= pre.push(rowv));
            }
            i = i + 1;
        }
        out
    }

    /// Keeps only the handlers whose names are in `valid`; a key whose
    /// list empties out is deleted entirely, so no list is ever empty.
    pub fn retain_names(&mut self, valid: &Vec<String>)
        requires
            map_wf(old(self)@),
        ensures
            map_wf(final(self)@),
            forall|k: Seq<char>|
                #[trigger] map_get(final(self)@, k) == (match map_get(old(self)@, k) {
                    Some(hs) => crate::apps::system::opt_of(
                        keep_named(hs, valid.deep_view()),
                    ),
                    None => None,
                }),
    {
        let ghost m0 = self@;
        let ghost vv = valid.deep_view();
        let n = self.entries.len();
        let mut out: Vec<(Mime, Vec<Handler>)> = Vec::new();
        let mut i: usize = 0;
        proof {
            assert(m0.take(0).len() == 0);
        }
        while i < n
            invariant
                n == self.entries@.len(),
                m0 == self@,
                map_wf(m0),
                vv == valid.deep_view(),
                0 <= i <= n,
                map_wf(view_of(out@)),
                forall|k: Seq<char>|
                    #[trigger] map_get(view_of(out@), k) == (match map_get(m0.take(i as int), k) {
                        Some(hs) => crate::apps::system::opt_of(keep_named(hs, vv)),
                        None => None,
                    }),
                forall|t: int|
                    0 <= t < view_of(out@).len() ==> exists|j: int|
                        0 <= j < i && (#[trigger] view_of(out@)[t]).0 == m0[j].0,
            decreases n - i,
        {
            let ghost preov = view_of(out@);
            let kept = filter_by_names(&self.entries[i].1, valid);
            proof {
                assert(m0[i as int].0 == self.entries@[i as int].0@);
                assert(m0[i as int].1 == self.entries@[i as int].1.deep_view());
                assert(m0.take(i as int + 1).drop_last() =~= m0.take(i as int));
                assert(m0.take(i as int + 1).last() == m0[i as int]);
                lemma_map_get_key_index(m0.take(i as int), m0[i as int].0);
                assert forall|t: int| 0 <= t < i implies (#[trigger] m0.take(i as int)[t]).0
                    != m0[i as int].0 by {
                    lemma_wf_sorted(m0, t, i as int);
                    lemma_lex_lt_trichotomy(m0[t].0, m0[i as int].0);
                }
                assert(map_get(m0.take(i as int), m0[i as int].0) is None);
            }
            if kept.len() > 0 {
                let key = self.entries[i].0.clone();
                let ghost keptv = kept.deep_view();
                proof {
                    lemma_keep_named_distinct(m0[i as int].1, vv);
                    // every key of the output is a key of the processed
                    // prefix, hence below the key now appended
                    assert forall|t: int| 0 <= t < preov.len() implies lex_lt(
                        (#[trigger] preov[t]).0,
                        m0[i as int].0,
                    ) by {
                        let j = choose|j: int| 0 <= j < i && (#[trigger] preov[t]).0 == m0[j].0;
                        lemma_wf_sorted(m0, j, i as int);
                    }
                }
                out.push((key, kept));
                proof {
                    assert(view_of(out@) =~= preov + seq![(m0[i as int].0, keptv)]);
                    Self::lemma_insert_at(preov, preov.len() as int, m0[i as int].0, keptv);
                    assert(preov.take(preov.len() as int) =~= preov);
                    assert(preov.skip(preov.len() as int) =~= Seq::<MapEntry>::empty());
                    assert(preov + seq![(m0[i as int].0, keptv)] + Seq::<MapEntry>::empty()
                        =~= preov + seq![(m0[i as int].0, keptv)]);
                    assert forall|t: int| 0 <= t < view_of(out@).len() implies exists|j: int|
                        0 <= j < i + 1 && (#[trigger] view_of(out@)[t]).0 == m0[j].0 by {
                        if t < preov.len() {
                            assert(view_of(out@)[t] == preov[t]);
                            let j = choose|j: int|
                                0 <= j < i && (#[trigger] preov[t]).0 == m0[j].0;
                            assert(0 <= j < i + 1 && view_of(out@)[t].0 == m0[j].0);
                        } else {
                            assert(view_of(out@)[t].0 == m0[i as int].0);
                        }
                    }
                    assert forall|k: Seq<char>| #[trigger] map_get(view_of(out@), k) == (
                    match map_get(m0.take(i as int + 1), k) {
                        Some(hs) => crate::apps::system::opt_of(keep_named(hs, vv)),
                        None => None,
                    }) by {
                        lemma_map_get_append(m0.take(i as int), seq![m0[i as int]], k);
                        lemma_map_get_single(m0[i as int].0, m0[i as int].1, k);
                        assert(m0.take(i as int + 1) =~= m0.take(i as int) + seq![m0[i as int]]);
                    }
                }
            } else {
                proof {
                    assert forall|k: Seq<char>| #[trigger] map_get(view_of(out@), k) == (
                    match map_get(m0.take(i as int + 1), k) {
                        Some(hs) => crate::apps::system::opt_of(keep_named(hs, vv)),
                        None => None,
                    }) by {
                        lemma_map_get_append(m0.take(i as int), seq![m0[i as int]], k);
                        lemma_map_get_single(m0[i as int].0, m0[i as int].1, k);
                        assert(m0.take(i as int + 1) =~= m0.take(i as int) + seq![m0[i as int]]);
                    }
                }
            }
            i = i + 1;
        }
        self.entries = out;
        proof {
            assert(m0.take(n as int) =~= m0);
            assert(self@ == view_of(self.entries@));
        }
    }

    /// Removes the key `k` and its list; reports whether the key was there.
    pub fn remove_key(&mut self, k: &str) -> (r: bool)
        requires
            map_wf(old(self)@),
        ensures
            map_wf(final(self)@),
            r == (map_get(old(self)@, k@) is Some),
            map_get(final(self)@, k@) is None,
            forall|k2: Seq<char>|
                k2 != k@ ==> #[trigger] map_get(final(self)@, k2) == map_get(old(self)@, k2),
    {
        let ghost m0 = self@;
        let ghost kv = k@;
        let pos = self.lower_bound(k);
        let n = self.entries.len();
        let mut found = false;
        if pos < n {
            if str_eq(self.entries[pos].0.0.as_str(), k) {
                found = true;
            }
        }
        proof {
            lemma_map_get_key_index(m0.take(pos as int), kv);
            assert forall|t: int| 0 <= t < pos implies (#[trigger] m0.take(pos as int)[t]).0
                != kv by {
                assert(m0.take(pos as int)[t] == m0[t]);
                lemma_lex_lt_trichotomy(m0[t].0, kv);
            }
            assert(map_get(m0.take(pos as int), kv) is None);
        }
        if found {
            self.entries.remove(pos);
            proof {
                let pre = m0.take(pos as int);
                let suf = m0.skip(pos as int + 1);
                let mn = self@;
                assert(mn =~= pre + suf);
                assert(m0 =~= pre + seq![m0[pos as int]] + suf);
                // the old map holds the key
                lemma_map_get_append(pre + seq![m0[pos as int]], suf, kv);
                lemma_map_get_append(pre, seq![m0[pos as int]], kv);
                lemma_map_get_single(m0[pos as int].0, m0[pos as int].1, kv);
                assert(m0 =~= (pre + seq![m0[pos as int]]) + suf);
                assert(map_get(m0, kv) is Some);
                // the new map does not
                lemma_map_get_key_index(suf, kv);
                assert forall|t: int| 0 <= t < suf.len() implies (#[trigger] suf[t]).0 != kv by {
                    assert(suf[t] == m0[pos as int + 1 + t]);
                    assert(lex_lt(m0[pos as int].0, m0[pos as int + 1 + t].0));
                }
                assert(map_get(suf, kv) is None);
                lemma_map_get_append(pre, suf, kv);
                assert(map_get(mn, kv) is None);
                // other keys unchanged
                assert forall|k2: Seq<char>| k2 != kv implies #[trigger] map_get(mn, k2) == map_get(
                    m0,
                    k2,
                ) by {
                    lemma_map_get_append(pre, suf, k2);
                    lemma_map_get_append(pre + seq![m0[pos as int]], suf, k2);
                    lemma_map_get_append(pre, seq![m0[pos as int]], k2);
                    lemma_map_get_single(m0[pos as int].0, m0[pos as int].1, k2);
                }
                // well-formedness: a subsequence of a sorted sequence
                assert forall|i: int, j: int| 0 <= i < j < mn.len() implies lex_lt(
                    (#[trigger] mn[i]).0,
                    (#[trigger] mn[j]).0,
                ) by {
                    assert(mn[i] == m0[if i < pos { i } else { i + 1 }]);
                    assert(mn[j] == m0[if j < pos { j } else { j + 1 }]);
                }
                assert forall|i: int| 0 <= i < mn.len() implies (#[trigger] mn[i]).1.len() > 0
                    && distinct_seq(mn[i].1) by {
                    assert(mn[i] == m0[if i < pos { i } else { i + 1 }]);
                }
            }
            true
        } else {
            proof {
                lemma_map_get_key_index(m0, kv);
                assert forall|t: int| 0 <= t < m0.len() implies (#[trigger] m0[t]).0 != kv by {
                    if t < pos {
                        lemma_lex_lt_trichotomy(m0[t].0, kv);
                    } else if pos < m0.len() {
                        lemma_lex_lt_trichotomy(m0[pos as int].0, kv);
                        if t > pos && m0[t].0 == kv {
                            assert(lex_lt(m0[pos as int].0, m0[t].0));
                        }
                    }
                }
                assert(map_get(m0, kv) is None);
            }
            false
        }
    }
}

} // verus!
