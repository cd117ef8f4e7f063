//! The save/load round trip: parsing a serialized override file recovers
//! exactly the serialized associations, so resolution is unchanged.

use vstd::prelude::*;

use crate::apps::user::{
    handlers_of_value, line_of_entry, lines_text, map_opt, parse_fold, parse_line_step,
    section_name_of, serialize_spec, strip_cr, MimeApps, ParseState,
};
use crate::mime_map::{
    lemma_map_get_append, lemma_map_get_key_index, lemma_map_get_single, map_get, map_wf, MapEntry,
};
use crate::strutil::{
    find_char_spec, has_char, join_from_spec, join_spec, keep_nonempty_spec,
    lemma_dedup_of_distinct, lemma_find_char, lemma_join_no_char, lemma_keep_nonempty_of_nonempty,
    lemma_split_concat, lemma_split_no_sep, split_char_spec,
};

verus! {

/// A handler identifier that survives the file format: non-empty, and free
/// of the separator and line-break characters.
pub open spec fn handler_ok(h: Seq<char>) -> bool {
    h.len() > 0 && !has_char(h, ';') && !has_char(h, '\n')
}

/// A map entry that survives the file format: a non-empty key free of
/// newlines and `=`, not opening a section or comment, with well-formed
/// handlers.
pub open spec fn entry_serializable(e: MapEntry) -> bool {
    &&& e.0.len() > 0
    &&& !has_char(e.0, '\n')
    &&& !has_char(e.0, '=')
    &&& e.0[0] != '['
    &&& e.0[0] != '#'
    &&& forall|j: int| 0 <= j < e.1.len() ==> handler_ok(#[trigger] e.1[j])
}

/// Every entry of the map survives the file format.
pub open spec fn map_serializable(m: Seq<MapEntry>) -> bool {
    forall|i: int| 0 <= i < m.len() ==> entry_serializable(#[trigger] m[i])
}

/// The fold of the parser over `lines`, started from an arbitrary state.
pub open spec fn parse_fold_from(st: ParseState, lines: Seq<Seq<char>>, n: int) -> Option<
    ParseState,
>
    decreases n,
{
    if n <= 0 {
        Some(st)
    } else {
        match parse_fold_from(st, lines, n - 1) {
            None => None,
            Some(s2) => parse_line_step(s2, lines[n - 1]),
        }
    }
}

/// The initial parser state.
pub open spec fn init_state() -> ParseState {
    ParseState { section: Seq::empty(), added: Map::empty(), default_apps: Map::empty() }
}

/// `parse_fold` is the fold from the initial state.
pub proof fn lemma_parse_fold_is_fold_from(lines: Seq<Seq<char>>, n: int)
    ensures
        parse_fold(lines, n) == parse_fold_from(init_state(), lines, n),
    decreases n,
{
    if n > 0 {
        lemma_parse_fold_is_fold_from(lines, n - 1);
    }
}

/// The fold reads only the first `n` lines.
pub proof fn lemma_fold_take(st: ParseState, lines: Seq<Seq<char>>, n: int)
    requires
        0 <= n <= lines.len(),
    ensures
        parse_fold_from(st, lines, n) == parse_fold_from(st, lines.take(n), n),
    decreases n,
{
    if n > 0 {
        lemma_fold_take(st, lines, n - 1);
        lemma_fold_take(st, lines.take(n), n - 1);
        assert(lines.take(n).take(n - 1) =~= lines.take(n - 1));
        assert(lines.take(n)[n - 1] == lines[n - 1]);
    }
}

/// Folding over a concatenation folds the parts in turn.
pub proof fn lemma_fold_concat(st: ParseState, l1: Seq<Seq<char>>, l2: Seq<Seq<char>>, k: int)
    requires
        0 <= k <= l2.len(),
    ensures
        parse_fold_from(st, l1 + l2, l1.len() + k) == (match parse_fold_from(
            st,
            l1,
            l1.len() as int,
        ) {
            None => None,
            Some(s) => parse_fold_from(s, l2, k),
        }),
    decreases k,
{
    if k == 0 {
        lemma_fold_take(st, l1 + l2, l1.len() as int);
        assert((l1 + l2).take(l1.len() as int) =~= l1);
        lemma_fold_take(st, l1, l1.len() as int);
        assert(l1.take(l1.len() as int) =~= l1);
    } else {
        lemma_fold_concat(st, l1, l2, k - 1);
        assert((l1 + l2)[l1.len() + k - 1] == l2[k - 1]);
    }
}

/// All keys inserted into a base map, one after the other.
pub open spec fn insert_all(
    base: Map<Seq<char>, Seq<Seq<char>>>,
    m: Seq<MapEntry>,
    n: int,
) -> Map<Seq<char>, Seq<Seq<char>>>
    decreases n,
{
    if n <= 0 {
        base
    } else {
        insert_all(base, m, n - 1).insert(m[n - 1].0, m[n - 1].1)
    }
}

/// With unique keys, the inserted map looks up as the association list
/// does, falling back to the base map.
pub proof fn lemma_insert_all_get(
    base: Map<Seq<char>, Seq<Seq<char>>>,
    m: Seq<MapEntry>,
    n: int,
    k: Seq<char>,
)
    requires
        0 <= n <= m.len(),
        forall|i: int, j: int| 0 <= i < j < m.len() ==> (#[trigger] m[i]).0 != (#[trigger] m[j]).0,
    ensures
        map_opt(insert_all(base, m, n), k) == (match map_get(m.take(n), k) {
            Some(v) => Some(v),
            None => map_opt(base, k),
        }),
    decreases n,
{
    if n > 0 {
        lemma_insert_all_get(base, m, n - 1, k);
        let pre = m.take(n - 1);
        assert(m.take(n) =~= pre + seq![m[n - 1]]);
        lemma_map_get_append(pre, seq![m[n - 1]], k);
        lemma_map_get_single(m[n - 1].0, m[n - 1].1, k);
        if k == m[n - 1].0 {
            lemma_map_get_key_index(pre, k);
            assert forall|t: int| 0 <= t < pre.len() implies (#[trigger] pre[t]).0 != k by {
                assert(pre[t] == m[t]);
            }
            assert(map_get(pre, k) is None);
        }
    }
}

/// Splitting the joined, `;`-terminated handler list recovers the
/// handlers followed by one empty part.
pub proof fn lemma_split_joined(hs: Seq<Seq<char>>, i: int)
    requires
        0 <= i < hs.len(),
        forall|j: int| 0 <= j < hs.len() ==> handler_ok(#[trigger] hs[j]),
    ensures
        split_char_spec(join_from_spec(hs, ";"@, i) + ";"@, ';') =~= hs.skip(i) + seq![
            Seq::<char>::empty(),
        ],
    decreases hs.len() - i,
{
    reveal_strlit(";");
    assert(";"@ =~= seq![';']);
    if i == hs.len() - 1 {
        assert(join_from_spec(hs, ";"@, i) == hs[i]);
        lemma_split_concat(hs[i], Seq::empty(), ';');
        assert(hs[i] + ";"@ + Seq::<char>::empty() =~= hs[i] + ";"@);
        lemma_split_no_sep(hs[i], ';');
        assert(split_char_spec(Seq::<char>::empty(), ';') =~= seq![Seq::<char>::empty()]);
        assert(split_char_spec(hs[i] + ";"@, ';') =~= seq![hs[i]] + seq![Seq::<char>::empty()]);
        assert(seq![hs[i]] + seq![Seq::<char>::empty()] =~= hs.skip(i) + seq![
            Seq::<char>::empty(),
        ]);
    } else {
        lemma_split_joined(hs, i + 1);
        let tailjoin = join_from_spec(hs, ";"@, i + 1) + ";"@;
        assert(join_from_spec(hs, ";"@, i) == hs[i] + ";"@ + join_from_spec(hs, ";"@, i + 1));
        assert(join_from_spec(hs, ";"@, i) + ";"@ =~= hs[i] + seq![';'] + tailjoin);
        lemma_split_concat(hs[i], tailjoin, ';');
        lemma_split_no_sep(hs[i], ';');
        assert(split_char_spec(hs[i] + seq![';'] + tailjoin, ';') =~= seq![hs[i]] + (hs.skip(i + 1)
            + seq![Seq::<char>::empty()]));
        assert(seq![hs[i]] + (hs.skip(i + 1) + seq![Seq::<char>::empty()]) =~= hs.skip(i) + seq![
            Seq::<char>::empty(),
        ]);
    }
}

/// The serialized value of a well-formed handler list parses back to the
/// same list.
pub proof fn lemma_value_round_trip(hs: Seq<Seq<char>>)
    requires
        hs.len() > 0,
        forall|j: int| 0 <= j < hs.len() ==> handler_ok(#[trigger] hs[j]),
        forall|a: int, b: int| 0 <= a < b < hs.len() ==> hs[a] != hs[b],
    ensures
        handlers_of_value(join_spec(hs, ";"@) + ";"@) == hs,
{
    lemma_split_joined(hs, 0);
    assert(split_char_spec(join_spec(hs, ";"@) + ";"@, ';') =~= hs.skip(0) + seq![
        Seq::<char>::empty(),
    ]);
    assert(hs.skip(0) =~= hs);
    let withempty = hs + seq![Seq::<char>::empty()];
    assert(withempty.drop_last() =~= hs);
    assert(withempty.last().len() == 0);
    assert(keep_nonempty_spec(withempty) == keep_nonempty_spec(hs));
    lemma_keep_nonempty_of_nonempty(hs);
    lemma_dedup_of_distinct(hs);
}

/// A serialized property line steps the parser by exactly one insertion
/// into the current recognized section.
pub proof fn lemma_property_line_step(st: ParseState, e: MapEntry)
    requires
        entry_serializable(e),
        e.1.len() > 0,
        forall|a: int, b: int| 0 <= a < b < e.1.len() ==> e.1[a] != e.1[b],
        st.section == "Added Associations"@ || st.section == "Default Applications"@,
    ensures
        parse_line_step(st, line_of_entry(e)) == Some(
            if st.section == "Added Associations"@ {
                ParseState { added: st.added.insert(e.0, e.1), ..st }
            } else {
                ParseState { default_apps: st.default_apps.insert(e.0, e.1), ..st }
            },
        ),
{
    reveal_strlit(";");
    reveal_strlit("=");
    assert(";"@ =~= seq![';']);
    assert("="@ =~= seq!['=']);
    let l = line_of_entry(e);
    let k = e.0;
    let joined = join_spec(e.1, ";"@);
    assert(l =~= k + seq!['='] + (joined + seq![';']));
    // the line ends in the separator, so no trailing carriage return
    assert(l.last() == ';');
    assert(strip_cr(l) == l);
    assert(l.len() > 0);
    assert(l[0] == k[0]);
    assert(l[0] != '#');
    assert(!(l.len() >= 2 && l[0] == '[' && l.last() == ']'));
    // the first `=` of the line sits right after the key
    assert(l[k.len() as int] == '=');
    lemma_find_char(l, '=');
    let f = find_char_spec(l, '=');
    assert(f is Some) by {
        if f is None {
            assert(l[k.len() as int] != '=');
        }
    }
    let fi = f->Some_0;
    assert(fi <= k.len()) by {
        if fi > k.len() {
            assert(l[k.len() as int] != '=');
        }
    }
    assert(fi == k.len()) by {
        if fi < k.len() {
            assert(l[fi] == k[fi]);
            assert(has_char(k, '='));
        }
    }
    assert(fi >= 1);
    assert(l.take(fi) =~= k);
    assert(l.skip(fi + 1) =~= joined + ";"@);
    lemma_value_round_trip(e.1);
    assert(handlers_of_value(l.skip(fi + 1)) == e.1);
}

/// The property lines of a serializable map, as the parser will see them.
pub open spec fn lines_of_map(m: Seq<MapEntry>) -> Seq<Seq<char>> {
    Seq::new(m.len(), |t: int| line_of_entry(m[t]))
}

/// Splitting the serialized lines of a map, followed by any text, yields
/// the lines and then the split of the rest.
pub proof fn lemma_split_lines_text(m: Seq<MapEntry>, i: int, s: Seq<char>)
    requires
        map_serializable(m),
        0 <= i <= m.len(),
    ensures
        split_char_spec(lines_text(m, i) + s, '\n') =~= lines_of_map(m).skip(i) + split_char_spec(
            s,
            '\n',
        ),
    decreases m.len() - i,
{
    reveal_strlit("\n");
    assert("\n"@ =~= seq!['\n']);
    if i >= m.len() {
        assert(lines_text(m, i) + s =~= s);
        assert(lines_of_map(m).skip(i) =~= Seq::<Seq<char>>::empty());
    } else {
        lemma_split_lines_text(m, i + 1, s);
        let line = line_of_entry(m[i]);
        assert(lines_text(m, i) + s =~= line + seq!['\n'] + (lines_text(m, i + 1) + s));
        lemma_split_concat(line, lines_text(m, i + 1) + s, '\n');
        assert(!has_char(line, '\n')) by {
            lemma_line_no_newline(m[i]);
        }
        lemma_split_no_sep(line, '\n');
        assert(split_char_spec(line + seq!['\n'] + (lines_text(m, i + 1) + s), '\n') =~= seq![line]
            + (lines_of_map(m).skip(i + 1) + split_char_spec(s, '\n')));
        assert(seq![line] + (lines_of_map(m).skip(i + 1) + split_char_spec(s, '\n'))
            =~= lines_of_map(m).skip(i) + split_char_spec(s, '\n'));
    }
}

/// A serialized property line contains no newline.
pub proof fn lemma_line_no_newline(e: MapEntry)
    requires
        entry_serializable(e),
    ensures
        !has_char(line_of_entry(e), '\n'),
{
    reveal_strlit(";");
    reveal_strlit("=");
    assert(";"@ =~= seq![';']);
    assert("="@ =~= seq!['=']);
    let l = line_of_entry(e);
    lemma_join_no_char(e.1, ";"@, 0, '\n');
    let joined = join_spec(e.1, ";"@);
    assert forall|t: int| 0 <= t < l.len() implies l[t] != '\n' by {
        if t < e.0.len() {
            assert(l[t] == e.0[t]);
        } else if t == e.0.len() {
            assert(l[t] == '=');
        } else if t < e.0.len() + 1 + joined.len() {
            assert(l[t] == joined[t - e.0.len() - 1]);
        } else {
            assert(l[t] == ';');
        }
    }
}

/// In a well-formed map the keys are pairwise distinct.
pub proof fn lemma_wf_keys_distinct(m: Seq<MapEntry>)
    requires
        map_wf(m),
    ensures
        forall|i: int, j: int| 0 <= i < j < m.len() ==> (#[trigger] m[i]).0 != (#[trigger] m[j]).0,
{
    assert forall|i: int, j: int| 0 <= i < j < m.len() implies (#[trigger] m[i]).0 != (
    #[trigger] m[j]).0 by {
        crate::mime_map::lemma_wf_sorted(m, i, j);
        crate::strutil::lemma_lex_lt_trichotomy(m[i].0, m[j].0);
    }
}

/// The serialized file splits into the added header, the added entries, a
/// blank line, the default header, the default entries, and a final blank.
pub proof fn lemma_split_serialize(a: Seq<MapEntry>, d: Seq<MapEntry>)
    requires
        map_serializable(a),
        map_serializable(d),
    ensures
        split_char_spec(serialize_spec(a, d), '\n') =~= seq!["[Added Associations]"@]
            + lines_of_map(a) + seq![Seq::<char>::empty(), "[Default Applications]"@]
            + lines_of_map(d) + seq![Seq::<char>::empty()],
{
    reveal_strlit("\n");
    reveal_strlit("[Added Associations]\n");
    reveal_strlit("[Added Associations]");
    reveal_strlit("\n[Default Applications]\n");
    reveal_strlit("[Default Applications]");
    let lit_a = "[Added Associations]"@;
    let lit_d = "[Default Applications]"@;
    let s = serialize_spec(a, d);
    assert("[Added Associations]\n"@ =~= lit_a + seq!['\n']);
    assert("\n[Default Applications]\n"@ =~= seq!['\n'] + (lit_d + seq!['\n']));
    let tail2 = lines_text(d, 0) + Seq::<char>::empty();
    let tail15 = lit_d + seq!['\n'] + tail2;
    let tail1 = Seq::<char>::empty() + seq!['\n'] + tail15;
    assert(s =~= lit_a + seq!['\n'] + (lines_text(a, 0) + tail1));
    assert(!has_char(lit_a, '\n')) by {
        assert forall|t: int| 0 <= t < lit_a.len() implies lit_a[t] != '\n' by {}
    }
    assert(!has_char(lit_d, '\n')) by {
        assert forall|t: int| 0 <= t < lit_d.len() implies lit_d[t] != '\n' by {}
    }
    lemma_split_concat(lit_a, lines_text(a, 0) + tail1, '\n');
    lemma_split_no_sep(lit_a, '\n');
    lemma_split_lines_text(a, 0, tail1);
    lemma_split_concat(Seq::empty(), tail15, '\n');
    assert(split_char_spec(Seq::<char>::empty(), '\n') =~= seq![Seq::<char>::empty()]);
    lemma_split_concat(lit_d, tail2, '\n');
    lemma_split_no_sep(lit_d, '\n');
    lemma_split_lines_text(d, 0, Seq::empty());
    assert(lines_of_map(a).skip(0) =~= lines_of_map(a));
    assert(lines_of_map(d).skip(0) =~= lines_of_map(d));
    assert(split_char_spec(s, '\n') =~= seq![lit_a] + (lines_of_map(a) + (seq![
        Seq::<char>::empty(),
    ] + (seq![lit_d] + (lines_of_map(d) + seq![Seq::<char>::empty()])))));
}

/// Parsing the serialized file recovers exactly the serialized maps: the
/// save/load round trip loses nothing and invents nothing.
pub proof fn lemma_save_load_round_trip(a: Seq<MapEntry>, d: Seq<MapEntry>)
    requires
        map_wf(a),
        map_wf(d),
        map_serializable(a),
        map_serializable(d),
    ensures
        ({
            let lns = split_char_spec(serialize_spec(a, d), '\n');
            match parse_fold(lns, lns.len() as int) {
                Some(st) => st.section == "Default Applications"@ && (forall|k: Seq<char>|
                    #[trigger] map_opt(st.added, k) == map_get(a, k)) && (forall|k: Seq<char>|
                    #[trigger] map_opt(st.default_apps, k) == map_get(d, k)),
                None => false,
            }
        }),
{
    reveal_strlit("[Added Associations]");
    reveal_strlit("[Default Applications]");
    reveal_strlit("Added Associations");
    reveal_strlit("Default Applications");
    let lit_a = "[Added Associations]"@;
    let lit_d = "[Default Applications]"@;
    let lns = split_char_spec(serialize_spec(a, d), '\n');
    lemma_split_serialize(a, d);
    lemma_parse_fold_is_fold_from(lns, lns.len() as int);
    let st0 = init_state();
    // the added-section header
    let r1 = lines_of_map(a) + seq![Seq::<char>::empty(), lit_d] + lines_of_map(d) + seq![
        Seq::<char>::empty(),
    ];
    assert(lns =~= seq![lit_a] + r1);
    lemma_fold_concat(st0, seq![lit_a], r1, r1.len() as int);
    assert(seq![lit_a][0] == lit_a);
    assert(lit_a.last() == ']');
    assert(strip_cr(lit_a) == lit_a);
    assert(lit_a[0] == '[');
    assert(section_name_of(lit_a) =~= "Added Associations"@);
    let st1 = ParseState {
        section: "Added Associations"@,
        added: st0.added,
        default_apps: st0.default_apps,
    };
    assert(parse_fold_from(st0, seq![lit_a], 0) == Some(st0));
    assert(parse_line_step(st0, lit_a) == Some(st1));
    assert(parse_fold_from(st0, seq![lit_a], 1) == Some(st1));
    // the added entries
    let r2 = seq![Seq::<char>::empty(), lit_d] + lines_of_map(d) + seq![Seq::<char>::empty()];
    assert(r1 =~= lines_of_map(a) + r2);
    lemma_fold_concat(st1, lines_of_map(a), r2, r2.len() as int);
    lemma_fold_map_lines(st1, a, a.len() as int);
    let st2 = ParseState { added: insert_all(st1.added, a, a.len() as int), ..st1 };
    assert(parse_fold_from(st1, lines_of_map(a), a.len() as int) == Some(st2));
    // the blank line between the sections
    let r3 = seq![lit_d] + lines_of_map(d) + seq![Seq::<char>::empty()];
    assert(r2 =~= seq![Seq::<char>::empty()] + r3);
    lemma_fold_concat(st2, seq![Seq::<char>::empty()], r3, r3.len() as int);
    assert(strip_cr(Seq::<char>::empty()).len() == 0);
    assert(parse_fold_from(st2, seq![Seq::<char>::empty()], 0) == Some(st2));
    assert(parse_line_step(st2, Seq::<char>::empty()) == Some(st2));
    assert(parse_fold_from(st2, seq![Seq::<char>::empty()], 1) == Some(st2));
    // the default-section header
    let r4 = lines_of_map(d) + seq![Seq::<char>::empty()];
    assert(r3 =~= seq![lit_d] + r4);
    lemma_fold_concat(st2, seq![lit_d], r4, r4.len() as int);
    assert(lit_d.last() == ']');
    assert(strip_cr(lit_d) == lit_d);
    assert(lit_d[0] == '[');
    assert(lit_d[0] != '#');
    assert(section_name_of(lit_d) =~= "Default Applications"@);
    let st3 = ParseState {
        section: "Default Applications"@,
        added: st2.added,
        default_apps: st2.default_apps,
    };
    assert(parse_fold_from(st2, seq![lit_d], 0) == Some(st2));
    assert(parse_line_step(st2, lit_d) == Some(st3));
    assert(parse_fold_from(st2, seq![lit_d], 1) == Some(st3));
    // the default entries
    assert(r4 =~= lines_of_map(d) + seq![Seq::<char>::empty()]);
    lemma_fold_concat(st3, lines_of_map(d), seq![Seq::<char>::empty()], 1);
    lemma_fold_map_lines(st3, d, d.len() as int);
    let st4 = ParseState { default_apps: insert_all(st3.default_apps, d, d.len() as int), ..st3 };
    assert(parse_fold_from(st3, lines_of_map(d), d.len() as int) == Some(st4));
    // the final blank line
    assert(parse_fold_from(st4, seq![Seq::<char>::empty()], 0) == Some(st4));
    assert(parse_line_step(st4, Seq::<char>::empty()) == Some(st4));
    assert(parse_fold_from(st4, seq![Seq::<char>::empty()], 1) == Some(st4));
    // chain the folds over the whole line list
    assert(lns.len() == 1 + r1.len());
    assert(r1.len() == lines_of_map(a).len() + r2.len());
    assert(r2.len() == 1 + r3.len());
    assert(r3.len() == 1 + r4.len());
    assert(r4.len() == lines_of_map(d).len() + 1);
    assert(parse_fold_from(st0, lns, lns.len() as int) == Some(st4));
    // the recovered maps look up as the serialized ones
    lemma_wf_keys_distinct(a);
    lemma_wf_keys_distinct(d);
    assert forall|k: Seq<char>| #[trigger] map_opt(st4.added, k) == map_get(a, k) by {
        lemma_insert_all_get(Map::empty(), a, a.len() as int, k);
        assert(a.take(a.len() as int) =~= a);
        lemma_map_get_key_index(a, k);
    }
    assert forall|k: Seq<char>| #[trigger] map_opt(st4.default_apps, k) == map_get(d, k) by {
        lemma_insert_all_get(Map::empty(), d, d.len() as int, k);
        assert(d.take(d.len() as int) =~= d);
        lemma_map_get_key_index(d, k);
    }
}

/// A well-formed MIME text can stand as a key of the override file: it is
/// non-empty, free of newlines and `=`, and opens neither a section nor a
/// comment.
pub proof fn lemma_valid_mime_key_serializable(s: Seq<char>)
    requires
        crate::mime_types::valid_mime(s),
    ensures
        s.len() > 0,
        !has_char(s, '\n'),
        !has_char(s, '='),
        s[0] != '[',
        s[0] != '#',
{
    lemma_find_char(s, '/');
    let i = find_char_spec(s, '/')->Some_0;
    assert forall|j: int| 0 <= j < s.len() implies s[j] != '\n' && s[j] != '=' by {
        if j == i {
            assert(s[j] == '/');
        } else {
            assert(crate::mime_types::mime_token_char(s[j]));
        }
    }
    assert(crate::mime_types::mime_token_char(s[0]));
}

/// Saving and loading preserves resolution: a configuration whose user
/// sections fit the file format resolves every MIME type to the same
/// handler after its serialized text is parsed back over the same system
/// catalog.
pub proof fn lemma_round_trip_resolves_alike(apps: MimeApps, loaded: MimeApps, mime: Seq<char>)
    requires
        map_wf(apps.added_associations@),
        map_wf(apps.default_apps@),
        map_serializable(apps.added_associations@),
        map_serializable(apps.default_apps@),
        ({
            // what `MimeApps::parse` of the serialized text guarantees
            let lns = split_char_spec(
                serialize_spec(apps.added_associations@, apps.default_apps@),
                '\n',
            );
            match parse_fold(lns, lns.len() as int) {
                Some(st) => (forall|k: Seq<char>|
                    #[trigger] map_get(loaded.added_associations@, k) == map_opt(st.added, k))
                    && (forall|k: Seq<char>|
                    #[trigger] map_get(loaded.default_apps@, k) == map_opt(st.default_apps, k)),
                None => false,
            }
        }),
        loaded.system_apps.0@ == apps.system_apps.0@,
    ensures
        loaded.resolve_spec(mime) == apps.resolve_spec(mime),
{
    lemma_save_load_round_trip(apps.added_associations@, apps.default_apps@);
    assert forall|k: Seq<char>| #[trigger] map_get(loaded.added_associations@, k) == map_get(
        apps.added_associations@,
        k,
    ) by {}
    assert forall|k: Seq<char>| #[trigger] map_get(loaded.default_apps@, k) == map_get(
        apps.default_apps@,
        k,
    ) by {}
    lemma_equal_maps_resolve_alike(apps, loaded, mime);
}

/// Two configurations whose maps look up identically resolve every MIME
/// type identically: with the round trip above, a saved and reloaded
/// configuration returns the same handler for every MIME type.
pub proof fn lemma_equal_maps_resolve_alike(apps: MimeApps, loaded: MimeApps, mime: Seq<char>)
    requires
        forall|k: Seq<char>|
            #[trigger] map_get(loaded.added_associations@, k) == map_get(
                apps.added_associations@,
                k,
            ),
        forall|k: Seq<char>|
            #[trigger] map_get(loaded.default_apps@, k) == map_get(apps.default_apps@, k),
        loaded.system_apps.0@ == apps.system_apps.0@,
    ensures
        loaded.resolve_spec(mime) == apps.resolve_spec(mime),
{
}

/// Folding the serialized lines of a map inserts exactly its entries into
/// the current recognized section.
pub proof fn lemma_fold_map_lines(st: ParseState, m: Seq<MapEntry>, n: int)
    requires
        map_wf(m),
        map_serializable(m),
        0 <= n <= m.len(),
        st.section == "Added Associations"@ || st.section == "Default Applications"@,
    ensures
        parse_fold_from(st, lines_of_map(m), n) == Some(
            if st.section == "Added Associations"@ {
                ParseState { added: insert_all(st.added, m, n), ..st }
            } else {
                ParseState { default_apps: insert_all(st.default_apps, m, n), ..st }
            },
        ),
    decreases n,
{
    if n > 0 {
        lemma_fold_map_lines(st, m, n - 1);
        assert(lines_of_map(m)[n - 1] == line_of_entry(m[n - 1]));
        let mid = if st.section == "Added Associations"@ {
            ParseState { added: insert_all(st.added, m, n - 1), ..st }
        } else {
            ParseState { default_apps: insert_all(st.default_apps, m, n - 1), ..st }
        };
        assert(mid.section == st.section);
        lemma_property_line_step(mid, m[n - 1]);
    }
}

} // verus!
