//! The user's MIME associations: the two override sections of the user
//! file, the layered resolution over them and the system catalog, and the
//! parser and serializer of the file format.
//!
//! Concurrent invocations race on the override file with last-writer-wins;
//! the file takes no lock. This is an accepted limitation of the format.

use vstd::prelude::*;

use crate::error::Error;
use crate::handler::Handler;
use crate::mime_map::{
    distinct_seq, lemma_map_get_key_index, map_get, map_wf, MapEntry, MimeMap,
};
use crate::mime_types::Mime;
use crate::apps::system::SystemApps;
use crate::strutil::{
    dedup_spec, dedup_strings, find_char, find_char_spec, join_spec, join_strs, keep_nonempty,
    keep_nonempty_spec, lemma_find_char, split_char_spec, split_str, str_eq,
};

verus! {

/// The MIME type one tier up from `m`: the type-level wildcard, `type/*`.
pub open spec fn wildcard_of(m: Seq<char>) -> Seq<char> {
    match find_char_spec(m, '/') {
        Some(i) => m.take(i) + "/*"@,
        None => m + "/*"@,
    }
}

/// Builds the type-level wildcard text of a MIME text.
pub fn wildcard_text(m: &str) -> (r: String)
    ensures
        r@ == wildcard_of(m@),
{
    match find_char(m, '/') {
        Some(i) => {
            proof {
                lemma_find_char(m@, '/');
                assert(m@.subrange(0, i as int) =~= m@.take(i as int));
            }
            m.substring_char(0, i).to_owned().concat("/*")
        },
        None => m.to_owned().concat("/*"),
    }
}

/// The user's associations and the system catalog behind them.
#[derive(Debug)]
pub struct MimeApps {
    /// The `[Added Associations]` section: secondary, non-default lists.
    pub added_associations: MimeMap,
    /// The `[Default Applications]` section: the active defaults.
    pub default_apps: MimeMap,
    /// The catalog of installed descriptors.
    pub system_apps: SystemApps,
}

impl MimeApps {
    /// All three maps well-formed.
    pub open spec fn wf(&self) -> bool {
        map_wf(self.added_associations@) && map_wf(self.default_apps@) && map_wf(
            self.system_apps.0@,
        )
    }

    /// The resolved handler for a MIME text, by the layered precedence:
    /// exact user default, type-level wildcard user default, exact added
    /// association, system catalog default.
    pub open spec fn resolve_spec(&self, mime: Seq<char>) -> Option<Seq<char>> {
        match map_get(self.default_apps@, mime) {
            Some(hs) => Some(hs[0]),
            None => match map_get(self.default_apps@, wildcard_of(mime)) {
                Some(hs) => Some(hs[0]),
                None => match map_get(self.added_associations@, mime) {
                    Some(hs) => Some(hs[0]),
                    None => match map_get(self.system_apps.0@, mime) {
                        Some(hs) => Some(hs[0]),
                        None => None,
                    },
                },
            },
        }
    }

    /// An empty configuration over the given catalog.
    pub fn new(system_apps: SystemApps) -> (r: MimeApps)
        ensures
            r.added_associations@ =~= Seq::<MapEntry>::empty(),
            r.default_apps@ =~= Seq::<MapEntry>::empty(),
            r.system_apps.0@ == system_apps.0@,
            map_wf(system_apps.0@) ==> r.wf(),
    {
        MimeApps { added_associations: MimeMap::new(), default_apps: MimeMap::new(), system_apps }
    }

    /// Appends a handler to the default list of `mime`, keeping existing
    /// alternates; the newest entry is the least preferred. Appending a
    /// handler already on the list leaves the list unchanged.
    pub fn add_handler(&mut self, mime: Mime, handler: Handler)
        requires
            old(self).wf(),
        ensures
            final(self).wf(),
            map_get(final(self).default_apps@, mime@) == Some(
                match map_get(old(self).default_apps@, mime@) {
                    Some(v) => if v.contains(handler@) {
                        v
                    } else {
                        v.push(handler@)
                    },
                    None => seq![handler@],
                },
            ),
            forall|k2: Seq<char>|
                k2 != mime@ ==> #[trigger] map_get(final(self).default_apps@, k2) == map_get(
                    old(self).default_apps@,
                    k2,
                ),
            final(self).added_associations@ == old(self).added_associations@,
            final(self).system_apps.0@ == old(self).system_apps.0@,
    {
        self.default_apps.push_handler(&mime, handler);
    }

    /// Replaces the whole default list of `mime` with the single given
    /// handler, discarding prior alternates.
    pub fn set_handler(&mut self, mime: Mime, handler: Handler)
        requires
            old(self).wf(),
        ensures
            final(self).wf(),
            map_get(final(self).default_apps@, mime@) == Some(seq![handler@]),
            forall|k2: Seq<char>|
                k2 != mime@ ==> #[trigger] map_get(final(self).default_apps@, k2) == map_get(
                    old(self).default_apps@,
                    k2,
                ),
            final(self).added_associations@ == old(self).added_associations@,
            final(self).system_apps.0@ == old(self).system_apps.0@,
    {
        let ghost hv = handler@;
        let mut v: Vec<Handler> = Vec::new();
        v.push(handler);
        proof {
            assert(v.deep_view() =~= seq![hv]);
        }
        self.default_apps.set_list(mime, v);
    }

    /// Deletes the default list of `mime`; deleting an absent key is a
    /// no-op reporting `false`.
    pub fn remove_handler(&mut self, mime: &Mime) -> (r: bool)
        requires
            old(self).wf(),
        ensures
            final(self).wf(),
            r == (map_get(old(self).default_apps@, mime@) is Some),
            map_get(final(self).default_apps@, mime@) is None,
            forall|k2: Seq<char>|
                k2 != mime@ ==> #[trigger] map_get(final(self).default_apps@, k2) == map_get(
                    old(self).default_apps@,
                    k2,
                ),
            final(self).added_associations@ == old(self).added_associations@,
            final(self).system_apps.0@ == old(self).system_apps.0@,
    {
        self.default_apps.remove_key(mime.0.as_str())
    }

    /// Drops every handler whose identifier is not in `valid`, in both
    /// user sections — one uninstalled identifier must not invalidate the
    /// rest of its list — and deletes keys whose lists empty out.
    pub fn retain_handlers(&mut self, valid: &Vec<String>)
        requires
            old(self).wf(),
        ensures
            final(self).wf(),
            forall|k: Seq<char>|
                #[trigger] map_get(final(self).added_associations@, k) == (match map_get(
                    old(self).added_associations@,
                    k,
                ) {
                    Some(hs) => crate::apps::system::opt_of(
                        crate::mime_map::keep_named(hs, valid.deep_view()),
                    ),
                    None => None,
                }),
            forall|k: Seq<char>|
                #[trigger] map_get(final(self).default_apps@, k) == (match map_get(
                    old(self).default_apps@,
                    k,
                ) {
                    Some(hs) => crate::apps::system::opt_of(
                        crate::mime_map::keep_named(hs, valid.deep_view()),
                    ),
                    None => None,
                }),
            final(self).system_apps.0@ == old(self).system_apps.0@,
    {
        self.added_associations.retain_names(valid);
        self.default_apps.retain_names(valid);
    }

    /// Resolves the handler for `mime` by the layered precedence, taking
    /// the first entry of the first tier that matches. Interactive
    /// selection between alternates is the caller's concern; see
    /// [`Self::selection_candidates`].
    pub fn get_handler(&self, mime: &Mime) -> (r: Result<Handler, Error>)
        requires
            self.wf(),
        ensures
            match r {
                Ok(h) => self.resolve_spec(mime@) == Some(h@),
                Err(e) => self.resolve_spec(mime@) is None && (e matches Error::NotFound(t) && t@
                    == mime@),
            },
    {
        match self.default_apps.get_list(mime.0.as_str()) {
            Some(hs) => {
                proof {
                    lemma_map_get_key_index(self.default_apps@, mime@);
                }
                Ok(hs[0].clone())
            },
            None => {
                let wild = wildcard_text(mime.0.as_str());
                match self.default_apps.get_list(wild.as_str()) {
                    Some(hs) => {
                        proof {
                            lemma_map_get_key_index(self.default_apps@, wild@);
                        }
                        Ok(hs[0].clone())
                    },
                    None => match self.added_associations.get_list(mime.0.as_str()) {
                        Some(hs) => {
                            proof {
                                lemma_map_get_key_index(self.added_associations@, mime@);
                            }
                            Ok(hs[0].clone())
                        },
                        None => match self.system_apps.0.get_list(mime.0.as_str()) {
                            Some(hs) => {
                                proof {
                                    lemma_map_get_key_index(self.system_apps.0@, mime@);
                                }
                                Ok(hs[0].clone())
                            },
                            None => Err(Error::NotFound(mime.0.clone())),
                        },
                    },
                }
            },
        }
    }

    /// The user default list that resolution would consult for `mime` (the
    /// exact list, else the wildcard list), when it holds more than one
    /// entry — the case in which an interactive selector may pick among
    /// the alternates. Single-entry tiers and lower tiers never select.
    pub fn selection_candidates(&self, mime: &Mime) -> (r: Option<Vec<Handler>>)
        requires
            self.wf(),
        ensures
            match r {
                Some(v) => v.deep_view().len() > 1 && (match map_get(
                    self.default_apps@,
                    mime@,
                ) {
                    Some(hs) => v.deep_view() == hs,
                    None => map_get(self.default_apps@, wildcard_of(mime@)) == Some(
                        v.deep_view(),
                    ),
                }),
                None => (match map_get(self.default_apps@, mime@) {
                    Some(hs) => hs.len() <= 1,
                    None => match map_get(self.default_apps@, wildcard_of(mime@)) {
                        Some(hs) => hs.len() <= 1,
                        None => true,
                    },
                }),
            },
    {
        match self.default_apps.get_list(mime.0.as_str()) {
            Some(hs) => {
                if hs.len() > 1 {
                    Some(clone_handlers(hs))
                } else {
                    None
                }
            },
            None => {
                let wild = wildcard_text(mime.0.as_str());
                match self.default_apps.get_list(wild.as_str()) {
                    Some(hs) => {
                        if hs.len() > 1 {
                            Some(clone_handlers(hs))
                        } else {
                            None
                        }
                    },
                    None => None,
                }
            },
        }
    }
}

/// A copy of a handler list, views preserved.
pub fn clone_handlers(v: &Vec<Handler>) -> (r: Vec<Handler>)
    ensures
        r.deep_view() == v.deep_view(),
{
    let n = v.len();
    let mut out: Vec<Handler> = Vec::new();
    let mut i: usize = 0;
    while i < n
        invariant
            n == v.len(),
            0 <= i <= n,
            out.deep_view() =~= v.deep_view().take(i as int),
        decreases n - i,
    {
        let ghost pre = out.deep_view();
        out.push(v[i].clone());
        proof {
            assert(out.deep_view() =~= pre.push(v@[i as int]@));
            assert(out.deep_view() =~= v.deep_view().take(i as int + 1));
        }
        i = i + 1;
    }
    proof {
        assert(v.deep_view().take(n as int) =~= v.deep_view());
    }
    out
}

/// One serialized property line: `mime=handler1;handler2;`.
pub open spec fn line_of_entry(e: MapEntry) -> Seq<char> {
    e.0 + "="@ + join_spec(e.1, ";"@) + ";"@
}

/// The property lines of a map from entry `i` on, each ended by a newline.
pub open spec fn lines_text(m: Seq<MapEntry>, i: int) -> Seq<char>
    decreases m.len() - i,
{
    if i < 0 || i >= m.len() {
        Seq::empty()
    } else {
        line_of_entry(m[i]) + "\n"@ + lines_text(m, i + 1)
    }
}

/// The serialized override file: both section headers always written,
/// entries in key order, every handler list `;`-terminated.
pub open spec fn serialize_spec(added: Seq<MapEntry>, default: Seq<MapEntry>) -> Seq<char> {
    "[Added Associations]\n"@ + lines_text(added, 0) + "\n[Default Applications]\n"@ + lines_text(
        default,
        0,
    )
}

/// The names of the handlers of a list, views preserved.
fn handler_names(v: &Vec<Handler>) -> (r: Vec<String>)
    ensures
        r.deep_view() == v.deep_view(),
{
    let n = v.len();
    let mut out: Vec<String> = Vec::new();
    let mut i: usize = 0;
    while i < n
        invariant
            n == v.len(),
            0 <= i <= n,
            out.deep_view() =~= v.deep_view().take(i as int),
        decreases n - i,
    {
        let ghost pre = out.deep_view();
        out.push(v[i].name().clone());
        proof {
            assert(out.deep_view() =~= pre.push(v@[i as int]@));
            assert(out.deep_view() =~= v.deep_view().take(i as int + 1));
        }
        i = i + 1;
    }
    proof {
        assert(v.deep_view().take(n as int) =~= v.deep_view());
    }
    out
}

/// Appends every property line of `m` to `acc`.
fn append_map_lines(acc: &mut String, m: &MimeMap)
    ensures
        final(acc)@ == old(acc)@ + lines_text(m@, 0),
{
    let n = m.entries.len();
    let ghost target = old(acc)@ + lines_text(m@, 0);
    let mut i: usize = 0;
    proof {
        assert(m@.len() == n);
    }
    while i < n
        invariant
            n == m.entries@.len(),
            n == m@.len(),
            0 <= i <= n,
            target == old(acc)@ + lines_text(m@, 0),
            acc@ + lines_text(m@, i as int) == target,
        decreases n - i,
    {
        let ghost before = acc@;
        let names = handler_names(&m.entries[i].1);
        let joined = join_strs(&names, ";");
        acc.append(m.entries[i].0.0.as_str());
        acc.append("=");
        acc.append(joined.as_str());
        acc.append(";");
        acc.append("\n");
        proof {
            assert(m@[i as int].0 == m.entries@[i as int].0@);
            assert(m@[i as int].1 == m.entries@[i as int].1.deep_view());
            assert(joined@ == join_spec(m@[i as int].1, ";"@));
            assert(acc@ =~= before + line_of_entry(m@[i as int]) + "\n"@);
            assert(lines_text(m@, i as int) == line_of_entry(m@[i as int]) + "\n"@ + lines_text(
                m@,
                i as int + 1,
            ));
            assert(acc@ + lines_text(m@, i as int + 1) =~= before + lines_text(m@, i as int));
        }
        i = i + 1;
    }
    proof {
        assert(lines_text(m@, n as int) =~= Seq::<char>::empty());
        assert(acc@ + Seq::<char>::empty() =~= acc@);
    }
}

/// The parser state: the current section and the two accumulated sections
/// as key-to-list maps.
pub struct ParseState {
    /// The name of the section the parser is inside.
    pub section: Seq<char>,
    /// Entries of `[Added Associations]` read so far.
    pub added: Map<Seq<char>, Seq<Seq<char>>>,
    /// Entries of `[Default Applications]` read so far.
    pub default_apps: Map<Seq<char>, Seq<Seq<char>>>,
}

/// A line with a trailing carriage return removed.
pub open spec fn strip_cr(l: Seq<char>) -> Seq<char> {
    if l.len() > 0 && l.last() == '\r' {
        l.drop_last()
    } else {
        l
    }
}

/// The handler identifiers of a property value: split at `;`, empty
/// segments dropped, later duplicates dropped.
pub open spec fn handlers_of_value(v: Seq<char>) -> Seq<Seq<char>> {
    dedup_spec(keep_nonempty_spec(split_char_spec(v, ';')))
}

/// True for a `[section]` header line.
pub open spec fn is_section_line(l: Seq<char>) -> bool {
    l.len() >= 2 && l[0] == '[' && l.last() == ']'
}

/// The name between the brackets of a section header line.
pub open spec fn section_name_of(l: Seq<char>) -> Seq<char> {
    l.subrange(1, l.len() - 1)
}

/// One line applied to the parser state.
///
/// Blank lines and `#` comments are skipped; a section header switches the
/// section; a `key=value` property inside a recognized section is recorded
/// (later lines for the same key win), with lines whose handler list
/// filters to nothing omitted; unrecognized sections are ignored; any
/// other line is malformed and fails the parse.
pub open spec fn parse_line_step(st: ParseState, raw: Seq<char>) -> Option<ParseState> {
    let l = strip_cr(raw);
    if l.len() == 0 {
        Some(st)
    } else if l[0] == '#' {
        Some(st)
    } else if is_section_line(l) {
        Some(ParseState { section: section_name_of(l), ..st })
    } else {
        match find_char_spec(l, '=') {
            Some(i) => if i >= 1 {
                let key = l.take(i);
                let hs = handlers_of_value(l.skip(i + 1));
                if hs.len() == 0 {
                    Some(st)
                } else if st.section == "Added Associations"@ {
                    Some(ParseState { added: st.added.insert(key, hs), ..st })
                } else if st.section == "Default Applications"@ {
                    Some(ParseState { default_apps: st.default_apps.insert(key, hs), ..st })
                } else {
                    Some(st)
                }
            } else {
                None
            },
            None => None,
        }
    }
}

/// The state after the first `n` lines, or `None` once a line is
/// malformed.
pub open spec fn parse_fold(lines: Seq<Seq<char>>, n: int) -> Option<ParseState>
    decreases n,
{
    if n <= 0 {
        Some(
            ParseState {
                section: Seq::empty(),
                added: Map::empty(),
                default_apps: Map::empty(),
            },
        )
    } else {
        match parse_fold(lines, n - 1) {
            None => None,
            Some(st) => parse_line_step(st, lines[n - 1]),
        }
    }
}

/// A failed fold stays failed as more lines are taken.
pub proof fn lemma_parse_fold_none_persists(lines: Seq<Seq<char>>, i: int, n: int)
    requires
        0 <= i <= n,
        parse_fold(lines, i) is None,
    ensures
        parse_fold(lines, n) is None,
    decreases n - i,
{
    if n > i {
        lemma_parse_fold_none_persists(lines, i, n - 1);
    }
}

/// A lookup in a partial map, as an option.
pub open spec fn map_opt(m: Map<Seq<char>, Seq<Seq<char>>>, k: Seq<char>) -> Option<
    Seq<Seq<char>>,
> {
    if m.contains_key(k) {
        Some(m[k])
    } else {
        None
    }
}

/// Turns identifier texts into handlers, views preserved.
fn names_to_handlers(names: &Vec<String>) -> (r: Vec<Handler>)
    ensures
        r.deep_view() == names.deep_view(),
{
    let n = names.len();
    let mut out: Vec<Handler> = Vec::new();
    let mut i: usize = 0;
    while i < n
        invariant
            n == names.len(),
            0 <= i <= n,
            out.deep_view() =~= names.deep_view().take(i as int),
        decreases n - i,
    {
        let ghost pre = out.deep_view();
        out.push(Handler::assume_valid(names[i].clone()));
        proof {
            assert(out.deep_view() =~= pre.push(names@[i as int]@));
            assert(out.deep_view() =~= names.deep_view().take(i as int + 1));
        }
        i = i + 1;
    }
    proof {
        assert(names.deep_view().take(n as int) =~= names.deep_view());
    }
    out
}

impl MimeApps {
    /// Serializes the two user sections in the override file format.
    pub fn serialize(&self) -> (r: String)
        ensures
            r@ == serialize_spec(self.added_associations@, self.default_apps@),
    {
        let mut acc = String::from_str("[Added Associations]\n");
        append_map_lines(&mut acc, &self.added_associations);
        acc.append("\n[Default Applications]\n");
        append_map_lines(&mut acc, &self.default_apps);
        proof {
            assert(acc@ =~= serialize_spec(self.added_associations@, self.default_apps@));
        }
        acc
    }

    /// Parses the override file text over the given system catalog.
    ///
    /// Individual handlers are kept as written; a caller that wants only
    /// identifiers resolvable on disk filters them afterwards with
    /// [`Self::retain_handlers`]. A malformed line fails the whole parse:
    /// the file itself is the user's intent and is not silently dropped.
    pub fn parse(content: &str, system_apps: SystemApps) -> (r: Result<MimeApps, Error>)
        requires
            map_wf(system_apps.0@),
        ensures
            ({
                let lns = split_char_spec(content@, '\n');
                match parse_fold(lns, lns.len() as int) {
                    Some(st) => r matches Ok(apps) && apps.wf() && apps.system_apps.0@
                        == system_apps.0@ && (forall|k: Seq<char>|
                        #[trigger] map_get(apps.added_associations@, k) == map_opt(st.added, k))
                        && (forall|k: Seq<char>|
                        #[trigger] map_get(apps.default_apps@, k) == map_opt(st.default_apps, k)),
                    None => r matches Err(e) && e matches Error::ParseApps(_),
                }
            }),
    {
        let ghost sys0 = system_apps.0@;
        let lines = split_str(content, '\n');
        let ghost lns = lines.deep_view();
        let n = lines.len();
        let mut apps = MimeApps::new(system_apps);
        let mut section = String::new();
        let ghost mut gadded: Map<Seq<char>, Seq<Seq<char>>> = Map::empty();
        let ghost mut gdefault: Map<Seq<char>, Seq<Seq<char>>> = Map::empty();
        let mut i: usize = 0;
        proof {
            assert(map_get(apps.added_associations@, arbitrary::<Seq<char>>()) is None);
        }
        while i < n
            invariant
                n == lines.len(),
                lns == lines.deep_view(),
                lns == split_char_spec(content@, '\n'),
                0 <= i <= n,
                parse_fold(lns, i as int) == Some(
                    ParseState { section: section@, added: gadded, default_apps: gdefault },
                ),
                forall|k: Seq<char>|
                    #[trigger] map_get(apps.added_associations@, k) == map_opt(gadded, k),
                forall|k: Seq<char>|
                    #[trigger] map_get(apps.default_apps@, k) == map_opt(gdefault, k),
                apps.wf(),
                apps.system_apps.0@ == sys0,
            decreases n - i,
        {
            let ghost st = ParseState { section: section@, added: gadded, default_apps: gdefault };
            let ghost raw = lns[i as int];
            let line = &lines[i];
            let ln = line.as_str().unicode_len();
            proof {
                assert(line@ == raw);
            }
            // strip one trailing carriage return
            let mut endpos = ln;
            if ln > 0 {
                if line.as_str().get_char(ln - 1) == '\r' {
                    endpos = ln - 1;
                }
            }
            let lt: &str = line.as_str().substring_char(0, endpos);
            proof {
                if endpos < ln {
                    assert(lt@ =~= strip_cr(raw));
                } else {
                    assert(lt@ =~= raw);
                    assert(lt@ =~= strip_cr(raw));
                }
            }
            let lw = lt.unicode_len();
            if lw == 0 {
                // blank line
                proof {
                    assert(parse_line_step(st, raw) == Some(st));
                }
            } else if lt.get_char(0) == '#' {
                // comment
                proof {
                    assert(parse_line_step(st, raw) == Some(st));
                }
            } else if lw >= 2 && lt.get_char(0) == '[' && lt.get_char(lw - 1) == ']' {
                // section header
                section = lt.substring_char(1, lw - 1).to_owned();
                proof {
                    assert(section@ =~= section_name_of(strip_cr(raw)));
                    assert(is_section_line(strip_cr(raw)));
                    assert(parse_line_step(st, raw) == Some(
                        ParseState { section: section@, added: gadded, default_apps: gdefault },
                    ));
                }
            } else {
                match find_char(lt, '=') {
                    Some(eq) if eq >= 1 => {
                        proof {
                            lemma_find_char(lt@, '=');
                        }
                        let key = lt.substring_char(0, eq).to_owned();
                        let value = lt.substring_char(eq + 1, lw);
                        proof {
                            assert(key@ =~= strip_cr(raw).take(eq as int));
                            assert(value@ =~= strip_cr(raw).skip(eq as int + 1));
                        }
                        let parts = split_str(value, ';');
                        let nonempty = keep_nonempty(&parts);
                        let names = dedup_strings(&nonempty);
                        let ghost hs = handlers_of_value(strip_cr(raw).skip(eq as int + 1));
                        proof {
                            assert(names.deep_view() == hs);
                        }
                        if names.len() == 0 {
                            proof {
                                assert(parse_line_step(st, raw) == Some(st));
                            }
                        } else {
                            let handlers = names_to_handlers(&names);
                            proof {
                                crate::strutil::lemma_dedup_is_distinct(
                                    keep_nonempty_spec(split_char_spec(value@, ';')),
                                );
                                assert(distinct_seq(handlers.deep_view()));
                            }
                            if str_eq(section.as_str(), "Added Associations") {
                                apps.added_associations.set_list(Mime(key), handlers);
                                proof {
                                    gadded = gadded.insert(strip_cr(raw).take(eq as int), hs);
                                    assert(parse_line_step(st, raw) == Some(
                                        ParseState {
                                            section: section@,
                                            added: gadded,
                                            default_apps: gdefault,
                                        },
                                    ));
                                }
                            } else if str_eq(section.as_str(), "Default Applications") {
                                apps.default_apps.set_list(Mime(key), handlers);
                                proof {
                                    gdefault = gdefault.insert(strip_cr(raw).take(eq as int), hs);
                                    assert(parse_line_step(st, raw) == Some(
                                        ParseState {
                                            section: section@,
                                            added: gadded,
                                            default_apps: gdefault,
                                        },
                                    ));
                                }
                            } else {
                                proof {
                                    assert(parse_line_step(st, raw) == Some(st));
                                }
                            }
                        }
                    },
                    _ => {
                        proof {
                            assert(parse_line_step(st, raw) is None);
                            assert(parse_fold(lns, i as int + 1) is None);
                            lemma_parse_fold_none_persists(lns, i as int + 1, lns.len() as int);
                        }
                        return Err(Error::ParseApps(lt.to_owned()));
                    },
                }
            }
            i = i + 1;
        }
        Ok(apps)
    }
}

/// An exact default entry decides resolution by itself: no wildcard entry,
/// added association or system default can override it.
pub proof fn lemma_exact_overrides_wildcard(apps: MimeApps, mime: Seq<char>, hs: Seq<Seq<char>>)
    requires
        map_get(apps.default_apps@, mime) == Some(hs),
        hs.len() > 0,
    ensures
        apps.resolve_spec(mime) == Some(hs[0]),
{
}

/// Once a MIME's default list is gone, resolution falls through to the
/// wildcard, added-association and system tiers, and fails only when none
/// of them matches.
pub proof fn lemma_remove_falls_through(apps: MimeApps, mime: Seq<char>)
    requires
        map_get(apps.default_apps@, mime) is None,
    ensures
        (apps.resolve_spec(mime) is None) <==> (map_get(apps.default_apps@, wildcard_of(mime))
            is None && map_get(apps.added_associations@, mime) is None && map_get(
            apps.system_apps.0@,
            mime,
        ) is None),
{
}

} // verus!
