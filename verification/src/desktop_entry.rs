//! Desktop entry descriptors: parsing the `[Desktop Entry]` section of a
//! descriptor file, and turning its exec template into a concrete command
//! line with field-code substitution.

use vstd::prelude::*;

use crate::error::Error;
use crate::handler::Handler;
use crate::mime_types::Mime;
use crate::strutil::{
    dedup_spec, dedup_strings, find_char, find_char_spec, join_spec, join_strs, keep_nonempty,
    keep_nonempty_spec, lemma_find_char, split_char_spec, split_str, str_eq,
};
use crate::apps::user::strip_cr;

verus! {

/// How a handler is being invoked: `Launch` passes all arguments to one
/// invocation; `Open` runs single-file templates once per argument.
#[derive(Debug, Clone, Copy, PartialEq, Eq, Structural)]
pub enum Mode {
    /// All arguments in one invocation.
    Launch,
    /// One invocation per argument for single-file templates.
    Open,
}

/// The parsed content of one application descriptor.
#[derive(Debug)]
pub struct DesktopEntry {
    /// The display name (`Name`); first non-empty assignment wins.
    pub name: String,
    /// The exec template (`Exec`); the last assignment wins.
    pub exec_line: String,
    /// The descriptor's base file name, the handler identifier.
    pub file_name: String,
    /// Whether the application needs a terminal (`Terminal`).
    pub terminal: bool,
    /// The declared MIME types (`MimeType`), trailing empty element
    /// dropped.
    pub mimes: Vec<Mime>,
    /// The category tags (`Categories`), empty elements and duplicates
    /// dropped.
    pub categories: Vec<String>,
}

/// The mathematical content of a descriptor.
pub struct EntryView {
    /// Display name.
    pub name: Seq<char>,
    /// Exec template.
    pub exec_line: Seq<char>,
    /// Descriptor file name.
    pub file_name: Seq<char>,
    /// Terminal requirement.
    pub terminal: bool,
    /// Declared MIME type texts.
    pub mimes: Seq<Seq<char>>,
    /// Category tags.
    pub categories: Seq<Seq<char>>,
}

impl DeepView for DesktopEntry {
    type V = EntryView;

    open spec fn deep_view(&self) -> EntryView {
        self.view()
    }
}

impl View for DesktopEntry {
    type V = EntryView;

    open spec fn view(&self) -> EntryView {
        EntryView {
            name: self.name@,
            exec_line: self.exec_line@,
            file_name: self.file_name@,
            terminal: self.terminal,
            mimes: Seq::new(self.mimes@.len(), |i: int| self.mimes@[i]@),
            categories: self.categories.deep_view(),
        }
    }
}

/// A split MIME list with the trailing empty element (from the final `;`)
/// dropped.
pub open spec fn drop_trailing_empty(parts: Seq<Seq<char>>) -> Seq<Seq<char>> {
    if parts.len() > 0 && parts.last().len() == 0 {
        parts.drop_last()
    } else {
        parts
    }
}

/// The accumulating state of the descriptor parser.
pub struct EntryAcc {
    /// The section the parser is inside.
    pub section: Seq<char>,
    /// Display name read so far.
    pub name: Seq<char>,
    /// Exec template read so far.
    pub exec_line: Seq<char>,
    /// Terminal flag read so far.
    pub terminal: bool,
    /// Declared MIME types read so far.
    pub mimes: Seq<Seq<char>>,
    /// Category tags read so far.
    pub categories: Seq<Seq<char>>,
}

/// One descriptor line applied to the parser state.
///
/// Only properties of the `[Desktop Entry]` section count: the first
/// non-empty `Name` wins, `Exec` and `Terminal` take the last value,
/// `MimeType` is a `;`-list with the trailing empty element dropped,
/// `Categories` a `;`-set. Anything else — comments, blank lines,
/// unrecognized keys and sections, malformed lines — is ignored.
pub open spec fn entry_line_step(st: EntryAcc, raw: Seq<char>) -> EntryAcc {
    let l = strip_cr(raw);
    if l.len() == 0 {
        st
    } else if l[0] == '#' {
        st
    } else if l.len() >= 2 && l[0] == '[' && l.last() == ']' {
        EntryAcc { section: l.subrange(1, l.len() - 1), ..st }
    } else if st.section == "Desktop Entry"@ {
        match find_char_spec(l, '=') {
            Some(i) => if i >= 1 {
                let key = l.take(i);
                let v = l.skip(i + 1);
                if key == "Name"@ && st.name.len() == 0 {
                    EntryAcc { name: v, ..st }
                } else if key == "Exec"@ {
                    EntryAcc { exec_line: v, ..st }
                } else if key == "Terminal"@ {
                    EntryAcc { terminal: v == "true"@, ..st }
                } else if key == "MimeType"@ {
                    EntryAcc { mimes: drop_trailing_empty(split_char_spec(v, ';')), ..st }
                } else if key == "Categories"@ {
                    EntryAcc {
                        categories: dedup_spec(keep_nonempty_spec(split_char_spec(v, ';'))),
                        ..st
                    }
                } else {
                    st
                }
            } else {
                st
            },
            None => st,
        }
    } else {
        st
    }
}

/// The parser state after the first `n` lines.
pub open spec fn entry_fold(lines: Seq<Seq<char>>, n: int) -> EntryAcc
    decreases n,
{
    if n <= 0 {
        EntryAcc {
            section: Seq::empty(),
            name: Seq::empty(),
            exec_line: Seq::empty(),
            terminal: false,
            mimes: Seq::empty(),
            categories: Seq::empty(),
        }
    } else {
        entry_line_step(entry_fold(lines, n - 1), lines[n - 1])
    }
}

/// Turns MIME texts into `Mime` values, views preserved.
fn names_to_mimes(names: &Vec<String>) -> (r: Vec<Mime>)
    ensures
        Seq::new(r@.len(), |i: int| r@[i]@) == names.deep_view(),
{
    let n = names.len();
    let mut out: Vec<Mime> = Vec::new();
    let mut i: usize = 0;
    while i < n
        invariant
            n == names.len(),
            0 <= i <= n,
            Seq::new(out@.len(), |t: int| out@[t]@) =~= names.deep_view().take(i as int),
        decreases n - i,
    {
        let ghost pre = Seq::new(out@.len(), |t: int| out@[t]@);
        out.push(Mime(names[i].clone()));
        proof {
            assert(Seq::new(out@.len(), |t: int| out@[t]@) =~= pre.push(names@[i as int]@));
            assert(names.deep_view()[i as int] == names@[i as int]@);
            assert(Seq::new(out@.len(), |t: int| out@[t]@) =~= names.deep_view().take(i as int + 1));
        }
        i = i + 1;
    }
    proof {
        assert(names.deep_view().take(n as int) =~= names.deep_view());
    }
    out
}

impl DesktopEntry {
    /// Parses one descriptor file.
    ///
    /// A descriptor without both a non-empty name and a non-empty exec
    /// template cannot be a valid handler and is rejected as malformed.
    pub fn parse(file_name: &str, content: &str) -> (r: Result<DesktopEntry, Error>)
        ensures
            ({
                let lns = split_char_spec(content@, '\n');
                let acc = entry_fold(lns, lns.len() as int);
                match r {
                    Ok(e) => acc.name.len() > 0 && acc.exec_line.len() > 0 && e@.name == acc.name
                        && e@.exec_line == acc.exec_line && e@.file_name == file_name@ && e@.terminal
                        == acc.terminal && e@.mimes == acc.mimes && e@.categories
                        == acc.categories,
                    Err(err) => (acc.name.len() == 0 || acc.exec_line.len() == 0) && (err
                        matches Error::BadEntry(p) && p@ == file_name@),
                }
            }),
    {
        let lines = split_str(content, '\n');
        let ghost lns = lines.deep_view();
        let n = lines.len();
        let mut section = String::new();
        let mut name = String::new();
        let mut exec_line = String::new();
        let mut terminal = false;
        let mut mimes: Vec<Mime> = Vec::new();
        let mut categories: Vec<String> = Vec::new();
        let mut i: usize = 0;
        proof {
            assert(Seq::new(mimes@.len(), |t: int| mimes@[t]@) =~= Seq::<Seq<char>>::empty());
            assert(categories.deep_view() =~= Seq::<Seq<char>>::empty());
        }
        while i < n
            invariant
                n == lines.len(),
                lns == lines.deep_view(),
                0 <= i <= n,
                entry_fold(lns, i as int) == (EntryAcc {
                    section: section@,
                    name: name@,
                    exec_line: exec_line@,
                    terminal: terminal,
                    mimes: Seq::new(mimes@.len(), |t: int| mimes@[t]@),
                    categories: categories.deep_view(),
                }),
            decreases n - i,
        {
            let ghost st = EntryAcc {
                section: section@,
                name: name@,
                exec_line: exec_line@,
                terminal: terminal,
                mimes: Seq::new(mimes@.len(), |t: int| mimes@[t]@),
                categories: categories.deep_view(),
            };
            let ghost raw = lns[i as int];
            let line = &lines[i];
            let ln = line.as_str().unicode_len();
            proof {
                assert(line@ == raw);
            }
            let mut endpos = ln;
            if ln > 0 {
                if line.as_str().get_char(ln - 1) == '\r' {
                    endpos = ln - 1;
                }
            }
            let lt: &str = line.as_str().substring_char(0, endpos);
            proof {
                if endpos < ln {
                    assert(lt@ =~= strip_cr(raw));
                } else {
                    assert(lt@ =~= raw);
                    assert(lt@ =~= strip_cr(raw));
                }
            }
            let lw = lt.unicode_len();
            if lw == 0 {
                proof {
                    assert(entry_line_step(st, raw) == st);
                }
            } else if lt.get_char(0) == '#' {
                proof {
                    assert(entry_line_step(st, raw) == st);
                }
            } else if lw >= 2 && lt.get_char(0) == '[' && lt.get_char(lw - 1) == ']' {
                section = lt.substring_char(1, lw - 1).to_owned();
                proof {
                    assert(section@ =~= strip_cr(raw).subrange(1, strip_cr(raw).len() - 1));
                }
            } else if str_eq(section.as_str(), "Desktop Entry") {
                match find_char(lt, '=') {
                    Some(eq) if eq >= 1 => {
                        proof {
                            lemma_find_char(lt@, '=');
                        }
                        let key = lt.substring_char(0, eq);
                        let value = lt.substring_char(eq + 1, lw);
                        proof {
                            assert(key@ =~= strip_cr(raw).take(eq as int));
                            assert(value@ =~= strip_cr(raw).skip(eq as int + 1));
                        }
                        if str_eq(key, "Name") && name.as_str().unicode_len() == 0 {
                            name = value.to_owned();
                        } else if str_eq(key, "Exec") {
                            exec_line = value.to_owned();
                        } else if str_eq(key, "Terminal") {
                            terminal = str_eq(value, "true");
                        } else if str_eq(key, "MimeType") {
                            let mut parts = split_str(value, ';');
                            let ghost partsv = parts.deep_view();
                            if parts.len() > 0 {
                                if parts[parts.len() - 1].as_str().unicode_len() == 0 {
                                    parts.pop();
                                    proof {
                                        assert(parts.deep_view() =~= partsv.drop_last());
                                    }
                                }
                            }
                            proof {
                                assert(parts.deep_view() =~= drop_trailing_empty(partsv));
                            }
                            mimes = names_to_mimes(&parts);
                        } else if str_eq(key, "Categories") {
                            let parts = split_str(value, ';');
                            let nonempty = keep_nonempty(&parts);
                            categories = dedup_strings(&nonempty);
                        }
                    },
                    _ => {
                        proof {
                            assert(entry_line_step(st, raw) == st);
                        }
                    },
                }
            } else {
                proof {
                    assert(entry_line_step(st, raw) == st);
                }
            }
            i = i + 1;
        }
        if name.as_str().unicode_len() > 0 && exec_line.as_str().unicode_len() > 0 {
            Ok(
                DesktopEntry {
                    name,
                    exec_line,
                    file_name: file_name.to_owned(),
                    terminal,
                    mimes,
                    categories,
                },
            )
        } else {
            Err(Error::BadEntry(file_name.to_owned()))
        }
    }

    /// The handler identifier of this descriptor.
    pub fn handler(&self) -> (r: Handler)
        ensures
            r@ == self@.file_name,
    {
        Handler::assume_valid(self.file_name.clone())
    }

    /// Builds the executable and argument vector from the exec template.
    ///
    /// The template is split into shell words; a word that is exactly one
    /// of the four field codes is replaced by the whole argument list, a
    /// word containing a field code has every code replaced by the
    /// arguments joined with a single space, and any other word passes
    /// through. An unsplittable template or one that expands to nothing is
    /// `BadCmd`.
    pub fn get_cmd(&self, args: &Vec<String>) -> (r: Result<(String, Vec<String>), Error>)
        ensures
            ({
                match shell_words_of(self.exec_line@) {
                    None => r matches Err(e) && e matches Error::BadCmd,
                    Some(toks) => {
                        let ex = expand_tokens(
                            toks,
                            args.deep_view(),
                            join_spec(args.deep_view(), " "@),
                        );
                        if ex.len() == 0 {
                            r matches Err(e) && e matches Error::BadCmd
                        } else {
                            r matches Ok(p) && p.0@ == ex[0] && p.1.deep_view() == ex.skip(1)
                        }
                    },
                }
            }),
    {
        match shlex_split(self.exec_line.as_str()) {
            None => Err(Error::BadCmd),
            Some(toks) => {
                let joined = join_strs(args, " ");
                let expanded = expand_exec(&toks, args, &joined);
                split_command(expanded)
            },
        }
    }

    /// The invocations that running this entry in the given mode performs:
    /// one batch invocation when the template takes multiple files or the
    /// mode is `Launch`, otherwise one single-argument invocation per
    /// argument, each independent of the others.
    pub fn exec_plan(&self, mode: Mode, args: &Vec<String>) -> (r: Vec<Vec<String>>)
        ensures
            args@.len() == 0 ==> r.deep_view() =~= seq![Seq::<Seq<char>>::empty()],
            args@.len() > 0 && (supports_multiple(self.exec_line@) || mode == Mode::Launch)
                ==> r.deep_view() =~= seq![args.deep_view()],
            args@.len() > 0 && !(supports_multiple(self.exec_line@) || mode == Mode::Launch) ==> (
            r.deep_view().len() == args@.len() && (forall|i: int|
                0 <= i < args@.len() ==> #[trigger] r.deep_view()[i] =~= seq![
                    args.deep_view()[i],
                ])),
    {
        let mut plan: Vec<Vec<String>> = Vec::new();
        if args.len() == 0 {
            let empty: Vec<String> = Vec::new();
            plan.push(empty);
            proof {
                assert(plan.deep_view() =~~= seq![Seq::<Seq<char>>::empty()]);
            }
        } else if contains_multi_code(self.exec_line.as_str()) || mode == Mode::Launch {
            plan.push(clone_strings(args));
            proof {
                assert(plan.deep_view() =~= seq![args.deep_view()]);
            }
        } else {
            let n = args.len();
            let mut i: usize = 0;
            while i < n
                invariant
                    n == args.len(),
                    0 <= i <= n,
                    plan.deep_view().len() == i,
                    forall|t: int|
                        0 <= t < i ==> #[trigger] plan.deep_view()[t] =~= seq![
                            args.deep_view()[t],
                        ],
                decreases n - i,
            {
                let mut one: Vec<String> = Vec::new();
                one.push(args[i].clone());
                proof {
                    assert(one.deep_view() =~= seq![args@[i as int]@]);
                }
                let ghost onev = one.deep_view();
                let ghost predeep = plan.deep_view();
                plan.push(one);
                proof {
                    assert(args.deep_view()[i as int] == args@[i as int]@);
                    assert(onev == seq![args.deep_view()[i as int]]);
                    assert(plan.deep_view() =~= predeep.push(onev));
                }
                i = i + 1;
            }
        }
        plan
    }
}

/// The words that shell-style splitting gives for a template text, when
/// the quoting is well-formed.
pub uninterp spec fn shell_words_of(s: Seq<char>) -> Option<Seq<Seq<char>>>;

/// Relies on shlex::split: POSIX-shell word splitting of the template,
/// honoring quotes and escapes, `None` on erroneous input. A function of
/// the text alone.
#[verifier::external_body]
fn shlex_split(s: &str) -> (r: Option<Vec<String>>)
    ensures
        match r {
            Some(v) => shell_words_of(s@) == Some(v.deep_view()),
            None => shell_words_of(s@) is None,
        },
{
    shlex::split(s)
}

/// True for the second character of a field code.
pub open spec fn field_code_char(c: char) -> bool {
    c == 'f' || c == 'F' || c == 'u' || c == 'U'
}

/// True when the token is exactly one of the four field codes.
pub open spec fn is_field_code(t: Seq<char>) -> bool {
    t.len() == 2 && t[0] == '%' && field_code_char(t[1])
}

/// True when a field code occurs anywhere in the token.
pub open spec fn token_has_code(t: Seq<char>) -> bool
    decreases t.len(),
{
    if t.len() < 2 {
        false
    } else if t[0] == '%' && field_code_char(t[1]) {
        true
    } else {
        token_has_code(t.skip(1))
    }
}

/// The token with every field code replaced by the joined arguments.
pub open spec fn subst_token(t: Seq<char>, joined: Seq<char>) -> Seq<char>
    decreases t.len(),
{
    if t.len() == 0 {
        t
    } else if t.len() >= 2 && t[0] == '%' && field_code_char(t[1]) {
        joined + subst_token(t.skip(2), joined)
    } else {
        seq![t[0]] + subst_token(t.skip(1), joined)
    }
}

/// The expansion of the template words against the argument list: an
/// exact field-code word splices in all arguments, a word containing a
/// code takes them joined by one space, and other words pass through.
pub open spec fn expand_tokens(
    toks: Seq<Seq<char>>,
    args: Seq<Seq<char>>,
    joined: Seq<char>,
) -> Seq<Seq<char>>
    decreases toks.len(),
{
    if toks.len() == 0 {
        Seq::empty()
    } else {
        let head = if is_field_code(toks[0]) {
            args
        } else if token_has_code(toks[0]) {
            seq![subst_token(toks[0], joined)]
        } else {
            seq![toks[0]]
        };
        head + expand_tokens(toks.skip(1), args, joined)
    }
}

/// True when the template takes multiple files or URLs (`%F` or `%U`).
pub open spec fn supports_multiple(s: Seq<char>) -> bool
    decreases s.len(),
{
    if s.len() < 2 {
        false
    } else if s[0] == '%' && (s[1] == 'F' || s[1] == 'U') {
        true
    } else {
        supports_multiple(s.skip(1))
    }
}

/// Checks for a multi-file field code, executable form.
fn contains_multi_code(s: &str) -> (r: bool)
    ensures
        r == supports_multiple(s@),
{
    let n = s.unicode_len();
    let mut i: usize = 0;
    proof {
        assert(s@.skip(0) =~= s@);
    }
    while 1 <= n && i < n - 1
        invariant
            n == s@.len(),
            0 <= i <= n,
            supports_multiple(s@) == supports_multiple(s@.skip(i as int)),
        decreases n - i,
    {
        proof {
            assert(s@.skip(i as int).len() == n - i);
            assert(s@.skip(i as int)[0] == s@[i as int]);
            assert(s@.skip(i as int)[1] == s@[i as int + 1]);
            assert(s@.skip(i as int).skip(1) =~= s@.skip(i as int + 1));
        }
        if s.get_char(i) == '%' {
            let c = s.get_char(i + 1);
            if c == 'F' || c == 'U' {
                return true;
            }
        }
        i = i + 1;
    }
    proof {
        assert(s@.skip(i as int).len() < 2);
    }
    false
}

/// A copy of a string list, views preserved.
pub fn clone_strings(v: &Vec<String>) -> (r: Vec<String>)
    ensures
        r.deep_view() == v.deep_view(),
{
    let n = v.len();
    let mut out: Vec<String> = Vec::new();
    let mut i: usize = 0;
    while i < n
        invariant
            n == v.len(),
            0 <= i <= n,
            out.deep_view() =~= v.deep_view().take(i as int),
        decreases n - i,
    {
        let ghost pre = out.deep_view();
        out.push(v[i].clone());
        proof {
            assert(out.deep_view() =~= pre.push(v@[i as int]@));
            assert(out.deep_view() =~= v.deep_view().take(i as int + 1));
        }
        i = i + 1;
    }
    proof {
        assert(v.deep_view().take(n as int) =~= v.deep_view());
    }
    out
}

/// Substitutes every field code of one token, executable form.
fn subst_text(t: &str, joined: &str) -> (r: String)
    ensures
        r@ == subst_token(t@, joined@),
{
    let n = t.unicode_len();
    let mut acc = String::new();
    let mut i: usize = 0;
    proof {
        assert(t@.skip(0) =~= t@);
        assert(acc@ + subst_token(t@, joined@) =~= subst_token(t@, joined@));
    }
    while i < n
        invariant
            n == t@.len(),
            0 <= i <= n,
            acc@ + subst_token(t@.skip(i as int), joined@) == subst_token(t@, joined@),
        decreases n - i,
    {
        let ghost tail = t@.skip(i as int);
        let ghost pre = acc@;
        proof {
            assert(tail.len() == n - i);
            assert(tail[0] == t@[i as int]);
            if tail.len() >= 2 {
                assert(tail[1] == t@[i as int + 1]);
            }
            assert(tail.skip(1) =~= t@.skip(i as int + 1));
        }
        let mut code = false;
        if t.get_char(i) == '%' && i + 1 < n {
            let c = t.get_char(i + 1);
            if c == 'f' || c == 'F' || c == 'u' || c == 'U' {
                code = true;
            }
        }
        if code {
            acc.append(joined);
            proof {
                assert(tail.skip(2) =~= t@.skip(i as int + 2));
                assert(subst_token(tail, joined@) == joined@ + subst_token(
                    t@.skip(i as int + 2),
                    joined@,
                ));
                assert(acc@ + subst_token(t@.skip(i as int + 2), joined@) =~= pre + subst_token(
                    tail,
                    joined@,
                ));
            }
            i = i + 2;
        } else {
            let piece = t.substring_char(i, i + 1);
            proof {
                assert(piece@ =~= seq![t@[i as int]]);
            }
            acc.append(piece);
            proof {
                assert(subst_token(tail, joined@) == seq![tail[0]] + subst_token(
                    tail.skip(1),
                    joined@,
                ));
                assert(acc@ + subst_token(t@.skip(i as int + 1), joined@) =~= pre + subst_token(
                    tail,
                    joined@,
                ));
            }
            i = i + 1;
        }
    }
    proof {
        assert(t@.skip(n as int).len() == 0);
        assert(subst_token(t@.skip(n as int), joined@) =~= Seq::<char>::empty());
        assert(acc@ + Seq::<char>::empty() =~= acc@);
    }
    acc
}

/// Checks a token for a field code, executable form.
fn token_has_code_exec(t: &str) -> (r: bool)
    ensures
        r == token_has_code(t@),
{
    let n = t.unicode_len();
    let mut i: usize = 0;
    proof {
        assert(t@.skip(0) =~= t@);
    }
    while 1 <= n && i < n - 1
        invariant
            n == t@.len(),
            0 <= i <= n,
            token_has_code(t@) == token_has_code(t@.skip(i as int)),
        decreases n - i,
    {
        proof {
            assert(t@.skip(i as int).len() == n - i);
            assert(t@.skip(i as int)[0] == t@[i as int]);
            assert(t@.skip(i as int)[1] == t@[i as int + 1]);
            assert(t@.skip(i as int).skip(1) =~= t@.skip(i as int + 1));
        }
        if t.get_char(i) == '%' {
            let c = t.get_char(i + 1);
            if c == 'f' || c == 'F' || c == 'u' || c == 'U' {
                return true;
            }
        }
        i = i + 1;
    }
    proof {
        assert(t@.skip(i as int).len() < 2);
    }
    false
}

/// Checks whether a token is exactly a field code, executable form.
fn is_field_code_exec(t: &str) -> (r: bool)
    ensures
        r == is_field_code(t@),
{
    let n = t.unicode_len();
    if n != 2 {
        return false;
    }
    if t.get_char(0) != '%' {
        return false;
    }
    let c = t.get_char(1);
    c == 'f' || c == 'F' || c == 'u' || c == 'U'
}

/// Expands every template word against the arguments, executable form.
fn expand_exec(toks: &Vec<String>, args: &Vec<String>, joined: &String) -> (r: Vec<String>)
    ensures
        r.deep_view() == expand_tokens(
            toks.deep_view(),
            args.deep_view(),
            joined@,
        ),
{
    let ghost tv = toks.deep_view();
    let ghost av = args.deep_view();
    let n = toks.len();
    let mut out: Vec<String> = Vec::new();
    let mut i: usize = 0;
    proof {
        assert(tv.skip(0) =~= tv);
        assert(out.deep_view() + expand_tokens(tv, av, joined@) =~= expand_tokens(
            tv,
            av,
            joined@,
        ));
    }
    while i < n
        invariant
            n == toks.len(),
            tv == toks.deep_view(),
            av == args.deep_view(),
            0 <= i <= n,
            out.deep_view() + expand_tokens(tv.skip(i as int), av, joined@) == expand_tokens(
                tv,
                av,
                joined@,
            ),
        decreases n - i,
    {
        let ghost tail = tv.skip(i as int);
        let ghost pre = out.deep_view();
        proof {
            assert(tail.len() == n - i);
            assert(tail[0] == tv[i as int]);
            assert(tail.skip(1) =~= tv.skip(i as int + 1));
            assert(tv[i as int] == toks@[i as int]@);
        }
        let t = &toks[i];
        if is_field_code_exec(t.as_str()) {
            let mut extra = clone_strings(args);
            out.append(&mut extra);
            proof {
                assert(out.deep_view() =~= pre + av);
            }
        } else if token_has_code_exec(t.as_str()) {
            out.push(subst_text(t.as_str(), joined.as_str()));
            proof {
                assert(out.deep_view() =~= pre + seq![subst_token(tv[i as int], joined@)]);
            }
        } else {
            out.push(t.clone());
            proof {
                assert(out.deep_view() =~= pre + seq![tv[i as int]]);
            }
        }
        proof {
            assert(expand_tokens(tail, av, joined@) == (if is_field_code(tail[0]) {
                av
            } else if token_has_code(tail[0]) {
                seq![subst_token(tail[0], joined@)]
            } else {
                seq![tail[0]]
            }) + expand_tokens(tail.skip(1), av, joined@));
            assert(out.deep_view() + expand_tokens(tv.skip(i as int + 1), av, joined@)
                =~= pre + expand_tokens(tail, av, joined@));
        }
        i = i + 1;
    }
    proof {
        assert(tv.skip(n as int).len() == 0);
        assert(expand_tokens(tv.skip(n as int), av, joined@) =~= Seq::<Seq<char>>::empty());
        assert(out.deep_view() + Seq::<Seq<char>>::empty() =~= out.deep_view());
    }
    out
}

/// Splits an expanded word list into the executable and its arguments; an
/// empty expansion is `BadCmd`.
fn split_command(mut words: Vec<String>) -> (r: Result<(String, Vec<String>), Error>)
    ensures
        ({
            let wv = words.deep_view();
            if wv.len() == 0 {
                r matches Err(e) && e matches Error::BadCmd
            } else {
                r matches Ok(p) && p.0@ == wv[0] && p.1.deep_view() == wv.skip(1)
            }
        }),
{
    let ghost wv = words.deep_view();
    let ghost wv0 = words@;
    if words.len() == 0 {
        return Err(Error::BadCmd);
    }
    let first = words.remove(0);
    proof {
        assert(first@ == wv[0]);
        assert forall|t: int| 0 <= t < words.deep_view().len() implies words.deep_view()[t]
            == wv.skip(1)[t] by {
            assert(words@[t] == wv0.remove(0)[t]);
            assert(wv0.remove(0)[t] == wv0[t + 1]);
        }
        assert(words.deep_view() =~= wv.skip(1));
    }
    Ok((first, words))
}

/// Prepends a terminal emulator command to an executable and arguments,
/// for descriptors that need a terminal when none is attached.
pub fn prepend_terminal(term_cmd: &str, cmd: String, cmd_args: Vec<String>) -> (r: Result<
    (String, Vec<String>),
    Error,
>)
    ensures
        ({
            match shell_words_of(term_cmd@) {
                None => r matches Err(e) && e matches Error::BadCmd,
                Some(tw) => {
                    if tw.len() == 0 {
                        r matches Err(e) && e matches Error::BadCmd
                    } else {
                        r matches Ok(p) && p.0@ == tw[0] && p.1.deep_view() == tw.skip(1)
                            + seq![cmd@] + cmd_args.deep_view()
                    }
                },
            }
        }),
{
    match shlex_split(term_cmd) {
        None => Err(Error::BadCmd),
        Some(tw) => {
            let ghost twv = tw.deep_view();
            if tw.len() == 0 {
                return Err(Error::BadCmd);
            }
            let mut rest = tw;
            let ghost tw0 = rest@;
            let first = rest.remove(0);
            proof {
                assert(first@ == twv[0]);
                assert forall|t: int| 0 <= t < rest.deep_view().len() implies rest.deep_view()[t]
                    == twv.skip(1)[t] by {
                    assert(rest@[t] == tw0.remove(0)[t]);
                    assert(tw0.remove(0)[t] == tw0[t + 1]);
                }
                assert(rest.deep_view() =~= twv.skip(1));
            }
            let ghost restv = rest.deep_view();
            rest.push(cmd);
            let mut extra = cmd_args;
            let ghost extrav = extra.deep_view();
            rest.append(&mut extra);
            proof {
                assert(rest.deep_view() =~= restv.push(cmd@) + extrav);
                assert(restv.push(cmd@) + extrav =~= twv.skip(1) + seq![cmd@] + extrav);
            }
            Ok((first, rest))
        },
    }
}

} // verus!
