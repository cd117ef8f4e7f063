//! Regex-backed handlers from the configuration file: launch rules keyed
//! by regular expressions over the opened path or URL.

use vstd::prelude::*;

use crate::desktop_entry::DesktopEntry;
use crate::error::Error;
use crate::mime_types::Mime;
use crate::path::UserPath;

verus! {

/// The compiled pattern set of a regex handler.
#[verifier::external_type_specification]
#[verifier::external_body]
pub struct ExRegexSet(regex::RegexSet);

/// The pattern texts a compiled set was built from.
pub uninterp spec fn patterns_of(rs: regex::RegexSet) -> Seq<Seq<char>>;

/// Whether any of the patterns matches the text.
pub uninterp spec fn regex_set_matches(patterns: Seq<Seq<char>>, text: Seq<char>) -> bool;

/// Relies on regex::RegexSet::new: compiles a pattern list into a set
/// that carries exactly those patterns, or fails on an invalid pattern.
#[verifier::external_body]
fn regex_set_new(patterns: &Vec<String>) -> (r: Result<regex::RegexSet, Error>)
    ensures
        r matches Ok(rs) ==> patterns_of(rs) == patterns.deep_view(),
{
    match regex::RegexSet::new(patterns) {
        Ok(rs) => Ok(rs),
        Err(_) => Err(Error::BadRegex),
    }
}

/// Relies on regex::RegexSet::is_match: whether any pattern of the set
/// matches the text — a function of the patterns and the text alone.
#[verifier::external_body]
fn regex_set_is_match(rs: &regex::RegexSet, text: &str) -> (r: bool)
    ensures
        r == regex_set_matches(patterns_of(*rs), text@),
{
    rs.is_match(text)
}

/// Relies on regex::RegexSet::patterns: the pattern texts the set was
/// built from, in construction order.
#[verifier::external_body]
fn regex_set_patterns(rs: &regex::RegexSet) -> (r: Vec<String>)
    ensures
        r.deep_view() == patterns_of(*rs),
{
    rs.patterns().to_vec()
}

/// Relies on regex::RegexSet::clone: a copy of the set carries the same
/// patterns.
#[verifier::external_body]
fn regex_set_clone(rs: &regex::RegexSet) -> (r: regex::RegexSet)
    ensures
        patterns_of(r) == patterns_of(*rs),
{
    rs.clone()
}

/// Compares two string lists by their texts.
fn string_vecs_equal(a: &Vec<String>, b: &Vec<String>) -> (r: bool)
    ensures
        r == (a.deep_view() == b.deep_view()),
{
    let n = a.len();
    if n != b.len() {
        proof {
            assert(a.deep_view().len() != b.deep_view().len());
        }
        return false;
    }
    let mut i: usize = 0;
    while i < n
        invariant
            n == a.len(),
            n == b.len(),
            0 <= i <= n,
            forall|t: int| 0 <= t < i ==> a.deep_view()[t] == b.deep_view()[t],
        decreases n - i,
    {
        if !crate::strutil::str_eq(a[i].as_str(), b[i].as_str()) {
            proof {
                assert(a.deep_view()[i as int] != b.deep_view()[i as int]);
            }
            return false;
        }
        proof {
            assert(a.deep_view()[i as int] == b.deep_view()[i as int]);
        }
        i = i + 1;
    }
    proof {
        assert(a.deep_view() =~= b.deep_view());
    }
    true
}

/// One handler rule of the configuration file, before its patterns are
/// compiled.
#[derive(Debug)]
pub struct ConfigHandler {
    /// The exec template of the rule.
    pub exec_line: String,
    /// Whether the rule's command needs a terminal.
    pub terminal: bool,
    /// The regular expression texts that select this rule.
    pub regexes: Vec<String>,
}

impl ConfigHandler {
    /// Compiles the rule's patterns, yielding the runnable handler.
    pub fn compile_regex(&self) -> (r: Result<RegexHandler, Error>)
        ensures
            r matches Ok(h) ==> h.exec_line@ == self.exec_line@ && h.terminal == self.terminal
                && h.regexes@ == self.regexes.deep_view(),
    {
        match HandlerRegexSet::new(&self.regexes) {
            Ok(set) => Ok(
                RegexHandler {
                    exec_line: self.exec_line.clone(),
                    terminal: self.terminal,
                    regexes: set,
                },
            ),
            Err(e) => Err(e),
        }
    }
}

/// A compiled pattern set, compared by its pattern texts.
#[derive(Debug)]
pub struct HandlerRegexSet {
    set: regex::RegexSet,
}

impl View for HandlerRegexSet {
    type V = Seq<Seq<char>>;

    closed spec fn view(&self) -> Seq<Seq<char>> {
        patterns_of(self.set)
    }
}

impl Clone for HandlerRegexSet {
    fn clone(&self) -> (r: Self)
        ensures
            r@ == self@,
    {
        HandlerRegexSet { set: regex_set_clone(&self.set) }
    }
}

impl PartialEq for HandlerRegexSet {
    fn eq(&self, other: &Self) -> (r: bool) {
        let a = regex_set_patterns(&self.set);
        let b = regex_set_patterns(&other.set);
        string_vecs_equal(&a, &b)
    }
}

impl vstd::std_specs::cmp::PartialEqSpecImpl for HandlerRegexSet {
    open spec fn obeys_eq_spec() -> bool {
        true
    }

    open spec fn eq_spec(&self, other: &Self) -> bool {
        self@ == other@
    }
}

impl HandlerRegexSet {
    /// Compiles pattern texts into a set.
    pub fn new(exprs: &Vec<String>) -> (r: Result<HandlerRegexSet, Error>)
        ensures
            r matches Ok(s) ==> s@ == exprs.deep_view(),
    {
        match regex_set_new(exprs) {
            Ok(set) => Ok(HandlerRegexSet { set }),
            Err(e) => Err(e),
        }
    }

    /// Whether any pattern matches the text.
    pub fn is_match(&self, text: &str) -> (r: bool)
        ensures
            r == regex_set_matches(self@, text@),
    {
        regex_set_is_match(&self.set, text)
    }
}

/// A runnable regex-backed handler.
#[derive(Debug)]
pub struct RegexHandler {
    /// The exec template to run.
    pub exec_line: String,
    /// Whether the command needs a terminal.
    pub terminal: bool,
    /// The patterns that select this handler.
    pub regexes: HandlerRegexSet,
}

impl Clone for RegexHandler {
    fn clone(&self) -> (r: Self)
        ensures
            r.exec_line@ == self.exec_line@ && r.terminal == self.terminal && r.regexes@
                == self.regexes@,
    {
        RegexHandler {
            exec_line: self.exec_line.clone(),
            terminal: self.terminal,
            regexes: self.regexes.clone(),
        }
    }
}

impl PartialEq for RegexHandler {
    fn eq(&self, other: &Self) -> (r: bool) {
        self.exec_line == other.exec_line && self.terminal == other.terminal && self.regexes
            == other.regexes
    }
}

impl vstd::std_specs::cmp::PartialEqSpecImpl for RegexHandler {
    open spec fn obeys_eq_spec() -> bool {
        true
    }

    open spec fn eq_spec(&self, other: &Self) -> bool {
        self.exec_line@ == other.exec_line@ && self.terminal == other.terminal && self.regexes@
            == other.regexes@
    }
}

impl RegexHandler {
    /// Whether this handler's patterns match the text.
    pub fn is_match(&self, path: &str) -> (r: bool)
        ensures
            r == regex_set_matches(self.regexes@, path@),
    {
        self.regexes.is_match(path)
    }

    /// A synthetic descriptor that reuses the exec-template machinery of
    /// desktop entries for this rule.
    pub fn get_entry(&self) -> (r: DesktopEntry)
        ensures
            r@.exec_line == self.exec_line@,
            r@.terminal == self.terminal,
            r@.name.len() == 0,
            r@.file_name.len() == 0,
            r@.mimes.len() == 0,
            r@.categories.len() == 0,
    {
        let r = DesktopEntry {
            name: String::new(),
            exec_line: self.exec_line.clone(),
            file_name: String::new(),
            terminal: self.terminal,
            mimes: Vec::new(),
            categories: Vec::new(),
        };
        proof {
            assert(r@.mimes =~= Seq::<Seq<char>>::empty());
            assert(r@.categories =~= Seq::<Seq<char>>::empty());
        }
        r
    }
}

/// The compiled handler carries exactly the rule's template, terminal
/// flag and patterns.
pub open spec fn rule_matches(c: ConfigHandler, h: RegexHandler) -> bool {
    h.exec_line@ == c.exec_line@ && h.terminal == c.terminal && h.regexes@ == c.regexes.deep_view()
}

/// Some rule of the configuration compiled to this handler.
pub open spec fn some_rule_matches(handlers: Seq<ConfigHandler>, h: RegexHandler) -> bool {
    exists|j: int| 0 <= j < handlers.len() && rule_matches(#[trigger] handlers[j], h)
}

/// The regex handlers of the configuration, in configuration order.
#[derive(Debug)]
pub struct RegexApps(pub Vec<RegexHandler>);

impl RegexApps {
    /// Compiles every rule of the configuration, dropping rules whose
    /// patterns fail to compile — one bad rule must not disable the rest.
    pub fn populate(handlers: &Vec<ConfigHandler>) -> (r: RegexApps)
        ensures
            r.0@.len() <= handlers@.len(),
            forall|t: int|
                0 <= t < r.0@.len() ==> some_rule_matches(handlers@, #[trigger] r.0@[t]),
    {
        let n = handlers.len();
        let mut out: Vec<RegexHandler> = Vec::new();
        let mut i: usize = 0;
        while i < n
            invariant
                n == handlers.len(),
                0 <= i <= n,
                out@.len() <= i,
                forall|t: int|
                    0 <= t < out@.len() ==> some_rule_matches(handlers@, #[trigger] out@[t]),
            decreases n - i,
        {
            let ghost preout = out@;
            match handlers[i].compile_regex() {
                Ok(h) => {
                    proof {
                        assert(h.exec_line@ == handlers@[i as int].exec_line@);
                    }
                    out.push(h);
                    proof {
                        assert forall|t: int| 0 <= t < out@.len() implies some_rule_matches(
                            handlers@,
                            #[trigger] out@[t],
                        ) by {
                            if t == out@.len() - 1 {
                                assert(rule_matches(handlers@[i as int], out@[t]));
                            } else {
                                assert(out@[t] == preout[t]);
                            }
                        }
                    }
                },
                Err(_) => {},
            }
            i = i + 1;
        }
        let r = RegexApps(out);
        proof {
            assert forall|t: int| 0 <= t < r.0@.len() implies some_rule_matches(
                handlers@,
                #[trigger] r.0@[t],
            ) by {
                assert(r.0@[t] == out@[t]);
                assert(some_rule_matches(handlers@, out@[t]));
            }
        }
        r
    }

    /// The first handler whose patterns match the path's display text.
    pub fn get_handler(&self, path: &UserPath) -> (r: Option<RegexHandler>)
        ensures
            match r {
                Some(h) => exists|i: int|
                    0 <= i < self.0@.len() && regex_set_matches(
                        (#[trigger] self.0@[i]).regexes@,
                        path.text_view(),
                    ) && h.exec_line@ == self.0@[i].exec_line@ && h.terminal == self.0@[i].terminal
                        && h.regexes@ == self.0@[i].regexes@,
                None => forall|i: int|
                    0 <= i < self.0@.len() ==> !regex_set_matches(
                        (#[trigger] self.0@[i]).regexes@,
                        path.text_view(),
                    ),
            },
    {
        let text = path.display_string();
        let n = self.0.len();
        let mut i: usize = 0;
        while i < n
            invariant
                n == self.0@.len(),
                0 <= i <= n,
                text@ == path.text_view(),
                forall|t: int|
                    0 <= t < i ==> !regex_set_matches(
                        (#[trigger] self.0@[t]).regexes@,
                        path.text_view(),
                    ),
            decreases n - i,
        {
            if self.0[i].is_match(text.as_str()) {
                return Some(self.0[i].clone());
            }
            i = i + 1;
        }
        None
    }
}

} // verus!
