//! MIME types: the validated `Mime` string, free-text validation against the
//! known-types table, extension lookup, and classification of paths and URLs
//! through the system MIME database.

use vstd::prelude::*;

use crate::error::Error;
use crate::strutil::{
    find_char, find_char_spec, is_prefix_of, lemma_find_char, starts_with, str_eq,
};

verus! {

/// A MIME type held as its canonical `type/subtype` text.
///
/// Comparison is by exact text; the wildcard subtype `*` is permitted, as is
/// the synthetic `x-scheme-handler/<scheme>` family.
#[derive(Debug)]
pub struct Mime(pub String);

impl View for Mime {
    type V = Seq<char>;

    open spec fn view(&self) -> Seq<char> {
        self.0@
    }
}

impl Clone for Mime {
    fn clone(&self) -> (r: Self)
        ensures
            r@ == self@,
    {
        Mime(self.0.clone())
    }
}

/// True for the characters a MIME `type` or `subtype` token may contain.
///
/// ASCII letters, digits, and the customary token punctuation. The set
/// excludes `/`, `;`, `=`, newlines and brackets, so a valid MIME string can
/// stand as a key in the user override file.
pub open spec fn mime_token_char(c: char) -> bool {
    (97 <= c as u32 && c as u32 <= 122)  // 'a'..'z'
    || (65 <= c as u32 && c as u32 <= 90)  // 'A'..'Z'
    || (48 <= c as u32 && c as u32 <= 57)  // '0'..'9'
    || c == '!' || c == '$' || c == '&' || c == '-' || c == '^' || c == '_'
    || c == '.' || c == '+' || c == '*' || c == '\'' || c == '~'
}

/// True when `s` is a well-formed `type/subtype` text: a single separating
/// slash with a non-empty token on each side.
pub open spec fn valid_mime(s: Seq<char>) -> bool {
    match find_char_spec(s, '/') {
        Some(i) => 1 <= i && i < s.len() - 1 && (forall|j: int|
            0 <= j < s.len() && j != i ==> mime_token_char(#[trigger] s[j])),
        None => false,
    }
}

impl Mime {
    /// The canonical text of this MIME type.
    pub fn as_text(&self) -> (r: &String)
        ensures
            r@ == self@,
    {
        &self.0
    }

    /// Parses a `type/subtype` text.
    ///
    /// Succeeds exactly on well-formed texts, and the accepted value carries
    /// the input unchanged, so parsing round-trips to the same canonical
    /// string.
    pub fn from_str(s: &str) -> (r: Result<Mime, Error>)
        ensures
            r matches Ok(m) ==> valid_mime(s@) && m@ == s@,
            r matches Err(e) ==> !valid_mime(s@) && (e matches Error::InvalidMime(t) && t@ == s@),
    {
        if check_mime_text(s) {
            Ok(Mime(s.to_owned()))
        } else {
            Err(Error::InvalidMime(s.to_owned()))
        }
    }

    /// Classifies a path or URL text.
    ///
    /// A URL with a non-`file` scheme becomes `x-scheme-handler/<scheme>`; a
    /// `file` URL degrades to classification of its local path; anything
    /// else is classified as a path by the system MIME database.
    pub fn try_from_path(path: &str) -> (r: Result<Mime, Error>)
        ensures
            (match url_scheme_of(path@) {
                Some(sch) => sch != "file"@ ==> (r matches Ok(m) && m@ == "x-scheme-handler/"@ + sch),
                None => true,
            }),
            (match url_scheme_of(path@) {
                Some(sch) => sch == "file"@ && url_file_path_of(path@) is None ==> (
                    r matches Err(e) && e matches Error::BadPath(p) && p@ == path@),
                None => true,
            }),
            r matches Ok(m) ==> m@ != "application/octet-stream"@ || (
                url_scheme_of(path@) matches Some(sch) && sch != "file"@),
    {
        match url_scheme_of_str(path) {
            Some(scheme) => {
                if !str_eq(scheme.as_str(), "file") {
                    let m = String::from_str("x-scheme-handler/").concat(scheme.as_str());
                    proof {
                        reveal_strlit("x-scheme-handler/");
                        reveal_strlit("application/octet-stream");
                        assert(m@ != "application/octet-stream"@) by {
                            assert(m@[0] == 'x');
                            assert("application/octet-stream"@[0] == 'a');
                        }
                    }
                    Ok(Mime(m))
                } else {
                    match url_file_path_of_str(path) {
                        Some(local) => from_file(local.as_str()),
                        None => Err(Error::BadPath(path.to_owned())),
                    }
                }
            },
            None => from_file(path),
        }
    }
}

/// Checks well-formedness of a `type/subtype` text, executable form.
pub fn check_mime_text(s: &str) -> (r: bool)
    ensures
        r == valid_mime(s@),
{
    let n = s.unicode_len();
    match find_char(s, '/') {
        None => false,
        Some(i) => {
            proof {
                lemma_find_char(s@, '/');
            }
            if i < 1 || i + 1 >= n {
                return false;
            }
            let mut j: usize = 0;
            while j < n
                invariant
                    n == s@.len(),
                    0 <= j <= n,
                    1 <= i && i + 1 < n,
                    Some(i as int) == find_char_spec(s@, '/'),
                    forall|k: int| 0 <= k < j && k != i ==> mime_token_char(#[trigger] s@[k]),
                decreases n - j,
            {
                if j != i {
                    let c = s.get_char(j);
                    let ok = (97 <= c as u32 && c as u32 <= 122)
                        || (65 <= c as u32 && c as u32 <= 90)
                        || (48 <= c as u32 && c as u32 <= 57)
                        || c == '!' || c == '$' || c == '&' || c == '-' || c == '^' || c == '_'
                        || c == '.' || c == '+' || c == '*' || c == '\'' || c == '~';
                    if !ok {
                        return false;
                    }
                }
                j = j + 1;
            }
            true
        },
    }
}

/// Membership of a MIME text in the static table of known types.
pub uninterp spec fn known_mime(s: Seq<char>) -> bool;

/// Relies on mime_db::TYPES, the crate's static table of known MIME types:
/// membership of the given text in that table. The table is compiled in, so
/// the answer is a function of the argument alone.
#[verifier::external_body]
fn mime_db_contains(s: &str) -> (r: bool)
    ensures
        r == known_mime(s@),
{
    mime_db::TYPES.iter().any(|(m, _, _)| *m == s)
}

/// Relies on xdg_mime::SharedMimeInfo::get_mime_types_from_file_name: the
/// MIME types the system database assigns to a file name, best match
/// first. The result depends on the machine's database, so nothing is
/// promised of it.
#[verifier::external_body]
fn mime_guesses_for_ext(name: &str) -> Vec<String> {
    let db = xdg_mime::SharedMimeInfo::new();
    db.get_mime_types_from_file_name(name)
        .iter()
        .map(|m| m.essence_str().to_owned())
        .collect()
}

/// The scheme of `s` when `s` parses as an absolute URL.
pub uninterp spec fn url_scheme_of(s: Seq<char>) -> Option<Seq<char>>;

/// Relies on url::Url::parse and url::Url::scheme: the scheme of the URL
/// that `s` parses to, if it parses. Parsing depends on the text alone.
#[verifier::external_body]
pub(crate) fn url_scheme_of_str(s: &str) -> (r: Option<String>)
    ensures
        match r {
            Some(sch) => url_scheme_of(s@) == Some(sch@),
            None => url_scheme_of(s@) is None,
        },
{
    url::Url::parse(s).ok().map(|u| u.scheme().to_owned())
}

/// The local path of `s` when `s` parses as a URL with a usable local path.
pub uninterp spec fn url_file_path_of(s: Seq<char>) -> Option<Seq<char>>;

/// Relies on url::Url::parse and url::Url::to_file_path: the local path
/// denoted by a file URL, when it exists and is valid UTF-8. A function of
/// the text alone.
#[verifier::external_body]
pub(crate) fn url_file_path_of_str(s: &str) -> (r: Option<String>)
    ensures
        match r {
            Some(p) => url_file_path_of(s@) == Some(p@),
            None => url_file_path_of(s@) is None,
        },
{
    match url::Url::parse(s) {
        Ok(u) => match u.to_file_path() {
            Ok(p) => p.to_str().map(|q| q.to_owned()),
            Err(_) => None,
        },
        Err(_) => None,
    }
}

/// Relies on xdg_mime::SharedMimeInfo and its guess_mime_type builder: the
/// system MIME database's classification of a path, by file-name globs,
/// content sniffing and directory detection. The result depends on the
/// machine's database and file system, so nothing is promised of it.
#[verifier::external_body]
fn guess_mime_of_path(path: &str) -> String {
    let db = xdg_mime::SharedMimeInfo::new();
    let mut builder = db.guess_mime_type();
    let guess = builder.path(path).guess();
    guess.mime_type().essence_str().to_owned()
}

/// Maps a classifier guess for `path` to a MIME result: the generic binary
/// placeholder is rejected as ambiguous rather than passed on as a real
/// type.
pub fn classify_guess(guess: String, path: &str) -> (r: Result<Mime, Error>)
    ensures
        guess@ == "application/octet-stream"@ ==> (r matches Err(e) && e matches Error::Ambiguous(
            p,
        ) && p@ == path@),
        guess@ != "application/octet-stream"@ ==> (r matches Ok(m) && m@ == guess@),
{
    if str_eq(guess.as_str(), "application/octet-stream") {
        Err(Error::Ambiguous(path.to_owned()))
    } else {
        Ok(Mime(guess))
    }
}

/// Classifies the file or directory at `path` through the system MIME
/// database; a guess of the generic binary placeholder is an error, never a
/// result.
pub fn from_file(path: &str) -> (r: Result<Mime, Error>)
    ensures
        r matches Ok(m) ==> m@ != "application/octet-stream"@,
        r matches Err(e) ==> e matches Error::Ambiguous(p) && p@ == path@,
{
    let guess = guess_mime_of_path(path);
    classify_guess(guess, path)
}

/// Validates free-text user input as a MIME type: a `x-scheme-handler/`
/// text, the synthetic directory type, or a member of the known-types table.
pub fn verify(mime: &str) -> (r: Result<Mime, Error>)
    ensures
        (is_prefix_of("x-scheme-handler/"@, mime@) || mime@ == "inode/directory"@ || known_mime(
            mime@,
        )) ==> (r matches Ok(m) && m@ == mime@),
        !(is_prefix_of("x-scheme-handler/"@, mime@) || mime@ == "inode/directory"@ || known_mime(
            mime@,
        )) ==> (r matches Err(e) && e matches Error::BadMime(t) && t@ == mime@),
{
    if starts_with(mime, "x-scheme-handler/") || str_eq(mime, "inode/directory")
        || mime_db_contains(mime) {
        Ok(Mime(mime.to_owned()))
    } else {
        Err(Error::BadMime(mime.to_owned()))
    }
}

/// Decides what a file-name lookup's guess list means: no guess, or only
/// the generic binary placeholder, is ambiguous; otherwise the best match
/// is the answer.
pub fn classify_ext_guesses(guesses: &Vec<String>, ext: &str) -> (r: Result<Mime, Error>)
    ensures
        guesses.deep_view().len() == 0 ==> (r matches Err(e) && e matches Error::Ambiguous(t)
            && t@ == ext@),
        guesses.deep_view().len() == 1 && guesses.deep_view()[0] == "application/octet-stream"@
            ==> (r matches Err(e) && e matches Error::Ambiguous(t) && t@ == ext@),
        guesses.deep_view().len() >= 1 && !(guesses.deep_view().len() == 1
            && guesses.deep_view()[0] == "application/octet-stream"@) ==> (r matches Ok(m) && m@
            == guesses.deep_view()[0]),
{
    if guesses.len() == 0 {
        return Err(Error::Ambiguous(ext.to_owned()));
    }
    if guesses.len() == 1 && str_eq(guesses[0].as_str(), "application/octet-stream") {
        proof {
            assert(guesses.deep_view()[0] == guesses@[0]@);
        }
        return Err(Error::Ambiguous(ext.to_owned()));
    }
    proof {
        assert(guesses.deep_view()[0] == guesses@[0]@);
    }
    Ok(Mime(guesses[0].clone()))
}

/// A MIME type looked up from a bare `.extension` text in the system
/// database; an unknown extension is ambiguous, never substituted.
pub fn from_ext(ext: &str) -> (r: Result<Mime, Error>)
    ensures
        r matches Err(e) ==> e matches Error::Ambiguous(t) && t@ == ext@,
{
    let guesses = mime_guesses_for_ext(ext);
    classify_ext_guesses(&guesses, ext)
}

/// A MIME type from user text: a bare `.extension` is looked up in the
/// extension table, anything else must be a well-formed and known MIME
/// string.
#[derive(Debug)]
pub struct MimeOrExtension(pub Mime);

impl MimeOrExtension {
    /// Parses user text into a MIME type.
    ///
    /// Texts starting with `.` are extension lookups; other texts must be
    /// well-formed `type/subtype` strings that pass free-text validation.
    pub fn from_str(s: &str) -> (r: Result<MimeOrExtension, Error>)
        ensures
            is_prefix_of("."@, s@) ==> (r matches Err(e) ==> e matches Error::Ambiguous(t) && t@
                == s@),
            !is_prefix_of("."@, s@) && !valid_mime(s@) ==> (r matches Err(e) && e
                matches Error::InvalidMime(t) && t@ == s@),
            !is_prefix_of("."@, s@) && valid_mime(s@) ==> (match r {
                Ok(me) => me.0@ == s@ && (is_prefix_of("x-scheme-handler/"@, s@) || s@
                    == "inode/directory"@ || known_mime(s@)),
                Err(e) => e matches Error::BadMime(t) && t@ == s@ && !(is_prefix_of(
                    "x-scheme-handler/"@,
                    s@,
                ) || s@ == "inode/directory"@ || known_mime(s@)),
            }),
    {
        if starts_with(s, ".") {
            match from_ext(s) {
                Ok(m) => Ok(MimeOrExtension(m)),
                Err(e) => Err(e),
            }
        } else {
            match Mime::from_str(s) {
                Ok(_) => match verify(s) {
                    Ok(m) => Ok(MimeOrExtension(m)),
                    Err(e) => Err(e),
                },
                Err(e) => Err(e),
            }
        }
    }
}

} // verus!
