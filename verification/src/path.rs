//! User-given paths: either a URL or a local file path, normalized from
//! the command line's free text.

use vstd::prelude::*;

use crate::error::Error;
use crate::mime_types::{
    from_file, url_file_path_of, url_file_path_of_str, url_scheme_of, url_scheme_of_str, Mime,
};
use crate::strutil::str_eq;

verus! {

/// A path or URL as the user gave it.
#[derive(Debug)]
pub enum UserPath {
    /// An absolute URL with its scheme.
    Url {
        /// The URL's scheme.
        scheme: String,
        /// The URL text as given.
        raw: String,
    },
    /// A local file path.
    File(String),
}

impl UserPath {
    /// The display text: the URL or path as given.
    pub open spec fn text_view(&self) -> Seq<char> {
        match self {
            UserPath::Url { raw, .. } => raw@,
            UserPath::File(p) => p@,
        }
    }

    /// Normalizes free text: a URL with the `file` scheme becomes its
    /// local path, another URL stays a URL, anything else is a path.
    pub fn from_str(s: &str) -> (r: Result<UserPath, Error>)
        ensures
            (match url_scheme_of(s@) {
                Some(sch) => if sch == "file"@ {
                    match url_file_path_of(s@) {
                        Some(p) => r matches Ok(u) && u matches UserPath::File(f) && f@ == p,
                        None => r matches Err(e) && (e matches Error::BadPath(t) && t@ == s@),
                    }
                } else {
                    r matches Ok(u) && (u matches UserPath::Url { scheme, raw } && scheme@ == sch
                        && raw@ == s@)
                },
                None => r matches Ok(u) && (u matches UserPath::File(f) && f@ == s@),
            }),
    {
        match url_scheme_of_str(s) {
            Some(scheme) => {
                if str_eq(scheme.as_str(), "file") {
                    match url_file_path_of_str(s) {
                        Some(p) => Ok(UserPath::File(p)),
                        None => Err(Error::BadPath(s.to_owned())),
                    }
                } else {
                    Ok(UserPath::Url { scheme, raw: s.to_owned() })
                }
            },
            None => Ok(UserPath::File(s.to_owned())),
        }
    }

    /// The MIME type of this path or URL: a synthetic scheme handler for
    /// URLs, the system classifier for files.
    pub fn get_mime(&self) -> (r: Result<Mime, Error>)
        ensures
            (self matches UserPath::Url { scheme, .. } ==> (r matches Ok(m) && m@
                == "x-scheme-handler/"@ + scheme@)),
            (self matches UserPath::File(f) ==> (r matches Err(e) ==> e
                matches Error::Ambiguous(t) && t@ == f@)),
    {
        match self {
            UserPath::Url { scheme, .. } => {
                let m = String::from_str("x-scheme-handler/").concat(scheme.as_str());
                Ok(Mime(m))
            },
            UserPath::File(f) => from_file(f.as_str()),
        }
    }

    /// The display text, executable form.
    pub fn display_string(&self) -> (r: String)
        ensures
            r@ == self.text_view(),
    {
        match self {
            UserPath::Url { raw, .. } => raw.clone(),
            UserPath::File(p) => p.clone(),
        }
    }
}

} // verus!
