//! Media types and MIME resolution: extension-based guessing as the primary
//! signal, with a content-sniffing result (supplied by the caller, since
//! sniffing reads the file) as the fallback.
use vstd::prelude::*;
use vstd::string::*;

use crate::text::first_at;

verus! {

/// A MIME type identifying a file's content kind, kept as its essence
/// string `type/subtype` (parameters stripped).
#[derive(Debug, Clone)]
pub struct MediaType {
    pub essence: String,
}

impl View for MediaType {
    type V = Seq<char>;

    open spec fn view(&self) -> Seq<char> {
        self.essence@
    }
}

impl DeepView for MediaType {
    type V = Seq<char>;

    open spec fn deep_view(&self) -> Seq<char> {
        self.essence@
    }
}

impl MediaType {
    /// The top-level type: everything before the first `/`.
    pub fn top(&self) -> (r: String)
        ensures
            r@ == mime_top_spec(self@),
    {
        match crate::text::find_char(self.essence.as_str(), '/') {
            Some(k) => {
                proof {
                    let kk = choose|kk: int| first_at(self@, '/', kk);
                    crate::text::lemma_first_at_unique(self@, '/', kk, k as int);
                }
                self.essence.as_str().substring_char(0, k).to_owned()
            },
            None => self.essence.clone(),
        }
    }

    /// The subtype: everything after the first `/`.
    pub fn sub(&self) -> (r: String)
        ensures
            r@ == mime_sub_spec(self@),
    {
        let n = self.essence.as_str().unicode_len();
        match crate::text::find_char(self.essence.as_str(), '/') {
            Some(k) => {
                proof {
                    let kk = choose|kk: int| first_at(self@, '/', kk);
                    crate::text::lemma_first_at_unique(self@, '/', kk, k as int);
                    assert(self@.subrange(k + 1, n as int) =~= self@.skip(k + 1));
                }
                self.essence.as_str().substring_char(k + 1, n).to_owned()
            },
            None => {
                proof {
                    assert(Seq::<char>::empty() =~= self@.skip(n as int));
                }
                String::new()
            },
        }
    }

    /// A copy with the same essence.
    pub fn clone_media(&self) -> (r: MediaType)
        ensures
            r@ == self@,
    {
        MediaType { essence: self.essence.clone() }
    }

    /// Character-wise equality of two media types.
    pub fn same_as(&self, other: &MediaType) -> (r: bool)
        ensures
            r == (self@ == other@),
    {
        crate::text::str_eq(self.essence.as_str(), other.essence.as_str())
    }
}

/// The type part of an essence: up to the first `/`, or the whole string.
pub open spec fn mime_top_spec(e: Seq<char>) -> Seq<char> {
    if exists|k: int| first_at(e, '/', k) {
        e.take(choose|k: int| first_at(e, '/', k))
    } else {
        e
    }
}

/// The subtype part of an essence: after the first `/`, or empty.
pub open spec fn mime_sub_spec(e: Seq<char>) -> Seq<char> {
    if exists|k: int| first_at(e, '/', k) {
        e.skip((choose|k: int| first_at(e, '/', k)) + 1)
    } else {
        e.skip(e.len() as int)
    }
}

/// What the `mime` crate's parser returns on a string: `None` when the
/// string is not a valid MIME type, otherwise the essence.
pub uninterp spec fn mime_parse_of(s: Seq<char>) -> Option<Seq<char>>;

/// Relies on `mime`'s `FromStr` implementation and `Mime::essence_str`:
/// whether a string parses, and its essence, are functions of the string
/// alone.
#[verifier::external_body]
pub fn parse_media_type(s: &str) -> (r: Option<MediaType>)
    ensures
        match r {
            Some(m) => mime_parse_of(s@) == Some(m@),
            None => mime_parse_of(s@) == None::<Seq<char>>,
        },
{
    match s.parse::<mime::Mime>() {
        Ok(m) => Some(MediaType { essence: m.essence_str().to_owned() }),
        Err(_) => None,
    }
}

/// What `mime_guess` returns for an extension: the essence of the first
/// guess, a function of the extension alone.
pub uninterp spec fn ext_mime_of(ext: Seq<char>) -> Option<Seq<char>>;

/// Relies on `mime_guess::from_ext` and `MimeGuess::first`: a
/// case-insensitive static table keyed by the extension alone; the empty
/// extension has no guess.
#[verifier::external_body]
pub fn guess_media_type(ext: &str) -> (r: Option<MediaType>)
    ensures
        match r {
            Some(m) => ext_mime_of(ext@) == Some(m@),
            None => ext_mime_of(ext@) == None::<Seq<char>>,
        },
        ext@.len() == 0 ==> r is None,
{
    mime_guess::from_ext(ext).first().map(
        |m| MediaType { essence: m.essence_str().to_owned() },
    )
}

/// `k` is the position of the last occurrence of `c` in `s`.
pub open spec fn last_at(s: Seq<char>, c: char, k: int) -> bool {
    &&& 0 <= k < s.len()
    &&& s[k] == c
    &&& forall|j: int| k < j < s.len() ==> s[j] != c
}

/// The extension of a file name: what follows the last `.`, none when there
/// is no `.` or the name only starts with one.
pub open spec fn ext_spec(name: Seq<char>) -> Option<Seq<char>> {
    if exists|k: int| last_at(name, '.', k) && k > 0 {
        Some(name.skip((choose|k: int| last_at(name, '.', k) && k > 0) + 1))
    } else {
        None
    }
}

/// The extension of `name`, as `Path::extension` reports it for a plain
/// file name.
pub fn extension_of(name: &str) -> (r: Option<String>)
    ensures
        match r {
            Some(e) => ext_spec(name@) == Some(e@),
            None => ext_spec(name@) == None::<Seq<char>>,
        },
{
    let n = name.unicode_len();
    let mut k: usize = n;
    while k > 0
        invariant
            0 <= k <= n == name@.len(),
            forall|j: int| k <= j < n ==> name@[j] != '.',
        decreases k,
    {
        if name.get_char(k - 1) == '.' {
            if k - 1 == 0 {
                proof {
                    assert forall|m: int| !(last_at(name@, '.', m) && m > 0) by {
                        if last_at(name@, '.', m) && m > 0 {
                            assert(name@[m] != '.');
                        }
                    }
                }
                return None;
            }
            proof {
                assert(last_at(name@, '.', k - 1));
                let kk = choose|kk: int| last_at(name@, '.', kk) && kk > 0;
                if kk != k - 1 {
                    if kk < k - 1 {
                        assert(name@[k - 1] != '.');
                    } else {
                        assert(name@[kk] != '.');
                    }
                }
            }
            return Some(name.substring_char(k, n).to_owned());
        }
        k = k - 1;
    }
    proof {
        assert forall|m: int| !(last_at(name@, '.', m) && m > 0) by {
            if last_at(name@, '.', m) && m > 0 {
                assert(name@[m] != '.');
            }
        }
    }
    None
}

/// The resolved MIME essence: the extension guess when there is one, else
/// the parse of the sniffed string, else none.
pub open spec fn resolved_mime_spec(name: Seq<char>, sniffed: Option<Seq<char>>) -> Option<
    Seq<char>,
> {
    let guess = match ext_spec(name) {
        Some(e) => ext_mime_of(e),
        None => None,
    };
    match guess {
        Some(m) => Some(m),
        None => match sniffed {
            Some(s) => mime_parse_of(s),
            None => None,
        },
    }
}

/// Resolve a file's media type from its name, falling back to the
/// content-sniffing result the caller obtained (`sniffed`, a raw MIME
/// string) when the extension yields no guess.
pub fn resolve_media_type(name: &str, sniffed: &Option<String>) -> (r: Option<MediaType>)
    ensures
        match r {
            Some(m) => resolved_mime_spec(name@, sniffed.deep_view()) == Some(m@),
            None => resolved_mime_spec(name@, sniffed.deep_view()) == None::<Seq<char>>,
        },
{
    let guess = match extension_of(name) {
        Some(e) => guess_media_type(e.as_str()),
        None => None,
    };
    match guess {
        Some(m) => Some(m),
        None => match sniffed {
            Some(s) => parse_media_type(s.as_str()),
            None => None,
        },
    }
}

} // verus!
