//! Directory listings: entries carry their name, kind, eagerly computed
//! extension media type and the shared cell their background resolution
//! writes into. Hidden entries are dropped and the rest are ordered with
//! directories before files, then ascending by name.
use vstd::prelude::*;

use vstd::multiset::Multiset;

use crate::content::ContentCell;
use crate::media::MediaType;
use crate::text::lex_le;
use crate::text::lemma_lex_total;
use crate::text::lemma_lex_trans;
use crate::text::str_le;

verus! {

/// The classification of a directory entry.
#[derive(Clone, Copy, Debug, PartialEq, Eq, Structural)]
pub enum FileKind {
    Directory,
    File,
    Symlink,
    Other,
}

/// One directory entry: its name, its kind, the handle to its
/// not-yet-or-already resolved content, and the media type its extension
/// implies, computed eagerly.
pub struct FileInfo {
    pub file_name: String,
    pub file_type: FileKind,
    pub content_info: ContentCell,
    pub extension_mime: Option<MediaType>,
}

impl FileInfo {
    /// The most likely media type of the entry: the extension-derived one
    /// when present, else whatever the resolved content (if `content` holds
    /// it yet) detected.
    pub fn media_type(&self, content: &Option<crate::content::FileContentInfo>) -> (r: Option<
        MediaType,
    >)
        ensures
            media_type_view(r) == media_type_spec(self, content),
    {
        match &self.extension_mime {
            Some(m) => Some(m.clone_media()),
            None => match content {
                Some(ci) => match &ci.mime {
                    Some(m) => Some(m.clone_media()),
                    None => None,
                },
                None => None,
            },
        }
    }
}

pub open spec fn media_type_view(r: Option<MediaType>) -> Option<Seq<char>> {
    match r {
        Some(m) => Some(m@),
        None => None,
    }
}

/// The essence of the media type an entry reports: extension first, then
/// the detected one.
pub open spec fn media_type_spec(
    fi: &FileInfo,
    content: &Option<crate::content::FileContentInfo>,
) -> Option<Seq<char>> {
    match fi.extension_mime {
        Some(m) => Some(m@),
        None => match content {
            Some(ci) => match ci.mime {
                Some(m) => Some(m@),
                None => None,
            },
            None => None,
        },
    }
}

/// The listing order: directories before everything else, then ascending
/// name order by code point.
pub open spec fn entry_le(a: FileInfo, b: FileInfo) -> bool {
    let ad = a.file_type is Directory;
    let bd = b.file_type is Directory;
    if ad == bd {
        lex_le(a.file_name@, b.file_name@)
    } else {
        ad
    }
}

pub open spec fn entries_sorted(s: Seq<FileInfo>) -> bool {
    forall|i: int, j: int| 0 <= i < j < s.len() ==> entry_le(s[i], s[j])
}

proof fn lemma_entry_le_refl(a: FileInfo)
    ensures
        entry_le(a, a),
{
    crate::text::lemma_lex_refl(a.file_name@);
}

proof fn lemma_entry_le_total(a: FileInfo, b: FileInfo)
    ensures
        entry_le(a, b) || entry_le(b, a),
{
    lemma_lex_total(a.file_name@, b.file_name@);
}

proof fn lemma_entry_le_trans(a: FileInfo, b: FileInfo, c: FileInfo)
    requires
        entry_le(a, b),
        entry_le(b, c),
    ensures
        entry_le(a, c),
{
    if a.file_type is Directory == b.file_type is Directory && b.file_type is Directory
        == c.file_type is Directory {
        lemma_lex_trans(a.file_name@, b.file_name@, c.file_name@);
    }
}

/// Whether an entry is hidden: its name begins with a dot.
pub open spec fn is_hidden(e: FileInfo) -> bool {
    e.file_name@.len() > 0 && e.file_name@.first() == '.'
}

/// The visible entries, in their original order.
pub open spec fn visible_of(s: Seq<FileInfo>) -> Seq<FileInfo>
    decreases s.len(),
{
    if s.len() == 0 {
        Seq::empty()
    } else {
        let rest = visible_of(s.drop_last());
        if is_hidden(s.last()) {
            rest
        } else {
            rest.push(s.last())
        }
    }
}

fn entry_le_exec(a: &FileInfo, b: &FileInfo) -> (r: bool)
    ensures
        r == entry_le(*a, *b),
{
    let ad = matches!(a.file_type, FileKind::Directory);
    let bd = matches!(b.file_type, FileKind::Directory);
    if ad == bd {
        str_le(a.file_name.as_str(), b.file_name.as_str())
    } else {
        ad
    }
}

/// Sort entries into listing order; the result holds exactly the given
/// entries.
fn sort_entries(v: Vec<FileInfo>) -> (r: Vec<FileInfo>)
    ensures
        r@.to_multiset() == v@.to_multiset(),
        entries_sorted(r@),
{
    broadcast use vstd::seq_lib::group_to_multiset_ensures;
    broadcast use vstd::multiset::group_multiset_axioms;

    let mut rest = v;
    let mut out: Vec<FileInfo> = Vec::new();
    proof {
        assert(out@.to_multiset().add(rest@.to_multiset()) =~= v@.to_multiset());
    }
    while rest.len() > 0
        invariant
            out@.to_multiset().add(rest@.to_multiset()) == v@.to_multiset(),
            entries_sorted(out@),
            forall|i: int, j: int|
                0 <= i < out@.len() && 0 <= j < rest@.len() ==> entry_le(out@[i], rest@[j]),
        decreases rest@.len(),
    {
        let mut m: usize = 0;
        let mut k: usize = 1;
        proof {
            lemma_entry_le_refl(rest@[0]);
        }
        while k < rest.len()
            invariant
                0 <= m < k <= rest@.len(),
                rest@.len() > 0,
                forall|j: int| 0 <= j < k ==> entry_le(rest@[m as int], rest@[j]),
            decreases rest@.len() - k,
        {
            if !entry_le_exec(&rest[m], &rest[k]) {
                proof {
                    lemma_entry_le_total(rest@[m as int], rest@[k as int]);
                    assert forall|j: int| 0 <= j < k + 1 implies entry_le(
                        rest@[k as int],
                        rest@[j],
                    ) by {
                        if j < k {
                            lemma_entry_le_trans(rest@[k as int], rest@[m as int], rest@[j]);
                        } else {
                            lemma_entry_le_refl(rest@[k as int]);
                        }
                    }
                }
                m = k;
            }
            k = k + 1;
        }
        let ghost old_rest = rest@;
        let ghost old_out = out@;
        let x = rest.remove(m);
        out.push(x);
        proof {
            old_rest.to_multiset_ensures();
            old_out.to_multiset_ensures();
            assert(old_rest.contains(old_rest[m as int]));
            assert(out@.to_multiset().add(rest@.to_multiset()) =~= old_out.to_multiset().add(
                old_rest.to_multiset(),
            ));
            assert forall|i: int, j: int|
                0 <= i < out@.len() && 0 <= j < rest@.len() implies entry_le(
                out@[i],
                rest@[j],
            ) by {
                let y = rest@[j];
                assert(y == old_rest[if j < m { j } else { j + 1 }]);
                if i < out@.len() - 1 {
                    assert(out@[i] == old_out[i]);
                } else {
                    assert(out@[i] == old_rest[m as int]);
                }
            }
            assert(entries_sorted(out@)) by {
                assert forall|i: int, j: int| 0 <= i < j < out@.len() implies entry_le(
                    out@[i],
                    out@[j],
                ) by {
                    if j < out@.len() - 1 {
                        assert(out@[i] == old_out[i] && out@[j] == old_out[j]);
                    } else {
                        assert(out@[j] == old_rest[m as int]);
                        assert(out@[i] == old_out[i]);
                    }
                }
            }
        }
    }
    proof {
        assert(rest@.to_multiset() =~= Multiset::<FileInfo>::empty());
        assert(out@.to_multiset().add(Multiset::<FileInfo>::empty()) =~= out@.to_multiset());
    }
    out
}

/// An ordered directory listing: its canonical path and its entries, sorted
/// directories-first then by name, hidden entries dropped. Rebuilt
/// wholesale on every path change.
pub struct Directory {
    pub files: Vec<FileInfo>,
    pub path: String,
}

/// Two listings are the same exactly when they represent the same path; the
/// entries are a function of the path at the time it was read.
impl PartialEq for Directory {
    fn eq(&self, other: &Directory) -> (r: bool) {
        crate::text::str_eq(self.path.as_str(), other.path.as_str())
    }
}

impl vstd::std_specs::cmp::PartialEqSpecImpl for Directory {
    open spec fn obeys_eq_spec() -> bool {
        true
    }

    open spec fn eq_spec(&self, other: &Directory) -> bool {
        self.path@ == other.path@
    }
}

impl Directory {
    /// Entries are in listing order.
    pub open spec fn wf(&self) -> bool {
        entries_sorted(self.files@)
    }

    /// Build the listing for `path` from the raw entries the caller
    /// enumerated: hidden entries are dropped, the rest sorted into listing
    /// order.
    pub fn new(path: String, entries: Vec<FileInfo>) -> (r: Directory)
        ensures
            r.path@ == path@,
            r.files@.to_multiset() == visible_of(entries@).to_multiset(),
            r.wf(),
    {
        let ghost ev = entries@;
        let n = entries.len();
        let mut src = entries;
        let mut kept: Vec<FileInfo> = Vec::new();
        let mut taken: usize = 0;
        proof {
            assert(kept@ =~= visible_of(ev.take(0)));
            assert(src@ =~= ev.skip(0));
        }
        while taken < n
            invariant
                0 <= taken <= n == ev.len(),
                src@ == ev.skip(taken as int),
                kept@ == visible_of(ev.take(taken as int)),
            decreases n - taken,
        {
            proof {
                assert(src@[0] == ev[taken as int]);
                assert(ev.take(taken + 1).drop_last() =~= ev.take(taken as int));
                assert(ev.take(taken + 1).last() == ev[taken as int]);
            }
            let e = src.remove(0);
            proof {
                assert(src@ =~= ev.skip(taken + 1));
            }
            let hidden = e.file_name.as_str().unicode_len() > 0 && e.file_name.as_str().get_char(
                0,
            ) == '.';
            if !hidden {
                kept.push(e);
            }
            taken = taken + 1;
        }
        proof {
            assert(ev.take(n as int) =~= ev);
        }
        let files = sort_entries(kept);
        Directory { files, path }
    }

    /// The entry at `index`, if any.
    pub fn get(&self, index: usize) -> (r: Option<&FileInfo>)
        ensures
            match r {
                Some(e) => index < self.files@.len() && *e == self.files@[index as int],
                None => index >= self.files@.len(),
            },
    {
        if index < self.files.len() {
            Some(&self.files[index])
        } else {
            None
        }
    }

    /// The number of entries.
    pub fn len(&self) -> (r: usize)
        ensures
            r == self.files@.len(),
    {
        self.files.len()
    }

    /// All entries, in listing order.
    pub fn files(&self) -> (r: &Vec<FileInfo>)
        ensures
            r@ == self.files@,
    {
        &self.files
    }

    /// The canonical path this listing represents.
    pub fn path(&self) -> (r: &String)
        ensures
            r@ == self.path@,
    {
        &self.path
    }
}

} // verus!
