//! Parser for INI-style configuration text: ordered sections of `[Name]`
//! headers followed by `key=value` entries, as used both by thumbnailer
//! registrations and by desktop-entry files.
//!
//! Blank lines are tolerated only where the next non-blank line is a valid
//! header; any other irregular line makes the whole parse yield zero
//! sections rather than a partial result.
use vstd::prelude::*;

use crate::text::first_at;
use crate::text::find_char;
use crate::text::trim;
use crate::text::trim_spec;

verus! {

/// One parsed section: its header name and its `key=value` entries in file
/// order; a key occurring twice keeps both occurrences, and lookup takes
/// the last.
pub struct ConfigSection {
    pub name: String,
    pub entries: Vec<(String, String)>,
}

impl DeepView for ConfigSection {
    type V = (Seq<char>, Seq<(Seq<char>, Seq<char>)>);

    open spec fn deep_view(&self) -> Self::V {
        (self.name@, self.entries.deep_view())
    }
}

/// A trimmed line of the form `[Name]` with a non-empty name.
pub open spec fn is_header_line(t: Seq<char>) -> bool {
    t.len() >= 3 && t.first() == '[' && t.last() == ']'
}

pub open spec fn header_name(t: Seq<char>) -> Seq<char> {
    t.subrange(1, t.len() - 1)
}

pub open spec fn line_has_eq(t: Seq<char>) -> bool {
    exists|k: int| first_at(t, '=', k)
}

/// The key and value of an entry line: split at the first `=`, both sides
/// trimmed.
pub open spec fn entry_of(t: Seq<char>) -> (Seq<char>, Seq<char>) {
    let k = choose|k: int| first_at(t, '=', k);
    (trim_spec(t.take(k)), trim_spec(t.skip(k + 1)))
}

/// Parse state between sections: expecting a header. `after_blank` records
/// that a blank line was skipped, which is only tolerated when a valid
/// header eventually follows.
pub open spec fn parse_h(
    lines: Seq<Seq<char>>,
    i: int,
    done: Seq<(Seq<char>, Seq<(Seq<char>, Seq<char>)>)>,
    after_blank: bool,
) -> Seq<(Seq<char>, Seq<(Seq<char>, Seq<char>)>)>
    decreases lines.len() - i, 0int,
{
    if i < 0 || i >= lines.len() {
        if after_blank {
            Seq::empty()
        } else {
            done
        }
    } else {
        let t = trim_spec(lines[i]);
        if t.len() == 0 {
            parse_h(lines, i + 1, done, true)
        } else if is_header_line(t) {
            parse_e(lines, i + 1, done, (header_name(t), Seq::empty()))
        } else {
            Seq::empty()
        }
    }
}

/// Parse state inside a section: collecting entries until a blank line, a
/// new header or the end of the text closes the section.
pub open spec fn parse_e(
    lines: Seq<Seq<char>>,
    i: int,
    done: Seq<(Seq<char>, Seq<(Seq<char>, Seq<char>)>)>,
    cur: (Seq<char>, Seq<(Seq<char>, Seq<char>)>),
) -> Seq<(Seq<char>, Seq<(Seq<char>, Seq<char>)>)>
    decreases lines.len() - i, 1int,
{
    if i < 0 || i >= lines.len() {
        done.push(cur)
    } else {
        let t = trim_spec(lines[i]);
        if t.len() == 0 {
            parse_h(lines, i + 1, done.push(cur), true)
        } else if is_header_line(t) {
            parse_e(lines, i + 1, done.push(cur), (header_name(t), Seq::empty()))
        } else if line_has_eq(t) {
            parse_e(lines, i + 1, done, (cur.0, cur.1.push(entry_of(t))))
        } else {
            Seq::empty()
        }
    }
}

/// The ordered sections of the given configuration lines.
pub open spec fn parse_spec(lines: Seq<Seq<char>>) -> Seq<
    (Seq<char>, Seq<(Seq<char>, Seq<char>)>),
> {
    parse_h(lines, 0, Seq::empty(), false)
}

/// A line at header position that is neither blank nor a strict `[Name]`
/// header makes the whole parse empty, whatever was parsed before: parsing
/// never returns a partial result.
pub proof fn lemma_bad_header_line_yields_empty(
    lines: Seq<Seq<char>>,
    i: int,
    done: Seq<(Seq<char>, Seq<(Seq<char>, Seq<char>)>)>,
    after_blank: bool,
)
    requires
        0 <= i < lines.len(),
        trim_spec(lines[i]).len() > 0,
        !is_header_line(trim_spec(lines[i])),
    ensures
        parse_h(lines, i, done, after_blank) == Seq::<
            (Seq<char>, Seq<(Seq<char>, Seq<char>)>),
        >::empty(),
{
}

/// A blank line that no later non-blank line follows with a valid header
/// makes the whole parse empty as well.
pub proof fn lemma_blank_without_header_yields_empty(
    lines: Seq<Seq<char>>,
    done: Seq<(Seq<char>, Seq<(Seq<char>, Seq<char>)>)>,
)
    requires
        forall|j: int| 0 <= j < lines.len() ==> trim_spec(lines[j]).len() == 0,
    ensures
        parse_h(lines, 0, done, true) == Seq::<
            (Seq<char>, Seq<(Seq<char>, Seq<char>)>),
        >::empty(),
{
    lemma_all_blank(lines, 0, done);
}

proof fn lemma_all_blank(
    lines: Seq<Seq<char>>,
    i: int,
    done: Seq<(Seq<char>, Seq<(Seq<char>, Seq<char>)>)>,
)
    requires
        0 <= i,
        forall|j: int| i <= j < lines.len() ==> trim_spec(lines[j]).len() == 0,
    ensures
        parse_h(lines, i, done, true) == Seq::<
            (Seq<char>, Seq<(Seq<char>, Seq<char>)>),
        >::empty(),
    decreases lines.len() - i,
{
    if i < lines.len() {
        lemma_all_blank(lines, i + 1, done);
    }
}

/// The value for `key`: the last entry under that key, since a repeated key
/// overrides the earlier occurrence.
pub open spec fn lookup_last(entries: Seq<(Seq<char>, Seq<char>)>, key: Seq<char>) -> Option<
    Seq<char>,
>
    decreases entries.len(),
{
    if entries.len() == 0 {
        None
    } else if entries.last().0 == key {
        Some(entries.last().1)
    } else {
        lookup_last(entries.drop_last(), key)
    }
}

impl ConfigSection {
    /// The value stored under `key`, the last occurrence winning.
    pub fn get(&self, key: &str) -> (r: Option<&String>)
        ensures
            match r {
                Some(v) => lookup_last(self.entries.deep_view(), key@) == Some(v@),
                None => lookup_last(self.entries.deep_view(), key@) == None::<Seq<char>>,
            },
    {
        let mut i: usize = self.entries.len();
        proof {
            assert(self.entries.deep_view().take(i as int) =~= self.entries.deep_view());
        }
        while i > 0
            invariant
                0 <= i <= self.entries@.len(),
                lookup_last(self.entries.deep_view(), key@) == lookup_last(
                    self.entries.deep_view().take(i as int),
                    key@,
                ),
            decreases i,
        {
            proof {
                assert(self.entries.deep_view().take(i as int).last()
                    == self.entries.deep_view()[i - 1]);
                assert(self.entries.deep_view().take(i as int).drop_last()
                    =~= self.entries.deep_view().take(i - 1));
            }
            if crate::text::str_eq(self.entries[i - 1].0.as_str(), key) {
                return Some(&self.entries[i - 1].1);
            }
            i = i - 1;
        }
        proof {
            assert(self.entries.deep_view().take(0) =~= Seq::<(Seq<char>, Seq<char>)>::empty());
        }
        None
    }
}

/// The icon a desktop-entry file declares: the `Icon` value of the first
/// `Desktop Entry` section that has one. Reading it is a reserved hook; no
/// rendering is done with it yet.
pub open spec fn desktop_icon_spec(
    secs: Seq<(Seq<char>, Seq<(Seq<char>, Seq<char>)>)>,
) -> Option<Seq<char>>
    decreases secs.len(),
{
    if secs.len() == 0 {
        None
    } else if secs.first().0 == "Desktop Entry"@ && lookup_last(secs.first().1, "Icon"@)
        is Some {
        lookup_last(secs.first().1, "Icon"@)
    } else {
        desktop_icon_spec(secs.drop_first())
    }
}

/// The declared icon of a desktop-entry file, given as its lines.
pub fn desktop_icon(lines: &Vec<String>) -> (r: Option<String>)
    ensures
        match r {
            Some(v) => desktop_icon_spec(parse_spec(lines.deep_view())) == Some(v@),
            None => desktop_icon_spec(parse_spec(lines.deep_view())) == None::<Seq<char>>,
        },
{
    let secs = parse_config(lines);
    let ghost sv = secs.deep_view();
    let mut i: usize = 0;
    proof {
        assert(sv.skip(0) =~= sv);
    }
    while i < secs.len()
        invariant
            0 <= i <= secs@.len(),
            sv == secs.deep_view(),
            sv == parse_spec(lines.deep_view()),
            desktop_icon_spec(sv) == desktop_icon_spec(sv.skip(i as int)),
        decreases secs@.len() - i,
    {
        proof {
            assert(sv.skip(i as int).first() == sv[i as int]);
            assert(sv.skip(i as int).drop_first() =~= sv.skip(i + 1));
            assert(sv[i as int] == secs@[i as int].deep_view());
            assert(sv[i as int].0 == secs@[i as int].name@);
            assert(sv[i as int].1 == secs@[i as int].entries.deep_view());
        }
        if crate::text::str_eq(secs[i].name.as_str(), "Desktop Entry") {
            match secs[i].get("Icon") {
                Some(v) => {
                    return Some(v.clone());
                },
                None => {},
            }
        }
        i = i + 1;
    }
    None
}

/// Parse configuration lines into ordered sections. Any irregularity — a
/// non-header line where a header is expected, an entry line without `=`,
/// or a blank line not followed by a further header — yields zero sections.
pub fn parse_config(lines: &Vec<String>) -> (r: Vec<ConfigSection>)
    ensures
        r.deep_view() == parse_spec(lines.deep_view()),
{
    let ghost lv = lines.deep_view();
    let mut done: Vec<ConfigSection> = Vec::new();
    let mut in_section: bool = false;
    let mut cur_name: String = String::new();
    let mut cur_entries: Vec<(String, String)> = Vec::new();
    let mut after_blank: bool = false;
    let mut i: usize = 0;
    proof {
        assert(done.deep_view() =~= Seq::<(Seq<char>, Seq<(Seq<char>, Seq<char>)>)>::empty());
        assert(cur_entries.deep_view() =~= Seq::<(Seq<char>, Seq<char>)>::empty());
    }
    while i < lines.len()
        invariant
            0 <= i <= lines@.len(),
            lv == lines.deep_view(),
            parse_spec(lv) == if in_section {
                parse_e(lv, i as int, done.deep_view(), (cur_name@, cur_entries.deep_view()))
            } else {
                parse_h(lv, i as int, done.deep_view(), after_blank)
            },
        decreases lines@.len() - i,
    {
        proof {
            assert(lv[i as int] == lines@[i as int]@);
        }
        let ghost dv0 = done.deep_view();
        let ghost cv0 = (cur_name@, cur_entries.deep_view());
        let t = trim(lines[i].as_str());
        let tn = t.as_str().unicode_len();
        if tn == 0 {
            if in_section {
                done.push(ConfigSection { name: cur_name, entries: cur_entries });
                proof {
                    assert(done.deep_view() =~= dv0.push(cv0));
                }
                cur_name = String::new();
                cur_entries = Vec::new();
                in_section = false;
            }
            after_blank = true;
        } else if tn >= 3 && t.as_str().get_char(0) == '[' && t.as_str().get_char(tn - 1)
            == ']' {
            if in_section {
                done.push(ConfigSection { name: cur_name, entries: cur_entries });
                proof {
                    assert(done.deep_view() =~= dv0.push(cv0));
                }
            }
            cur_name = t.as_str().substring_char(1, tn - 1).to_owned();
            cur_entries = Vec::new();
            in_section = true;
            proof {
                assert(is_header_line(trim_spec(lv[i as int])));
                assert(cur_name@ =~= header_name(trim_spec(lv[i as int])));
                assert(cur_entries.deep_view() =~= Seq::<(Seq<char>, Seq<char>)>::empty());
            }
        } else {
            match find_char(t.as_str(), '=') {
                Some(k) => {
                    if !in_section {
                        proof {
                            assert(!is_header_line(trim_spec(lv[i as int])));
                        }
                        return Vec::new();
                    }
                    let ghost tv = t@;
                    let key = trim(t.as_str().substring_char(0, k));
                    let value = trim(t.as_str().substring_char(k + 1, tn));
                    proof {
                        assert(first_at(tv, '=', k as int));
                        let kk = choose|kk: int| first_at(tv, '=', kk);
                        crate::text::lemma_first_at_unique(tv, '=', kk, k as int);
                        assert(tv.take(kk) =~= tv.subrange(0, k as int));
                        assert(tv.skip(kk + 1) =~= tv.subrange(k + 1, tn as int));
                    }
                    cur_entries.push((key, value));
                    proof {
                        assert(cur_entries.deep_view() =~= cv0.1.push(entry_of(
                            trim_spec(lv[i as int]),
                        )));
                    }
                },
                None => {
                    proof {
                        assert(!is_header_line(trim_spec(lv[i as int])));
                        assert(!line_has_eq(trim_spec(lv[i as int])));
                    }
                    return Vec::new();
                },
            }
        }
        i = i + 1;
    }
    if in_section {
        let ghost dv0 = done.deep_view();
        let ghost cv0 = (cur_name@, cur_entries.deep_view());
        done.push(ConfigSection { name: cur_name, entries: cur_entries });
        proof {
            assert(done.deep_view() =~= dv0.push(cv0));
        }
        return done;
    }
    if after_blank {
        return Vec::new();
    }
    done
}

} // verus!
