//! The thumbnailer registry: configuration files are parsed, sections named
//! `Thumbnailer Entry` with non-empty `Exec` and `MimeType` keys register
//! each of their MIME types under the space-tokenized command template, a
//! later registration for the same type overriding an earlier one.
use vstd::prelude::*;

use crate::config::lookup_last;
use crate::config::parse_config;
use crate::config::parse_spec;
use crate::media::mime_parse_of;
use crate::media::parse_media_type;
use crate::media::MediaType;
use crate::text::clone_strings;
use crate::text::split_on;
use crate::text::split_spec;
use crate::text::str_eq;

verus! {

/// A registration: the essence of a media type and the command template it
/// maps to.
pub type RegEntryV = (Seq<char>, Seq<Seq<char>>);

/// The registrations one MIME list item contributes: one entry when it
/// parses as a media type, none otherwise.
pub open spec fn mime_item_entries(item: Seq<char>, tokens: Seq<Seq<char>>) -> Seq<RegEntryV> {
    match mime_parse_of(item) {
        Some(e) => seq![(e, tokens)],
        None => Seq::empty(),
    }
}

/// The registrations of a list of MIME items, in list order.
pub open spec fn mime_list_entries(items: Seq<Seq<char>>, tokens: Seq<Seq<char>>) -> Seq<
    RegEntryV,
>
    decreases items.len(),
{
    if items.len() == 0 {
        Seq::empty()
    } else {
        mime_item_entries(items.first(), tokens) + mime_list_entries(items.drop_first(), tokens)
    }
}

/// What one parsed section contributes to the registry: nothing unless it
/// is named `Thumbnailer Entry` and has non-empty `Exec` and `MimeType`
/// values; otherwise one registration per MIME list item that parses, under
/// the `Exec` value tokenized on single spaces.
pub open spec fn section_entries(sec: (Seq<char>, Seq<(Seq<char>, Seq<char>)>)) -> Seq<
    RegEntryV,
> {
    if sec.0 != "Thumbnailer Entry"@ {
        Seq::empty()
    } else {
        match lookup_last(sec.1, "Exec"@) {
            Some(exec) => {
                if exec.len() == 0 {
                    Seq::empty()
                } else {
                    match lookup_last(sec.1, "MimeType"@) {
                        Some(mimes) => {
                            if mimes.len() == 0 {
                                Seq::empty()
                            } else {
                                mime_list_entries(split_spec(mimes, ';'), split_spec(exec, ' '))
                            }
                        },
                        None => Seq::empty(),
                    }
                }
            },
            None => Seq::empty(),
        }
    }
}

/// The registrations of a sequence of sections, in file order.
pub open spec fn sections_entries(
    secs: Seq<(Seq<char>, Seq<(Seq<char>, Seq<char>)>)>,
) -> Seq<RegEntryV>
    decreases secs.len(),
{
    if secs.len() == 0 {
        Seq::empty()
    } else {
        section_entries(secs.first()) + sections_entries(secs.drop_first())
    }
}

/// The registrations of a sequence of configuration files, each given as
/// its lines, in scan order.
pub open spec fn files_entries(files: Seq<Seq<Seq<char>>>) -> Seq<RegEntryV>
    decreases files.len(),
{
    if files.len() == 0 {
        Seq::empty()
    } else {
        sections_entries(parse_spec(files.first())) + files_entries(files.drop_first())
    }
}

/// The command registered for `essence`: the last registration wins, as a
/// later configuration file overrides an earlier one.
pub open spec fn reg_lookup(entries: Seq<RegEntryV>, essence: Seq<char>) -> Option<Seq<Seq<char>>>
    decreases entries.len(),
{
    if entries.len() == 0 {
        None
    } else if entries.last().0 == essence {
        Some(entries.last().1)
    } else {
        reg_lookup(entries.drop_last(), essence)
    }
}

/// A section that lacks `Exec` or `MimeType`, or whose section name is not
/// `Thumbnailer Entry`, or whose values are empty, contributes no
/// registrations.
pub proof fn lemma_incomplete_section_contributes_nothing(
    sec: (Seq<char>, Seq<(Seq<char>, Seq<char>)>),
)
    requires
        lookup_last(sec.1, "Exec"@) matches None || lookup_last(sec.1, "Exec"@) == Some(
            Seq::<char>::empty(),
        ) || lookup_last(sec.1, "MimeType"@) matches None || lookup_last(sec.1, "MimeType"@)
            == Some(Seq::<char>::empty()) || sec.0 != "Thumbnailer Entry"@,
    ensures
        section_entries(sec) == Seq::<RegEntryV>::empty(),
{
}

proof fn lemma_mime_list_tokens(items: Seq<Seq<char>>, tokens: Seq<Seq<char>>)
    ensures
        forall|i: int|
            0 <= i < mime_list_entries(items, tokens).len() ==> #[trigger] mime_list_entries(
                items,
                tokens,
            )[i].1 == tokens,
    decreases items.len(),
{
    if items.len() > 0 {
        lemma_mime_list_tokens(items.drop_first(), tokens);
        let a = mime_item_entries(items.first(), tokens);
        let b = mime_list_entries(items.drop_first(), tokens);
        assert forall|i: int|
            0 <= i < mime_list_entries(items, tokens).len() implies #[trigger] mime_list_entries(
            items,
            tokens,
        )[i].1 == tokens by {
            if i < a.len() {
                assert((a + b)[i] == a[i]);
            } else {
                assert((a + b)[i] == b[i - a.len()]);
            }
        }
    }
}

proof fn lemma_section_commands_nonempty(sec: (Seq<char>, Seq<(Seq<char>, Seq<char>)>))
    ensures
        forall|i: int|
            0 <= i < section_entries(sec).len() ==> #[trigger] section_entries(sec)[i].1.len()
                >= 1,
{
    if sec.0 == "Thumbnailer Entry"@ {
        match lookup_last(sec.1, "Exec"@) {
            Some(exec) => {
                if exec.len() > 0 {
                    match lookup_last(sec.1, "MimeType"@) {
                        Some(mimes) => {
                            if mimes.len() > 0 {
                                crate::text::lemma_split_len(exec, ' ');
                                lemma_mime_list_tokens(
                                    split_spec(mimes, ';'),
                                    split_spec(exec, ' '),
                                );
                            }
                        },
                        None => {},
                    }
                }
            },
            None => {},
        }
    }
}

proof fn lemma_sections_commands_nonempty(secs: Seq<(Seq<char>, Seq<(Seq<char>, Seq<char>)>)>)
    ensures
        forall|i: int|
            0 <= i < sections_entries(secs).len() ==> #[trigger] sections_entries(
                secs,
            )[i].1.len() >= 1,
    decreases secs.len(),
{
    if secs.len() > 0 {
        lemma_section_commands_nonempty(secs.first());
        lemma_sections_commands_nonempty(secs.drop_first());
        let a = section_entries(secs.first());
        let b = sections_entries(secs.drop_first());
        assert forall|i: int|
            0 <= i < sections_entries(secs).len() implies #[trigger] sections_entries(
            secs,
        )[i].1.len() >= 1 by {
            if i < a.len() {
                assert((a + b)[i] == a[i]);
            } else {
                assert((a + b)[i] == b[i - a.len()]);
            }
        }
    }
}

/// Every command a built registry registers has at least a program name,
/// since it was tokenized from a non-empty `Exec` value.
pub proof fn lemma_registry_commands_nonempty(files: Seq<Seq<Seq<char>>>)
    ensures
        forall|i: int|
            0 <= i < files_entries(files).len() ==> #[trigger] files_entries(files)[i].1.len()
                >= 1,
    decreases files.len(),
{
    if files.len() > 0 {
        lemma_sections_commands_nonempty(parse_spec(files.first()));
        lemma_registry_commands_nonempty(files.drop_first());
        let a = sections_entries(parse_spec(files.first()));
        let b = files_entries(files.drop_first());
        assert forall|i: int|
            0 <= i < files_entries(files).len() implies #[trigger] files_entries(
            files,
        )[i].1.len() >= 1 by {
            if i < a.len() {
                assert((a + b)[i] == a[i]);
            } else {
                assert((a + b)[i] == b[i - a.len()]);
            }
        }
    }
}

proof fn lemma_reg_lookup_member(entries: Seq<RegEntryV>, essence: Seq<char>)
    ensures
        match reg_lookup(entries, essence) {
            Some(cmd) => exists|i: int|
                0 <= i < entries.len() && #[trigger] entries[i] == (essence, cmd),
            None => true,
        },
    decreases entries.len(),
{
    if entries.len() > 0 {
        if entries.last().0 == essence {
            assert(entries[entries.len() - 1] == (essence, entries.last().1));
        } else {
            lemma_reg_lookup_member(entries.drop_last(), essence);
            match reg_lookup(entries.drop_last(), essence) {
                Some(cmd) => {
                    let i = choose|i: int|
                        0 <= i < entries.drop_last().len() && #[trigger] entries.drop_last()[i]
                            == (essence, cmd);
                    assert(entries[i] == (essence, cmd));
                },
                None => {},
            }
        }
    }
}

/// On a registry built from configuration files, an external invocation is
/// planned exactly when the media type is registered: a registered command
/// always has a program name to run.
pub proof fn lemma_built_registry_plans_registered_types(
    files: Seq<Seq<Seq<char>>>,
    essence: Seq<char>,
    input: Seq<char>,
    output: Seq<char>,
    size: int,
)
    ensures
        crate::invoke::plan_spec(files_entries(files), essence, input, output, size) is Some
            <==> reg_lookup(files_entries(files), essence) is Some,
{
    lemma_registry_commands_nonempty(files);
    lemma_reg_lookup_member(files_entries(files), essence);
    let entries = files_entries(files);
    match reg_lookup(entries, essence) {
        Some(cmd) => {
            let i = choose|i: int|
                0 <= i < entries.len() && #[trigger] entries[i] == (essence, cmd);
            assert(entries[i].1.len() >= 1);
        },
        None => {},
    }
}

/// The registry, as the ordered sequence of registrations its configuration
/// files produced.
pub struct ThumbnailerRegistry {
    pub entries: Vec<(MediaType, Vec<String>)>,
}

impl View for ThumbnailerRegistry {
    type V = Seq<RegEntryV>;

    open spec fn view(&self) -> Seq<RegEntryV> {
        self.entries.deep_view()
    }
}

impl ThumbnailerRegistry {
    /// The empty registry.
    pub fn new() -> (r: ThumbnailerRegistry)
        ensures
            r@ == Seq::<RegEntryV>::empty(),
    {
        let r = ThumbnailerRegistry { entries: Vec::new() };
        proof {
            assert(r@ =~= Seq::<RegEntryV>::empty());
        }
        r
    }

    /// Add the registrations of one configuration file, given as its lines.
    pub fn add_config_file(&mut self, lines: &Vec<String>)
        ensures
            final(self)@ == old(self)@ + sections_entries(parse_spec(lines.deep_view())),
    {
        let secs = parse_config(lines);
        let ghost sv = secs.deep_view();
        let ghost base = self@;
        let mut i: usize = 0;
        proof {
            assert(sv.skip(0) =~= sv);
            assert(self@ + sections_entries(sv) =~= base + sections_entries(sv));
        }
        while i < secs.len()
            invariant
                0 <= i <= secs@.len(),
                sv == secs.deep_view(),
                base + sections_entries(sv) == self@ + sections_entries(sv.skip(i as int)),
            decreases secs@.len() - i,
        {
            proof {
                assert(sv.skip(i as int).first() == sv[i as int]);
                assert(sv.skip(i as int).drop_first() =~= sv.skip(i + 1));
            }
            self.add_section(&secs[i]);
            i = i + 1;
        }
        proof {
            assert(sections_entries(sv.skip(secs@.len() as int)) =~= Seq::<RegEntryV>::empty());
            assert(self@ + Seq::<RegEntryV>::empty() =~= self@);
            assert(base + sections_entries(parse_spec(lines.deep_view())) =~= self@);
        }
    }

    /// Add the registrations of one parsed section.
    pub fn add_section(&mut self, sec: &crate::config::ConfigSection)
        ensures
            final(self)@ == old(self)@ + section_entries(sec.deep_view()),
    {
        let ghost base = self@;
        if !str_eq(sec.name.as_str(), "Thumbnailer Entry") {
            proof {
                assert(base + section_entries(sec.deep_view()) =~= self@);
            }
            return ;
        }
        let exec = match sec.get("Exec") {
            Some(e) => e.clone(),
            None => {
                proof {
                    assert(base + section_entries(sec.deep_view()) =~= self@);
                }
                return ;
            },
        };
        if exec.as_str().unicode_len() == 0 {
            proof {
                assert(exec@ =~= Seq::<char>::empty());
                assert(base + section_entries(sec.deep_view()) =~= self@);
            }
            return ;
        }
        let mimes = match sec.get("MimeType") {
            Some(m) => m.clone(),
            None => {
                proof {
                    assert(base + section_entries(sec.deep_view()) =~= self@);
                }
                return ;
            },
        };
        if mimes.as_str().unicode_len() == 0 {
            proof {
                assert(mimes@ =~= Seq::<char>::empty());
                assert(base + section_entries(sec.deep_view()) =~= self@);
            }
            return ;
        }
        let tokens = split_on(exec.as_str(), ' ');
        let items = split_on(mimes.as_str(), ';');
        let ghost iv = items.deep_view();
        let ghost tv = tokens.deep_view();
        let mut i: usize = 0;
        proof {
            assert(iv.skip(0) =~= iv);
            assert(base + mime_list_entries(iv, tv) =~= self@ + mime_list_entries(iv, tv));
        }
        while i < items.len()
            invariant
                0 <= i <= items@.len(),
                iv == items.deep_view(),
                tv == tokens.deep_view(),
                base + mime_list_entries(iv, tv) == self@ + mime_list_entries(
                    iv.skip(i as int),
                    tv,
                ),
            decreases items@.len() - i,
        {
            proof {
                assert(iv.skip(i as int).first() == iv[i as int]);
                assert(iv.skip(i as int).drop_first() =~= iv.skip(i + 1));
            }
            match parse_media_type(items[i].as_str()) {
                Some(mt) => {
                    let ghost before = self@;
                    self.entries.push((mt, clone_strings(&tokens)));
                    proof {
                        assert(self@ =~= before.push((mime_parse_of(iv[i as int]).unwrap(), tv)));
                        assert(before.push((mime_parse_of(iv[i as int]).unwrap(), tv))
                            =~= before + mime_item_entries(iv[i as int], tv));
                    }
                },
                None => {
                    proof {
                        assert(self@ + Seq::<RegEntryV>::empty() =~= self@);
                    }
                },
            }
            i = i + 1;
        }
        proof {
            assert(mime_list_entries(iv.skip(items@.len() as int), tv) =~= Seq::<
                RegEntryV,
            >::empty());
            assert(self@ + Seq::<RegEntryV>::empty() =~= self@);
            assert(base + section_entries(sec.deep_view()) =~= self@);
        }
    }

    /// Build a registry from the configuration files of the scanned system
    /// directories, each file given as its lines, in scan order.
    pub fn build(files: &Vec<Vec<String>>) -> (r: ThumbnailerRegistry)
        ensures
            r@ == files_entries(files.deep_view()),
    {
        let ghost fv = files.deep_view();
        let mut r = ThumbnailerRegistry::new();
        let mut i: usize = 0;
        proof {
            assert(fv.skip(0) =~= fv);
            assert(r@ + files_entries(fv) =~= files_entries(fv));
        }
        while i < files.len()
            invariant
                0 <= i <= files@.len(),
                fv == files.deep_view(),
                files_entries(fv) == r@ + files_entries(fv.skip(i as int)),
            decreases files@.len() - i,
        {
            proof {
                assert(fv.skip(i as int).first() == fv[i as int]);
                assert(fv.skip(i as int).drop_first() =~= fv.skip(i + 1));
            }
            r.add_config_file(&files[i]);
            i = i + 1;
        }
        proof {
            assert(files_entries(fv.skip(files@.len() as int)) =~= Seq::<RegEntryV>::empty());
            assert(r@ + Seq::<RegEntryV>::empty() =~= r@);
        }
        r
    }

    /// The command template registered for a media type, the last
    /// registration winning; `None` when the type is not registered.
    pub fn lookup(&self, mt: &MediaType) -> (r: Option<&Vec<String>>)
        ensures
            match r {
                Some(v) => reg_lookup(self@, mt@) == Some(v.deep_view()),
                None => reg_lookup(self@, mt@) == None::<Seq<Seq<char>>>,
            },
    {
        let mut i: usize = self.entries.len();
        proof {
            assert(self@.take(i as int) =~= self@);
        }
        while i > 0
            invariant
                0 <= i <= self.entries@.len(),
                reg_lookup(self@, mt@) == reg_lookup(self@.take(i as int), mt@),
            decreases i,
        {
            proof {
                assert(self@.take(i as int).last() == self@[i - 1]);
                assert(self@.take(i as int).drop_last() =~= self@.take(i - 1));
            }
            if self.entries[i - 1].0.same_as(mt) {
                return Some(&self.entries[i - 1].1);
            }
            i = i - 1;
        }
        proof {
            assert(self@.take(0) =~= Seq::<RegEntryV>::empty());
        }
        None
    }
}

} // verus!
