//! Planning of an external thumbnailer invocation: choosing a collision-free
//! output name, substituting the `%u`, `%o` and `%s` placeholders into the
//! registered command template, and appending the input and output paths
//! when the template never names them.
use vstd::prelude::*;
use vstd::string::*;

use crate::media::MediaType;
use crate::registry::reg_lookup;
use crate::registry::ThumbnailerRegistry;
use crate::text::dec_spec;
use crate::text::str_eq;
use crate::text::u32_to_dec;

verus! {

/// One template argument after substitution: `%u` becomes the input path,
/// `%o` the output path, `%s` the decimal size; anything else is literal.
pub open spec fn subst_one(a: Seq<char>, input: Seq<char>, output: Seq<char>, size: int) -> Seq<
    char,
> {
    if a == "%u"@ {
        input
    } else if a == "%o"@ {
        output
    } else if a == "%s"@ {
        dec_spec(size)
    } else {
        a
    }
}

/// Whether the template contains the placeholder `ph`.
pub open spec fn uses_placeholder(tpl: Seq<Seq<char>>, ph: Seq<char>) -> bool {
    exists|i: int| 0 <= i < tpl.len() && tpl[i] == ph
}

/// The substituted argument list: every placeholder replaced; when the
/// template never uses `%u` or `%o`, the input path and then the output
/// path are appended, so every invocation still receives them.
pub open spec fn subst_spec(
    tpl: Seq<Seq<char>>,
    input: Seq<char>,
    output: Seq<char>,
    size: int,
) -> Seq<Seq<char>> {
    let mapped = tpl.map_values(|a: Seq<char>| subst_one(a, input, output, size));
    let with_input = if uses_placeholder(tpl, "%u"@) {
        mapped
    } else {
        mapped.push(input)
    };
    if uses_placeholder(tpl, "%o"@) {
        with_input
    } else {
        with_input.push(output)
    }
}

/// Substitute the placeholders of a command template's argument list.
pub fn substitute_args(template: &Vec<String>, input: &str, output: &str, size: u32) -> (r: Vec<
    String,
>)
    ensures
        r.deep_view() == subst_spec(template.deep_view(), input@, output@, size as int),
{
    let ghost tv = template.deep_view();
    let ghost mapped = tv.map_values(
        |a: Seq<char>| subst_one(a, input@, output@, size as int),
    );
    let mut out: Vec<String> = Vec::new();
    let mut used_input: bool = false;
    let mut used_output: bool = false;
    let mut i: usize = 0;
    proof {
        reveal_strlit("%u");
        reveal_strlit("%o");
        reveal_strlit("%s");
        assert("%u"@.len() == 2 && "%o"@.len() == 2 && "%s"@.len() == 2);
        assert("%u"@[1] == 'u' && "%o"@[1] == 'o' && "%s"@[1] == 's');
        assert("%u"@ != "%o"@ && "%u"@ != "%s"@ && "%o"@ != "%s"@);
    }
    while i < template.len()
        invariant
            0 <= i <= template@.len(),
            tv == template.deep_view(),
            "%u"@ != "%o"@ && "%u"@ != "%s"@ && "%o"@ != "%s"@,
            mapped == tv.map_values(|a: Seq<char>| subst_one(a, input@, output@, size as int)),
            out@.len() == i,
            forall|j: int| 0 <= j < i ==> out.deep_view()[j] == mapped[j],
            used_input == uses_placeholder(tv.take(i as int), "%u"@),
            used_output == uses_placeholder(tv.take(i as int), "%o"@),
        decreases template@.len() - i,
    {
        let arg = &template[i];
        proof {
            assert(tv[i as int] == template@[i as int]@);
        }
        if str_eq(arg.as_str(), "%u") {
            out.push(input.to_owned());
            used_input = true;
        } else if str_eq(arg.as_str(), "%o") {
            out.push(output.to_owned());
            used_output = true;
        } else if str_eq(arg.as_str(), "%s") {
            out.push(u32_to_dec(size));
        } else {
            out.push(arg.clone());
        }
        proof {
            if tv[i as int] != "%u"@ {
                assert(uses_placeholder(tv.take(i + 1), "%u"@) == uses_placeholder(
                    tv.take(i as int),
                    "%u"@,
                )) by {
                    assert(forall|j: int|
                        0 <= j < i + 1 && #[trigger] tv.take(i + 1)[j] == "%u"@ ==> (j < i
                            && tv.take(i as int)[j] == "%u"@));
                    assert(forall|j: int|
                        0 <= j < i && #[trigger] tv.take(i as int)[j] == "%u"@ ==> tv.take(
                            i + 1,
                        )[j] == "%u"@);
                }
            } else {
                assert(tv.take(i + 1)[i as int] == "%u"@);
            }
            if tv[i as int] != "%o"@ {
                assert(uses_placeholder(tv.take(i + 1), "%o"@) == uses_placeholder(
                    tv.take(i as int),
                    "%o"@,
                )) by {
                    assert(forall|j: int|
                        0 <= j < i + 1 && #[trigger] tv.take(i + 1)[j] == "%o"@ ==> (j < i
                            && tv.take(i as int)[j] == "%o"@));
                    assert(forall|j: int|
                        0 <= j < i && #[trigger] tv.take(i as int)[j] == "%o"@ ==> tv.take(
                            i + 1,
                        )[j] == "%o"@);
                }
            } else {
                assert(tv.take(i + 1)[i as int] == "%o"@);
            }
        }
        i = i + 1;
    }
    proof {
        assert(tv.take(template@.len() as int) =~= tv);
        assert(out.deep_view() =~= mapped);
    }
    if !used_input {
        out.push(input.to_owned());
    }
    if !used_output {
        out.push(output.to_owned());
    }
    proof {
        assert(out.deep_view() =~= subst_spec(tv, input@, output@, size as int));
    }
    out
}

/// The candidate output file name for probe attempt `count`.
pub open spec fn output_name_spec(count: int) -> Seq<char> {
    "thumbnail_output"@ + dec_spec(count)
}

/// The output name to probe on attempt `count`: `thumbnail_output0`,
/// `thumbnail_output1`, ... until an unused one is found.
pub fn output_name(count: u32) -> (r: String)
    ensures
        r@ == output_name_spec(count as int),
{
    let mut s = String::from_str("thumbnail_output");
    let d = u32_to_dec(count);
    s.append(d.as_str());
    s
}

/// The planned invocation for a media type: `None` when no thumbnailer is
/// registered for it (or the registered template is empty), else the
/// program name and its substituted arguments.
pub open spec fn plan_spec(
    entries: Seq<crate::registry::RegEntryV>,
    essence: Seq<char>,
    input: Seq<char>,
    output: Seq<char>,
    size: int,
) -> Option<(Seq<char>, Seq<Seq<char>>)> {
    match reg_lookup(entries, essence) {
        None => None,
        Some(cmd) => if cmd.len() == 0 {
            None
        } else {
            Some((cmd.first(), subst_spec(cmd.drop_first(), input, output, size)))
        },
    }
}

/// Plan the external invocation for `mt`: look up its command template and
/// substitute the placeholders. The caller spawns the program with the
/// returned arguments and stdio suppressed.
pub fn plan_invocation(
    registry: &ThumbnailerRegistry,
    mt: &MediaType,
    input: &str,
    output: &str,
    size: u32,
) -> (r: Option<(String, Vec<String>)>)
    ensures
        match r {
            Some(pr) => plan_spec(registry@, mt@, input@, output@, size as int) == Some(
                (pr.0@, pr.1.deep_view()),
            ),
            None => plan_spec(registry@, mt@, input@, output@, size as int) == None::<
                (Seq<char>, Seq<Seq<char>>),
            >,
        },
{
    let cmd = match registry.lookup(mt) {
        Some(c) => c,
        None => {
            return None;
        },
    };
    if cmd.len() == 0 {
        proof {
            assert(cmd.deep_view().len() == cmd@.len());
        }
        return None;
    }
    let program = cmd[0].clone();
    let mut rest: Vec<String> = Vec::new();
    let mut j: usize = 1;
    proof {
        assert(rest.deep_view() =~= cmd.deep_view().subrange(1, 1));
    }
    while j < cmd.len()
        invariant
            1 <= j <= cmd@.len(),
            rest@.len() == j - 1,
            rest.deep_view() == cmd.deep_view().subrange(1, j as int),
        decreases cmd@.len() - j,
    {
        rest.push(cmd[j].clone());
        proof {
            assert(rest.deep_view() =~= cmd.deep_view().subrange(1, j + 1));
        }
        j = j + 1;
    }
    proof {
        assert(rest.deep_view() =~= cmd.deep_view().drop_first());
    }
    let args = substitute_args(&rest, input, output, size);
    Some((program, args))
}

} // verus!
