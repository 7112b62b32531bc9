//! Showing the description of a package.
use crate::package::{depend_type_text, depend_views, DependSpec, PackageInfo};
use crate::text::{
    append_chars, char_views, chars_of, join, join_chars, lines, lines_chars, string_of,
};
use crate::control::string_views;
use crate::utils::shell::{color_text, color_txt};
use vstd::prelude::*;

verus! {

/// A detail line: the tag in green, then the text.
pub open spec fn info_line(tag: Seq<char>, text: Seq<char>) -> Seq<char> {
    color_text(tag, 0, 255, 0) + text
}

/// The description as shown: each of its lines indented by four spaces.
pub open spec fn description_text(desc: Seq<char>) -> Seq<char> {
    join(lines(desc).map_values(|l: Seq<char>| "    "@ + l), seq!['\n'])
}

/// How a dependency is listed: `    type: name(version: requirement)`.
pub open spec fn depend_line(d: DependSpec) -> Seq<char> {
    "    "@ + depend_type_text(d.depend_type) + ": "@ + d.name + "(version: "@ + d.version + ")\n"@
}

/// The dependency lines, one after another.
pub open spec fn depend_block(ds: Seq<DependSpec>) -> Seq<char>
    decreases ds.len(),
{
    if ds.len() == 0 {
        seq![]
    } else {
        depend_block(ds.drop_last()) + depend_line(ds.last())
    }
}

/// The architectures, each on an indented line of its own.
pub open spec fn arch_block(archs: Seq<Seq<char>>) -> Seq<char>
    decreases archs.len(),
{
    if archs.len() == 0 {
        seq![]
    } else {
        arch_block(archs.drop_last()) + "    "@ + archs.last() + seq!['\n']
    }
}

/// The lines that describe the package `info`, with `rendered` standing for
/// its description as rendered for the terminal.
pub open spec fn detail_text(info: PackageInfo, rendered: Seq<char>) -> Seq<Seq<char>> {
    seq![
        info_line("name: "@, info.about.name@ + " ("@ + info.about.id@ + ")"@),
        info_line("version: "@, info.about.version@),
        info_line("author: "@, info.about.author.name@ + " ("@ + info.about.author.id@ + ")"@),
        info_line("description: |\n"@, rendered),
        info_line("dependencies: |\n"@, depend_block(depend_views(info.about.dependencies@))),
        info_line("License: "@, info.about.license@),
        info_line("Architecture: "@, arch_block(string_views(info.about.architecture@))),
    ]
}

fn info_line_of(tag: &str, text: &[char]) -> (r: String)
    ensures
        r@ == info_line(tag@, text@),
{
    let mut acc = chars_of(color_txt(tag, 0, 255, 0).as_str());
    append_chars(&mut acc, text);
    string_of(acc.as_slice())
}

/// The description of `info` as it is given to the markdown renderer.
pub fn description_markdown(info: &PackageInfo) -> (r: String)
    ensures
        r@ == description_text(info.about.description@),
{
    let ls = lines_chars(chars_of(info.about.description.as_str()).as_slice());
    let ghost lv = char_views(ls@);
    let mut indented: Vec<Vec<char>> = Vec::new();
    let mut i: usize = 0;
    while i < ls.len()
        invariant
            i <= ls@.len(),
            lv == char_views(ls@),
            lv == lines(info.about.description@),
            char_views(indented@) == lv.take(i as int).map_values(|l: Seq<char>| "    "@ + l),
        decreases ls@.len() - i,
    {
        let mut line = chars_of("    ");
        append_chars(&mut line, ls[i].as_slice());
        let ghost old_v = char_views(indented@);
        indented.push(line);
        proof {
            assert(lv[i as int] == ls@[i as int]@);
            assert(lv.take(i + 1).map_values(|l: Seq<char>| "    "@ + l) =~= lv.take(i as int).map_values(
                |l: Seq<char>| "    "@ + l,
            ).push("    "@ + lv[i as int]));
            assert(char_views(indented@) =~= old_v.push(line@));
        }
        i += 1;
    }
    proof {
        assert(lv.take(i as int) =~= lv);
    }
    let nl = vec!['\n'];
    proof {
        assert(nl@ =~= seq!['\n']);
    }
    string_of(join_chars(&indented, nl.as_slice()).as_slice())
}

/// Renders markdown for the terminal (termimad's `inline` with its default
/// skin, formatted with `Display`). Nothing is claimed of the result: its
/// styling escapes depend on the `NO_COLOR` environment variable.
#[verifier::external_body]
fn render_markdown_inline(text: &str) -> (r: String) {
    format!("{}", termimad::inline(text))
}

/// The lines that describe `info`, with `rendered` as its rendered
/// description.
pub fn detail_lines(info: &PackageInfo, rendered: &str) -> (r: Vec<String>)
    ensures
        string_views(r@) == detail_text(*info, rendered@),
{
    let a = &info.about;
    let mut name = chars_of(a.name.as_str());
    append_chars(&mut name, chars_of(" (").as_slice());
    append_chars(&mut name, chars_of(a.id.as_str()).as_slice());
    append_chars(&mut name, chars_of(")").as_slice());
    let mut author = chars_of(a.author.name.as_str());
    append_chars(&mut author, chars_of(" (").as_slice());
    append_chars(&mut author, chars_of(a.author.id.as_str()).as_slice());
    append_chars(&mut author, chars_of(")").as_slice());
    let ghost dv = depend_views(a.dependencies@);
    let mut deps: Vec<char> = Vec::new();
    let mut i: usize = 0;
    proof {
        assert(dv.take(0) =~= Seq::<DependSpec>::empty());
    }
    while i < a.dependencies.len()
        invariant
            i <= a.dependencies@.len(),
            dv == depend_views(a.dependencies@),
            deps@ == depend_block(dv.take(i as int)),
        decreases a.dependencies@.len() - i,
    {
        let d = &a.dependencies[i];
        append_chars(&mut deps, chars_of("    ").as_slice());
        append_chars(&mut deps, chars_of(d.depend_type.to_string().as_str()).as_slice());
        append_chars(&mut deps, chars_of(": ").as_slice());
        append_chars(&mut deps, chars_of(d.name.as_str()).as_slice());
        append_chars(&mut deps, chars_of("(version: ").as_slice());
        append_chars(&mut deps, chars_of(d.version.as_str()).as_slice());
        append_chars(&mut deps, chars_of(")\n").as_slice());
        proof {
            assert(dv.take(i + 1).drop_last() =~= dv.take(i as int));
            assert(dv.take(i + 1).last() == d@);
            assert(deps@ =~= depend_block(dv.take(i as int)) + depend_line(d@));
        }
        i += 1;
    }
    proof {
        assert(dv.take(i as int) =~= dv);
    }
    let ghost av = string_views(a.architecture@);
    let mut archs: Vec<char> = Vec::new();
    let mut k: usize = 0;
    proof {
        assert(av.take(0) =~= Seq::<Seq<char>>::empty());
    }
    while k < a.architecture.len()
        invariant
            k <= a.architecture@.len(),
            av == string_views(a.architecture@),
            archs@ == arch_block(av.take(k as int)),
        decreases a.architecture@.len() - k,
    {
        append_chars(&mut archs, chars_of("    ").as_slice());
        append_chars(&mut archs, chars_of(a.architecture[k].as_str()).as_slice());
        archs.push('\n');
        proof {
            assert(av.take(k + 1).drop_last() =~= av.take(k as int));
            assert(av.take(k + 1).last() == a.architecture@[k as int]@);
            assert(archs@ =~= arch_block(av.take(k as int)) + "    "@ + a.architecture@[k as int]@
                + seq!['\n']);
        }
        k += 1;
    }
    proof {
        assert(av.take(k as int) =~= av);
    }
    let mut r: Vec<String> = Vec::new();
    r.push(info_line_of("name: ", name.as_slice()));
    r.push(info_line_of("version: ", chars_of(a.version.as_str()).as_slice()));
    r.push(info_line_of("author: ", author.as_slice()));
    r.push(info_line_of("description: |\n", chars_of(rendered).as_slice()));
    r.push(info_line_of("dependencies: |\n", deps.as_slice()));
    r.push(info_line_of("License: ", chars_of(a.license.as_str()).as_slice()));
    r.push(info_line_of("Architecture: ", archs.as_slice()));
    proof {
        assert(string_views(r@) =~= detail_text(*info, rendered@));
    }
    r
}

/// The lines that describe `info`, its description rendered as markdown.
/// All lines but the description's are fixed by `detail_text`; the
/// description line holds the tag and the rendered text.
pub fn show_from_info(info: &PackageInfo) -> (r: Vec<String>)
    ensures
        exists|rendered: Seq<char>| string_views(r@) == detail_text(*info, rendered),
{
    let md = description_markdown(info);
    let rendered = render_markdown_inline(md.as_str());
    detail_lines(info, rendered.as_str())
}

} // verus!
