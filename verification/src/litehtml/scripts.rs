//! The programs that render, capture and cut pages: their arguments and outcomes.

use crate::error::{DevError, ErrorView};
use crate::harness::kv::{from_utf8_lossy, lossy};
use crate::litehtml::manifest::{Defaults, FixtureEntry};
use crate::number::double::Double;
use crate::number::shortest::shortest_text;
use crate::number::arith::of_int;
use crate::numeral::{nat_text, u64_text, usize_text};
use crate::text::{clone_or, lines, lines_of, opt_str, opt_view, same, text_or, views};
use vstd::prelude::*;

verus! {

/// The mode in which a fixture is rendered.
pub open spec fn mode_of(f: FixtureEntry, d: Defaults) -> Seq<char> {
    text_or(opt_view(f.mode), d.mode@)
}

/// The arguments of the renderer.
pub fn pipeline_args(fixture: &FixtureEntry, defaults: &Defaults, html: &str, output_dir: &str) -> (r:
    Vec<String>)
    ensures
        views(r@) == seq![html@, "--output-dir"@, output_dir@] + (if mode_of(*fixture, *defaults)
            == "ahem"@ {
            seq!["--fixture"@]
        } else {
            Seq::empty()
        }),
{
    let mode = clone_or(&fixture.mode, defaults.mode.as_str());
    let mut r = vec![html.to_owned(), "--output-dir".to_owned(), output_dir.to_owned()];
    if same(mode.as_str(), "ahem") {
        r.push("--fixture".to_owned());
    }
    assert(views(r@) =~= seq![html@, "--output-dir"@, output_dir@] + (if mode_of(
        *fixture,
        *defaults,
    ) == "ahem"@ {
        seq!["--fixture"@]
    } else {
        Seq::empty()
    }));
    r
}

/// The arguments of the capture: the script, the page, where its image and its
/// boxes go, and the width of the viewport.
pub fn capture_args(
    fixture: &FixtureEntry,
    defaults: &Defaults,
    script: &str,
    html: &str,
    image: &str,
    boxes: &str,
) -> (r: Vec<String>)
    ensures
        views(r@) == seq![
            script@,
            html@,
            image@,
            boxes@,
            nat_text(
                match fixture.viewport_width {
                    Some(w) => w as nat,
                    None => defaults.viewport_width as nat,
                },
            ),
        ],
{
    let width: u32 = match fixture.viewport_width {
        Some(w) => w,
        None => defaults.viewport_width,
    };
    let r = vec![
        script.to_owned(),
        html.to_owned(),
        image.to_owned(),
        boxes.to_owned(),
        u64_text(width as u64),
    ];
    assert(views(r@) =~= seq![script@, html@, image@, boxes@, nat_text(width as nat)]);
    r
}

/// The ratio as text: what is configured, else two.
pub open spec fn ratio_text(ratio: Option<Double>) -> Seq<char> {
    match ratio {
        Some(x) => shortest_text(x@),
        None => shortest_text(of_int(2)),
    }
}

/// The arguments that prepare a page.
pub fn prepare_args(
    script: &str,
    input: &str,
    output: &str,
    cache_dir: &str,
    ahem_font: &str,
    ratio: Option<Double>,
) -> (r: Vec<String>)
    ensures
        views(r@) == seq![
            script@,
            "prepare"@,
            input@,
            output@,
            "--cache-dir"@,
            cache_dir@,
            "--ahem-font"@,
            ahem_font@,
            "--fallback-aspect-ratio"@,
            ratio_text(ratio),
        ],
{
    let ratio_arg = match ratio {
        Some(x) => x.shortest(),
        None => Double::of_i64(2).shortest(),
    };
    let r = vec![
        script.to_owned(),
        "prepare".to_owned(),
        input.to_owned(),
        output.to_owned(),
        "--cache-dir".to_owned(),
        cache_dir.to_owned(),
        "--ahem-font".to_owned(),
        ahem_font.to_owned(),
        "--fallback-aspect-ratio".to_owned(),
        ratio_arg,
    ];
    assert(views(r@) =~= seq![
        script@,
        "prepare"@,
        input@,
        output@,
        "--cache-dir"@,
        cache_dir@,
        "--ahem-font"@,
        ahem_font@,
        "--fallback-aspect-ratio"@,
        ratio_text(ratio),
    ]);
    r
}

/// The arguments that cut a part out of a page, and the line that announces it:
/// what a selector finds, or a range.
pub fn extract_args(
    script: &str,
    input: &str,
    input_path: &str,
    output_path: &str,
    selector: Option<&str>,
    from: Option<&str>,
    to: Option<&str>,
) -> (r: Result<(Vec<String>, String), DevError>)
    ensures
        match (opt_str(selector), opt_str(from), opt_str(to)) {
            (Some(sel), _, _) => r matches Ok(v) && views(v.0@) == seq![
                script@,
                "extract"@,
                input_path@,
                output_path@,
                "--selector"@,
                sel,
            ] && v.1@ == "extracting '"@ + sel + "' from "@ + input@,
            (None, Some(f), Some(t)) => r matches Ok(v) && views(v.0@) == seq![
                script@,
                "extract"@,
                input_path@,
                output_path@,
                "--from"@,
                f,
                "--to"@,
                t,
            ] && v.1@ == "extracting range from "@ + input@,
            _ => r matches Err(e) && e@ == ErrorView::Config("specify --selector or --from/--to"@),
        },
{
    let mut args = vec![
        script.to_owned(),
        "extract".to_owned(),
        input_path.to_owned(),
        output_path.to_owned(),
    ];
    match (selector, from, to) {
        (Some(sel), _, _) => {
            args.push("--selector".to_owned());
            args.push(sel.to_owned());
            assert(views(args@) =~= seq![
                script@,
                "extract"@,
                input_path@,
                output_path@,
                "--selector"@,
                sel@,
            ]);
            let mut label = "extracting '".to_owned();
            label.append(sel);
            label.append("' from ");
            label.append(input);
            Ok((args, label))
        },
        (None, Some(f), Some(t)) => {
            args.push("--from".to_owned());
            args.push(f.to_owned());
            args.push("--to".to_owned());
            args.push(t.to_owned());
            assert(views(args@) =~= seq![
                script@,
                "extract"@,
                input_path@,
                output_path@,
                "--from"@,
                f@,
                "--to"@,
                t@,
            ]);
            let mut label = "extracting range from ".to_owned();
            label.append(input);
            Ok((args, label))
        },
        _ => Err(DevError::Config("specify --selector or --from/--to".to_owned())),
    }
}

/// The arguments that outline a page.
pub fn outline_args(script: &str, input: &str, depth: usize, full: bool, selectors: bool) -> (r: Vec<
    String,
>)
    ensures
        views(r@) == seq![script@, "outline"@, input@, "--depth"@, nat_text(depth as nat)] + (
        if full {
            seq!["--full"@]
        } else {
            Seq::empty()
        }) + (if selectors {
            seq!["--selectors"@]
        } else {
            Seq::empty()
        }),
{
    let mut r = vec![
        script.to_owned(),
        "outline".to_owned(),
        input.to_owned(),
        "--depth".to_owned(),
        usize_text(depth),
    ];
    if full {
        r.push("--full".to_owned());
    }
    if selectors {
        r.push("--selectors".to_owned());
    }
    assert(views(r@) =~= seq![script@, "outline"@, input@, "--depth"@, nat_text(depth as nat)] + (
    if full {
        seq!["--full"@]
    } else {
        Seq::empty()
    }) + (if selectors {
        seq!["--selectors"@]
    } else {
        Seq::empty()
    }));
    r
}

/// The lines that are not empty, each behind two blanks.
pub open spec fn indented(ls: Seq<Seq<char>>) -> Seq<Seq<char>>
    decreases ls.len(),
{
    if ls.len() == 0 {
        Seq::empty()
    } else if ls.last().len() == 0 {
        indented(ls.drop_last())
    } else {
        indented(ls.drop_last()).push("  "@ + ls.last())
    }
}

/// Writes what a program said on its error stream, line by line.
pub fn warning_lines(stderr: &[u8]) -> (r: Vec<String>)
    ensures
        views(r@) == indented(lines_of(lossy(stderr@))),
{
    let text = from_utf8_lossy(stderr);
    indent_lines(text.as_str())
}

/// Writes the lines of a text that are not empty, each behind two blanks.
pub fn indent_lines(text: &str) -> (r: Vec<String>)
    ensures
        views(r@) == indented(lines_of(text@)),
{
    let ls = lines(text);
    let ghost all = lines_of(text@);
    let mut out: Vec<String> = Vec::new();
    let mut i: usize = 0;
    assert(views(out@) =~= indented(all.take(0)));
    while i < ls.len()
        invariant
            i <= ls@.len(),
            views(ls@) == all,
            views(out@) == indented(all.take(i as int)),
        decreases ls@.len() - i,
    {
        assert(all.take(i + 1).drop_last() =~= all.take(i as int));
        assert(all[i as int] == ls@[i as int]@);
        let ghost before = views(out@);
        if ls[i].as_str().unicode_len() > 0 {
            let mut line = "  ".to_owned();
            line.append(ls[i].as_str());
            out.push(line);
            assert(views(out@) =~= before.push(line@));
        }
        i += 1;
    }
    assert(all.take(i as int) =~= all);
    out
}

/// The outcome of a program that works on a page: nothing where it succeeded,
/// else that it failed for the page.
pub fn finish_script(action: &str, input: &str, success: bool) -> (r: Result<(), DevError>)
    ensures
        success <==> r is Ok,
        r matches Err(e) ==> e@ == ErrorView::Verify(action@ + " failed for "@ + input@),
{
    if success {
        return Ok(());
    }
    let mut m = action.to_owned();
    m.append(" failed for ");
    m.append(input);
    Err(DevError::Verify(m))
}

/// The outcome of a program that works on a fixture, with what it said.
pub fn finish_fixture(action: &str, id: &str, success: bool, stderr: &[u8]) -> (r: Result<(), DevError>)
    ensures
        success <==> r is Ok,
        r matches Err(e) ==> e@ == ErrorView::Verify(
            action@ + " failed for "@ + id@ + ": "@ + lossy(stderr@),
        ),
{
    if success {
        return Ok(());
    }
    let mut m = action.to_owned();
    m.append(" failed for ");
    m.append(id);
    m.append(": ");
    m.append(from_utf8_lossy(stderr).as_str());
    Err(DevError::Verify(m))
}

/// Refuses a file that is not there.
pub fn require_file(what: &str, path: &str, exists: bool) -> (r: Result<(), DevError>)
    ensures
        exists <==> r is Ok,
        r matches Err(e) ==> e@ == ErrorView::Config(what@ + " not found: "@ + path@),
{
    if exists {
        return Ok(());
    }
    let mut m = what.to_owned();
    m.append(" not found: ");
    m.append(path);
    Err(DevError::Config(m))
}

/// The lines of an output: empty ones are left out, and the others keep their order.
pub proof fn lines_are_indented(ls: Seq<Seq<char>>)
    ensures
        indented(ls) == ls.filter(|l: Seq<char>| l.len() > 0).map_values(
            |l: Seq<char>| "  "@ + l,
        ),
    decreases ls.len(),
{
    reveal(Seq::filter);
    let full = |l: Seq<char>| l.len() > 0;
    let shifted = |l: Seq<char>| "  "@ + l;
    if ls.len() > 0 {
        lines_are_indented(ls.drop_last());
        let front = ls.drop_last().filter(full);
        assert(front.push(ls.last()).map_values(shifted) =~= front.map_values(shifted).push(
            "  "@ + ls.last(),
        ));
    } else {
        assert(ls.filter(full).map_values(shifted) =~= Seq::empty());
    }
}

/// A fixture is rendered in its own mode where it has one, and else in that of all.
pub proof fn own_mode_counts(f: FixtureEntry, d: Defaults)
    ensures
        f.mode matches Some(m) ==> mode_of(f, d) == m@,
        f.mode is None ==> mode_of(f, d) == d.mode@,
{
}

} // verus!
