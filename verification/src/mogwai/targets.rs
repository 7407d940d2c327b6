//! From the name of a target to what is built for it.

use crate::error::{DevError, ErrorView};
use crate::mogwai::{longest, longest_name, named, names_in, names_of, MogwaiConfig, MogwaiTarget};
use crate::text::{clone_opt, copy_texts, join, joined, opt_view, pad_right, padded_right, views};
use vstd::prelude::*;

verus! {

/// What cargo is asked to build.
pub struct BuildConfig {
    pub package: Option<String>,
    pub bin: Option<String>,
    pub example: Option<String>,
    pub features: Vec<String>,
    pub default_features: bool,
    pub profile: &'static str,
}

/// The contents of a [`BuildConfig`].
pub ghost struct BuildView {
    pub package: Option<Seq<char>>,
    pub bin: Option<Seq<char>>,
    pub example: Option<Seq<char>>,
    pub features: Seq<Seq<char>>,
    pub default_features: bool,
    pub profile: Seq<char>,
}

impl View for BuildConfig {
    type V = BuildView;

    open spec fn view(&self) -> BuildView {
        BuildView {
            package: opt_view(self.package),
            bin: opt_view(self.bin),
            example: opt_view(self.example),
            features: views(self.features@),
            default_features: self.default_features,
            profile: self.profile@,
        }
    }
}

/// What is built, and the name that its rows are filed under.
pub struct Resolved {
    pub name: String,
    pub build: BuildConfig,
}

/// The section of a mogwai project, which must be there.
pub fn config(section: Option<&MogwaiConfig>) -> (r: Result<&MogwaiConfig, DevError>)
    ensures
        match section {
            Some(c) => r == Ok::<&MogwaiConfig, DevError>(c),
            None => r matches Err(e) && e@ == ErrorView::Config(
                "no [mogwai] section in brokkr.toml\n  add:\n\n  [mogwai]\n  package = \"mogwai-cli\"\n  bin = \"mogwai\""@,
            ),
        },
{
    match section {
        Some(c) => Ok(c),
        None => Err(
            DevError::Config(
                "no [mogwai] section in brokkr.toml\n  add:\n\n  [mogwai]\n  package = \"mogwai-cli\"\n  bin = \"mogwai\"".to_owned(),
            ),
        ),
    }
}

/// The package of a target: its own, else that of the project.
pub open spec fn package_of(cfg: MogwaiConfig, target: MogwaiTarget) -> Option<Seq<char>> {
    if target.package is Some {
        opt_view(target.package)
    } else {
        opt_view(cfg.package)
    }
}

fn either_package(cfg: &MogwaiConfig, target: &MogwaiTarget) -> (r: Option<String>)
    ensures
        opt_view(r) == package_of(*cfg, *target),
{
    if target.package.is_some() {
        clone_opt(&target.package)
    } else {
        clone_opt(&cfg.package)
    }
}

/// The build of the command line, or of a target: the registered features first,
/// then those of the call.
pub open spec fn build_of(cfg: MogwaiConfig, target: Option<&str>, extra: Seq<Seq<char>>) -> Result<
    (Seq<char>, BuildView),
    Seq<char>,
> {
    match target {
        None => match cfg.bin_text() {
            Some(bin) => Ok(
                (
                    bin,
                    BuildView {
                        package: opt_view(cfg.package),
                        bin: Some(bin),
                        example: None,
                        features: extra,
                        default_features: true,
                        profile: "release"@,
                    },
                ),
            ),
            None => Err(
                "[mogwai] names neither `package` nor `bin`, so there is no CLI to run.\n  add `package = \"...\"` (and `bin` if the binary is named differently)."@,
            ),
        },
        Some(name) => match named(cfg.targets@, name@) {
            Some(t) => Ok(
                (
                    name@,
                    BuildView {
                        package: package_of(cfg, t),
                        bin: None,
                        example: Some(t.example@),
                        features: views(t.features@) + extra,
                        default_features: true,
                        profile: "release"@,
                    },
                ),
            ),
            None => Err(
                "unknown target '"@ + name@ + "'\n  registered: "@ + joined(
                    names_in(cfg.targets@),
                    ", "@,
                ) + "\n  for the command line itself: `brokkr mogwai -- <args>`"@,
            ),
        },
    }
}

/// Decides what is built: the registered binary, which needs no entry of its own,
/// or a target.
pub fn resolve(cfg: &MogwaiConfig, target: Option<&str>, extra_features: &[String]) -> (r: Result<
    Resolved,
    DevError,
>)
    ensures
        match build_of(*cfg, target, views(extra_features@)) {
            Ok((name, build)) => r matches Ok(x) && x.name@ == name && x.build@ == build,
            Err(m) => r matches Err(e) && e@ == ErrorView::Config(m),
        },
{
    match target {
        None => match cfg.bin_target() {
            Some(name) => {
                let build = BuildConfig {
                    package: clone_opt(&cfg.package),
                    bin: Some(name.to_owned()),
                    example: None,
                    features: copy_texts(extra_features),
                    default_features: true,
                    profile: "release",
                };
                Ok(Resolved { name: name.to_owned(), build })
            },
            None => Err(
                DevError::Config(
                    "[mogwai] names neither `package` nor `bin`, so there is no CLI to run.\n  add `package = \"...\"` (and `bin` if the binary is named differently).".to_owned(),
                ),
            ),
        },
        Some(name) => match cfg.target(name) {
            Err(e) => Err(e),
            Ok(entry) => {
                let mut features = copy_texts(&entry.features);
                let mut more = copy_texts(extra_features);
                let ghost first = features@;
                let ghost second = more@;
                features.append(&mut more);
                assert(views(features@) =~= views(first) + views(second));
                let build = BuildConfig {
                    package: either_package(cfg, entry),
                    bin: None,
                    example: Some(entry.example.clone()),
                    features,
                    default_features: true,
                    profile: "release",
                };
                Ok(Resolved { name: name.to_owned(), build })
            },
        },
    }
}

/// A line of the index.
pub open spec fn target_line(width: nat, cfg: MogwaiConfig, name: Seq<char>, t: MogwaiTarget) -> Seq<
    char,
> {
    "    "@ + padded_right(name, width as int) + "  "@ + (match package_of(cfg, t) {
        Some(p) => p + "/"@ + t.example@,
        None => t.example@,
    }) + (if t.features@.len() == 0 {
        Seq::empty()
    } else {
        "  ["@ + joined(views(t.features@), ", "@) + "]"@
    }) + "\n"@
}

/// The lines of the index.
pub open spec fn target_lines(width: nat, cfg: MogwaiConfig, list: Seq<(String, MogwaiTarget)>) -> Seq<
    char,
>
    decreases list.len(),
{
    if list.len() == 0 {
        Seq::empty()
    } else {
        target_lines(width, cfg, list.drop_last()) + target_line(
            width,
            cfg,
            list.last().0@,
            list.last().1,
        )
    }
}

fn write_target_line(width: usize, cfg: &MogwaiConfig, name: &str, t: &MogwaiTarget) -> (r: String)
    ensures
        r@ == target_line(width as nat, *cfg, name@, *t),
{
    let mut out = "    ".to_owned();
    out.append(pad_right(name, width).as_str());
    out.append("  ");
    let ghost start = out@;
    match either_package(cfg, t) {
        Some(p) => {
            out.append(p.as_str());
            out.append("/");
            out.append(t.example.as_str());
            assert(out@ =~= start + (p@ + "/"@ + t.example@));
        },
        None => {
            out.append(t.example.as_str());
        },
    }
    let ghost before = out@;
    if t.features.len() > 0 {
        out.append("  [");
        out.append(join(&t.features, ", ").as_str());
        out.append("]");
        assert(out@ =~= before + ("  ["@ + joined(views(t.features@), ", "@) + "]"@));
    } else {
        assert(before =~= before + Seq::<char>::empty());
    }
    out.append("\n");
    out
}

/// The head of the index: how the command line itself is run.
pub open spec fn cli_line(cfg: MogwaiConfig) -> Seq<char> {
    match cfg.bin_text() {
        Some(bin) => "  CLI      brokkr mogwai -- <args>   ("@ + bin + ")\n"@,
        None => "  CLI      unavailable - [mogwai] names no package or bin\n"@,
    }
}

/// Lists the registry, and the command line that needs no entry in it.
pub fn format_index(cfg: &MogwaiConfig) -> (r: String)
    ensures
        r@ == if cfg.targets@.len() == 0 {
            cli_line(*cfg) + "  targets  none registered - add [mogwai.targets.<name>]\n"@
        } else {
            cli_line(*cfg) + "  targets\n"@ + target_lines(
                longest(names_in(cfg.targets@)),
                *cfg,
                cfg.targets@,
            )
        },
{
    let mut out = String::new();
    match cfg.bin_target() {
        Some(bin) => {
            out.append("  CLI      brokkr mogwai -- <args>   (");
            out.append(bin);
            out.append(")\n");
        },
        None => {
            out.append("  CLI      unavailable - [mogwai] names no package or bin\n");
        },
    }
    assert(out@ =~= cli_line(*cfg));
    if cfg.targets.len() == 0 {
        out.append("  targets  none registered - add [mogwai.targets.<name>]\n");
        return out;
    }
    out.append("  targets\n");
    let names = names_of(&cfg.targets);
    let width: usize = longest_name(&names);
    let mut i: usize = 0;
    let ghost all = cfg.targets@;
    let ghost start = out@;
    assert(out@ =~= start + target_lines(width as nat, *cfg, all.take(0)));
    while i < cfg.targets.len()
        invariant
            i <= cfg.targets@.len(),
            all == cfg.targets@,
            out@ == start + target_lines(width as nat, *cfg, all.take(i as int)),
        decreases cfg.targets@.len() - i,
    {
        let ghost before = out@;
        let line = write_target_line(width, cfg, cfg.targets[i].0.as_str(), &cfg.targets[i].1);
        assert(all.take(i + 1).drop_last() =~= all.take(i as int));
        assert(all.take(i + 1).last() == all[i as int]);
        out.append(line.as_str());
        assert(out@ =~= start + target_lines(width as nat, *cfg, all.take(i + 1)));
        i += 1;
    }
    assert(all.take(i as int) =~= all);
    out
}

} // verus!
