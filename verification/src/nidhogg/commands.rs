//! The commands of nidhogg that can be measured.

use crate::db::KvPair;
use crate::error::{DevError, ErrorView};
use crate::text::{opt_str, views};
use vstd::prelude::*;

verus! {

/// A command that can be measured.
#[derive(Debug)]
pub enum NidhoggCommand {
    /// Queries to a running server, of which one can be chosen by its name.
    Api { query: Option<String> },
    /// Taking in a file.
    Ingest,
    /// Serving tiles, from the start of a server to its end.
    Tiles { tiles_variant: Option<String>, uring: bool },
}

impl NidhoggCommand {
    /// The name of the command.
    pub open spec fn id_text(self) -> Seq<char> {
        match self {
            NidhoggCommand::Api { .. } => "api"@,
            NidhoggCommand::Ingest => "nid-ingest"@,
            NidhoggCommand::Tiles { .. } => "tiles"@,
        }
    }

    /// Names the command.
    pub fn id(&self) -> (r: &'static str)
        ensures
            r@ == self.id_text(),
    {
        match self {
            NidhoggCommand::Api { .. } => "api",
            NidhoggCommand::Ingest => "nid-ingest",
            NidhoggCommand::Tiles { .. } => "tiles",
        }
    }

    /// Whether the command can be profiled.
    pub fn supports_hotpath(&self) -> (r: bool)
        ensures
            r == (*self is Ingest),
    {
        matches!(self, NidhoggCommand::Ingest)
    }

    /// The package to build, where one is needed.
    pub fn package(&self) -> (r: Option<&'static str>)
        ensures
            opt_str(r) == if *self is Api {
                None
            } else {
                Some("nidhogg"@)
            },
    {
        match self {
            NidhoggCommand::Api { .. } => None,
            _ => Some("nidhogg"),
        }
    }

    /// The name under which results are stored.
    pub open spec fn result_text(self) -> Seq<char> {
        match self {
            NidhoggCommand::Api { .. } => "api"@,
            NidhoggCommand::Ingest => "ingest"@,
            NidhoggCommand::Tiles { .. } => "tiles"@,
        }
    }

    /// Names the command for its results.
    pub fn result_command(&self) -> (r: &'static str)
        ensures
            r@ == self.result_text(),
    {
        match self {
            NidhoggCommand::Api { .. } => "api",
            NidhoggCommand::Ingest => "ingest",
            NidhoggCommand::Tiles { .. } => "tiles",
        }
    }

    /// What is stored with a result besides the command line: nothing.
    pub fn metadata(&self) -> (r: Vec<KvPair>)
        ensures
            r@ == Seq::<KvPair>::empty(),
    {
        Vec::new()
    }

    /// Whether a binary must be built first.
    pub fn needs_build(&self) -> (r: bool)
        ensures
            r == !(*self is Api),
    {
        !matches!(self, NidhoggCommand::Api { .. })
    }

    /// Whether a server must be running.
    pub fn needs_server(&self) -> (r: bool)
        ensures
            r == (*self is Api),
    {
        matches!(self, NidhoggCommand::Api { .. })
    }

    /// The arguments of the binary, where the command is one run of it.
    pub fn build_args(&self, pbf_str: &str, output_dir: &str) -> (r: Result<Vec<String>, DevError>)
        ensures
            *self is Ingest ==> (r matches Ok(v) && views(v@) == seq![
                "ingest"@,
                pbf_str@,
                output_dir@,
            ]),
            !(*self is Ingest) ==> (r matches Err(e) && e@ == ErrorView::Config(
                "build_args not supported for nidhogg command '"@ + self.id_text() + "'"@,
            )),
    {
        match self {
            NidhoggCommand::Ingest => {
                let v = vec!["ingest".to_owned(), pbf_str.to_owned(), output_dir.to_owned()];
                assert(views(v@) =~= seq!["ingest"@, pbf_str@, output_dir@]);
                Ok(v)
            },
            _ => {
                let mut m = "build_args not supported for nidhogg command '".to_owned();
                m.append(self.id());
                m.append("'");
                Err(DevError::Config(m))
            },
        }
    }

    /// The scratch directory of the command, where it writes something.
    pub fn scratch_output_dir(&self) -> (r: Option<&'static str>)
        ensures
            opt_str(r) == if *self is Ingest {
                Some("bench-ingest-output"@)
            } else {
                None
            },
    {
        match self {
            NidhoggCommand::Ingest => Some("bench-ingest-output"),
            _ => None,
        }
    }
}

} // verus!
