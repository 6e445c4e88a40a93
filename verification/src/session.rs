//! The launch specification a resolution produces.

use vstd::prelude::*;

verus! {

/// How an application can be relaunched: by spawning a command line, or
/// by launching a desktop descriptor file.
#[derive(Debug, PartialEq)]
pub enum Exec {
    CmdLine(Vec<String>),
    DesktopFile(String),
}

/// The mathematical value of an [`Exec`]: its strings as character
/// sequences.
pub enum ExecView {
    CmdLine(Seq<Seq<char>>),
    DesktopFile(Seq<char>),
}

impl View for Exec {
    type V = ExecView;

    open spec fn view(&self) -> ExecView {
        match self {
            Exec::CmdLine(args) => ExecView::CmdLine(args.deep_view()),
            Exec::DesktopFile(path) => ExecView::DesktopFile(path@),
        }
    }
}

} // verus!
