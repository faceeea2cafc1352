//! The decision the read loop makes after each attempt to read a line.
use crate::text::{owned, string_append};
use vstd::prelude::*;

verus! {

/// What an attempt to read a line gave.
pub enum ReadEvent {
    /// A line was read.
    Line(String),
    /// The user interrupted the input.
    Interrupted,
    /// The input ended.
    EndOfInput,
    /// Reading failed, with the error's text.
    Failed(String),
}

/// What the read loop does next.
pub enum StepAction {
    /// Record the line in the history and run it.
    Run(String),
    /// Stop the shell.
    Stop,
    /// Print the message on standard error and stop the shell.
    StopWithMessage(String),
}

/// The mathematical form of a [`ReadEvent`].
pub enum ReadEventModel {
    Line(Seq<char>),
    Interrupted,
    EndOfInput,
    Failed(Seq<char>),
}

/// The mathematical form of a [`StepAction`].
pub enum StepActionModel {
    Run(Seq<char>),
    Stop,
    StopWithMessage(Seq<char>),
}

impl View for ReadEvent {
    type V = ReadEventModel;

    open spec fn view(&self) -> ReadEventModel {
        match self {
            ReadEvent::Line(l) => ReadEventModel::Line(l@),
            ReadEvent::Interrupted => ReadEventModel::Interrupted,
            ReadEvent::EndOfInput => ReadEventModel::EndOfInput,
            ReadEvent::Failed(e) => ReadEventModel::Failed(e@),
        }
    }
}

impl View for StepAction {
    type V = StepActionModel;

    open spec fn view(&self) -> StepActionModel {
        match self {
            StepAction::Run(l) => StepActionModel::Run(l@),
            StepAction::Stop => StepActionModel::Stop,
            StepAction::StopWithMessage(m) => StepActionModel::StopWithMessage(m@),
        }
    }
}

/// A line read is run; an interrupt or the end of input stops the shell; a
/// failed read stops it after printing `shell: ` and the error.
pub open spec fn step_action(ev: ReadEventModel) -> StepActionModel {
    match ev {
        ReadEventModel::Line(l) => StepActionModel::Run(l),
        ReadEventModel::Interrupted => StepActionModel::Stop,
        ReadEventModel::EndOfInput => StepActionModel::Stop,
        ReadEventModel::Failed(e) => StepActionModel::StopWithMessage("shell: "@ + e),
    }
}

/// Decides what the read loop does after an attempt to read a line.
pub fn on_read(ev: ReadEvent) -> (r: StepAction)
    ensures
        r@ == step_action(ev@),
{
    match ev {
        ReadEvent::Line(l) => StepAction::Run(l),
        ReadEvent::Interrupted => StepAction::Stop,
        ReadEvent::EndOfInput => StepAction::Stop,
        ReadEvent::Failed(e) => {
            let mut m = owned("shell: ");
            string_append(&mut m, e.as_str());
            StepAction::StopWithMessage(m)
        },
    }
}

} // verus!
