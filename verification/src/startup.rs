//! Starting the service. The command line names one file; the file must be
//! there and must hold an image before the listener is bound. Each way of
//! failing is a value, not an abort, so the caller decides how to end.

use vstd::prelude::*;

verus! {

/// The port that the service listens on.
pub const PORT: u16 = 8080;

/// The host that the service listens on: this machine only.
pub fn host() -> (text: &'static str)
    ensures
        text@ == "127.0.0.1"@,
{
    "127.0.0.1"
}

/// Why the service did not start.
#[derive(Debug, Clone, Copy, PartialEq, Eq, Structural)]
pub enum StartupFailure {
    /// The command line did not hold exactly one argument.
    ArgumentCount,
    /// The argument names no file.
    MissingFile,
    /// The file holds no image that can be read.
    UnreadableImage,
}

impl StartupFailure {
    /// What to tell the operator.
    pub open spec fn spec_message(self) -> Seq<char> {
        match self {
            StartupFailure::ArgumentCount => "There could be only 1 argument!"@,
            StartupFailure::MissingFile => "File does not exist"@,
            StartupFailure::UnreadableImage => "Error reading image"@,
        }
    }

    /// What to tell the operator.
    pub fn message(&self) -> (text: &'static str)
        ensures
            text@ == self.spec_message(),
    {
        match self {
            StartupFailure::ArgumentCount => "There could be only 1 argument!",
            StartupFailure::MissingFile => "File does not exist",
            StartupFailure::UnreadableImage => "Error reading image",
        }
    }
}

/// How far the start has come.
#[derive(Debug, Clone, Copy, PartialEq, Eq, Structural)]
pub enum Launch {
    /// The command line has not been looked at.
    Arguments,
    /// The caller is looking for the file.
    CheckingFile,
    /// The caller is reading the image.
    ReadingImage,
    /// The listener may be bound.
    Serving,
    /// The start has failed.
    Aborted,
}

/// What the caller reports.
#[derive(Debug, Clone, Copy, PartialEq, Eq, Structural)]
pub enum LaunchEvent {
    /// The number of words on the command line, the program's name included.
    Arguments(usize),
    /// Whether the argument names a file.
    FileChecked(bool),
    /// Whether the file gave an image.
    ImageRead(bool),
}

/// What the caller is to do next.
#[derive(Debug, Clone, Copy, PartialEq, Eq, Structural)]
pub enum LaunchAction {
    /// See whether the argument names a file.
    CheckFile,
    /// Read the image from the file.
    ReadImage,
    /// Bind the listener and serve.
    Serve,
    /// Give up, with this reason.
    Abort(StartupFailure),
}

/// The table of the start: for each stage and each event that belongs to it,
/// the next stage and the action. An event that does not belong has no entry.
pub open spec fn launch_transition(stage: Launch, event: LaunchEvent) -> Option<(Launch, LaunchAction)> {
    match (stage, event) {
        (Launch::Arguments, LaunchEvent::Arguments(words)) => if words == 2 {
            Some((Launch::CheckingFile, LaunchAction::CheckFile))
        } else {
            Some((Launch::Aborted, LaunchAction::Abort(StartupFailure::ArgumentCount)))
        },
        (Launch::CheckingFile, LaunchEvent::FileChecked(found)) => if found {
            Some((Launch::ReadingImage, LaunchAction::ReadImage))
        } else {
            Some((Launch::Aborted, LaunchAction::Abort(StartupFailure::MissingFile)))
        },
        (Launch::ReadingImage, LaunchEvent::ImageRead(loaded)) => if loaded {
            Some((Launch::Serving, LaunchAction::Serve))
        } else {
            Some((Launch::Aborted, LaunchAction::Abort(StartupFailure::UnreadableImage)))
        },
        _ => None,
    }
}

/// Takes the start one step on: `None` if the event does not belong to the
/// stage, else the next stage and what to do.
pub fn launch(stage: Launch, event: LaunchEvent) -> (r: Option<(Launch, LaunchAction)>)
    ensures
        r == launch_transition(stage, event),
{
    match stage {
        Launch::Arguments => match event {
            LaunchEvent::Arguments(words) => if words == 2 {
                Some((Launch::CheckingFile, LaunchAction::CheckFile))
            } else {
                Some((Launch::Aborted, LaunchAction::Abort(StartupFailure::ArgumentCount)))
            },
            _ => None,
        },
        Launch::CheckingFile => match event {
            LaunchEvent::FileChecked(found) => if found {
                Some((Launch::ReadingImage, LaunchAction::ReadImage))
            } else {
                Some((Launch::Aborted, LaunchAction::Abort(StartupFailure::MissingFile)))
            },
            _ => None,
        },
        Launch::ReadingImage => match event {
            LaunchEvent::ImageRead(loaded) => if loaded {
                Some((Launch::Serving, LaunchAction::Serve))
            } else {
                Some((Launch::Aborted, LaunchAction::Abort(StartupFailure::UnreadableImage)))
            },
            _ => None,
        },
        _ => None,
    }
}

/// What reading the image comes to: `None` where the file could not be read,
/// else whether the image that came out is empty. Only an image that is not
/// empty counts as read.
pub open spec fn spec_image_event(emptiness: Option<bool>) -> LaunchEvent {
    LaunchEvent::ImageRead(emptiness == Some(false))
}

/// The event for the outcome of reading the image.
pub fn image_event(emptiness: Option<bool>) -> (event: LaunchEvent)
    ensures
        event == spec_image_event(emptiness),
{
    match emptiness {
        Some(false) => LaunchEvent::ImageRead(true),
        _ => LaunchEvent::ImageRead(false),
    }
}

/// Whether a run of events from the given stage ends with the listener
/// bound: the events are taken in turn, and the run fails where one does not
/// belong or the start is given up.
pub open spec fn serves_after(stage: Launch, events: Seq<LaunchEvent>) -> bool
    decreases events.len(),
{
    if stage == Launch::Serving {
        true
    } else if events.len() == 0 {
        false
    } else {
        match launch_transition(stage, events[0]) {
            Some((next, _)) => serves_after(next, events.drop_first()),
            None => false,
        }
    }
}

/// The listener is bound only after one argument was given, the file was
/// found and the image was read, in that order.
pub proof fn lemma_serves_only_after_checks(events: Seq<LaunchEvent>)
    requires
        serves_after(Launch::Arguments, events),
    ensures
        events.len() >= 3,
        events[0] == LaunchEvent::Arguments(2),
        events[1] == LaunchEvent::FileChecked(true),
        events[2] == LaunchEvent::ImageRead(true),
{
    reveal_with_fuel(serves_after, 4);
    let first = events.drop_first();
    if first.len() > 0 {
        let second = first.drop_first();
        if second.len() > 0 {
            assert(first[0] == events[1]);
            assert(second[0] == events[2]);
        }
    }
}

} // verus!
