//! The application between start and close.

use crate::session::faults::{texts_of, SessionFault};
use vstd::prelude::*;

verus! {

/// How the start went.
#[derive(Debug)]
pub enum StartEnd {
    /// All that was asked for runs.
    Started,
    /// Something could not be started.
    Failed(String),
    /// The close was asked for before that.
    Interrupted,
}

/// What happens while the application runs.
#[derive(Debug)]
pub enum RunEvent {
    /// The close was asked for.
    Shutdown,
    /// A fault of the session.
    Fault(SessionFault),
    /// A task that looks for neighbours ended, with the text that tells of it.
    BootstrapEnded(String),
    /// A minute went by.
    Tick,
}

/// What is done next.
#[derive(Clone, Copy, Debug, PartialEq, Eq, Structural)]
pub enum RunNext {
    /// Wait for the next event; after a fault of the store the collection pauses.
    Continue,
    /// Make a report, and wait.
    Report,
    /// Close.
    Close,
}

/// What is done after an event.
pub open spec fn next_after(event: RunEvent) -> RunNext {
    match event {
        RunEvent::Shutdown => RunNext::Close,
        RunEvent::Fault(fault) => if fault@.is_fatal() {
            RunNext::Close
        } else {
            RunNext::Continue
        },
        RunEvent::BootstrapEnded(_) => RunNext::Close,
        RunEvent::Tick => RunNext::Report,
    }
}

/// The error that an event leaves.
pub open spec fn error_after(event: RunEvent) -> Option<Seq<char>> {
    match event {
        RunEvent::Fault(fault) => if fault@.is_fatal() {
            Some(fault@.message_text())
        } else {
            None
        },
        RunEvent::BootstrapEnded(text) => Some("引导任务意外结束："@ + text@),
        _ => None,
    }
}

/// The run of the application: the errors so far.
#[derive(Debug)]
pub struct Run {
    pub errors: Vec<String>,
}

impl View for Run {
    type V = Seq<Seq<char>>;

    open spec fn view(&self) -> Seq<Seq<char>> {
        texts_of(self.errors@)
    }
}

impl Run {
    /// Begins after the start, and says whether the application runs at all.
    pub fn begin(start: StartEnd) -> (begun: (Run, bool))
        ensures
            begun.1 == (start is Started),
            begun.0@ == match start {
                StartEnd::Failed(error) => seq![error@],
                _ => Seq::<Seq<char>>::empty(),
            },
    {
        let mut errors: Vec<String> = Vec::new();
        let running = match start {
            StartEnd::Started => true,
            StartEnd::Failed(error) => {
                errors.push(error);
                false
            },
            StartEnd::Interrupted => false,
        };
        let run = Run { errors };
        assert(run@ =~= match start {
            StartEnd::Failed(error) => seq![error@],
            _ => Seq::<Seq<char>>::empty(),
        });
        (run, running)
    }

    /// Takes an event, and says what is done next.
    pub fn handle(&mut self, event: RunEvent) -> (next: RunNext)
        ensures
            next == next_after(event),
            final(self)@ == match error_after(event) {
                Some(error) => old(self)@.push(error),
                None => old(self)@,
            },
    {
        let ghost before = self@;
        match event {
            RunEvent::Shutdown => RunNext::Close,
            RunEvent::Fault(fault) => {
                if fault.fatal() {
                    let message = fault.message();
                    self.errors.push(message);
                    assert(self@ =~= before.push(message@));
                    RunNext::Close
                } else {
                    RunNext::Continue
                }
            },
            RunEvent::BootstrapEnded(text) => {
                let mut message = "引导任务意外结束：".to_owned();
                message.push_str(text.as_str());
                self.errors.push(message);
                assert(self@ =~= before.push(message@));
                RunNext::Close
            },
            RunEvent::Tick => RunNext::Report,
        }
    }

    /// Ends with the errors of the run and those of the close.
    pub fn end(self, closed: Result<(), Vec<String>>) -> (result: Result<(), Vec<String>>)
        ensures
            match closed {
                Ok(_) => self@,
                Err(cleanup) => self@ + texts_of(cleanup@),
            }.len() == 0 ==> result is Ok,
            match closed {
                Ok(_) => self@,
                Err(cleanup) => self@ + texts_of(cleanup@),
            }.len() > 0 ==> result is Err && texts_of(result->Err_0@) == match closed {
                Ok(_) => self@,
                Err(cleanup) => self@ + texts_of(cleanup@),
            },
    {
        let ghost mine = self@;
        let mut errors = self.errors;
        if let Err(cleanup) = closed {
            let ghost theirs = texts_of(cleanup@);
            let mut cleanup = cleanup;
            errors.append(&mut cleanup);
            assert(texts_of(errors@) =~= mine + theirs);
        }
        assert(texts_of(errors@).len() == errors@.len());
        if errors.len() == 0 {
            Ok(())
        } else {
            Err(errors)
        }
    }
}

/// A run goes on after a failed write, tells its counts with every tick, and closes for a request, a
/// fatal fault or the end of its bootstrap. Only the last two are errors, each under its own text.
pub proof fn lemma_run_events(event: RunEvent)
    ensures
        match event {
            RunEvent::Shutdown => next_after(event) is Close && error_after(event) is None,
            RunEvent::Tick => next_after(event) is Report && error_after(event) is None,
            RunEvent::BootstrapEnded(text) => next_after(event) is Close && error_after(event)
                == Some("引导任务意外结束："@ + text@),
            RunEvent::Fault(SessionFault::StorageWrite(_)) => next_after(event) is Continue
                && error_after(event) is None,
            RunEvent::Fault(fault) => next_after(event) is Close && error_after(event) == Some(
                fault@.message_text(),
            ),
        },
{
}

/// The errors of a run are kept one by one.
pub proof fn lemma_run_view(run: Run)
    ensures
        run@.len() == run.errors@.len(),
        forall|i: int| 0 <= i < run.errors@.len() ==> run@[i] == (#[trigger] run.errors@[i])@,
{
}

} // verus!
