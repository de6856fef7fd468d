//! Every failure that a command can report.

use vstd::prelude::*;

use crate::commands::changelog::{changelog_fault_text, ChangelogError, ChangelogFault};
use crate::commands::ci::{ci_fault_text, CiError, CiFault};
use crate::commands::doctor::DoctorError;
use crate::commands::init::{init_fault_text, InitError, InitFault};
use crate::commands::list::{list_fault_text, ListError, ListFault};
use crate::commands::release::ReleaseCommandError;
use crate::project::error::{fault_text, ProjectFault};
use crate::release::{release_fault_text, ReleaseFault};
use crate::text::optional_text;

verus! {

/// Every expected failure a command can report.
#[derive(Debug)]
pub enum Error {
    Init(InitError),
    Doctor(DoctorError),
    Ci(CiError),
    List(ListError),
    Changelog(ChangelogError),
    Release(ReleaseCommandError),
}

/// What an `Error` says.
pub enum Fault {
    Init(InitFault),
    Doctor(ProjectFault),
    Ci(CiFault),
    List(ListFault),
    Changelog(ChangelogFault),
    Release(ReleaseFault),
}

impl View for Error {
    type V = Fault;

    open spec fn view(&self) -> Fault {
        match *self {
            Error::Init(error) => Fault::Init(error@),
            Error::Doctor(error) => Fault::Doctor(error@),
            Error::Ci(error) => Fault::Ci(error@),
            Error::List(error) => Fault::List(error@),
            Error::Changelog(error) => Fault::Changelog(error@),
            Error::Release(error) => Fault::Release(error@),
        }
    }
}

/// The text that reports a fault: that of the command's own.
pub open spec fn text_of_fault(fault: Fault) -> Seq<char> {
    match fault {
        Fault::Init(error) => init_fault_text(error),
        Fault::Doctor(error) => fault_text(error),
        Fault::Ci(error) => ci_fault_text(error),
        Fault::List(error) => list_fault_text(error),
        Fault::Changelog(error) => changelog_fault_text(error),
        Fault::Release(error) => release_fault_text(error),
    }
}

impl Error {
    /// The text that reports the error.
    pub fn message(&self) -> (r: String)
        ensures
            r@ == text_of_fault(self@),
    {
        match self {
            Error::Init(error) => error.message(),
            Error::Doctor(error) => error.message(),
            Error::Ci(error) => error.message(),
            Error::List(error) => error.message(),
            Error::Changelog(error) => error.message(),
            Error::Release(error) => error.message(),
        }
    }

    /// The text of the command's own failure, which this one always wraps.
    pub fn source(&self) -> (r: Option<String>)
        ensures
            optional_text(r) == Some(text_of_fault(self@)),
    {
        Some(self.message())
    }
}

impl From<InitError> for Error {
    fn from(error: InitError) -> (r: Error) {
        Error::Init(error)
    }
}

impl vstd::std_specs::convert::FromSpecImpl<InitError> for Error {
    open spec fn obeys_from_spec() -> bool {
        true
    }

    open spec fn from_spec(error: InitError) -> Error {
        Error::Init(error)
    }
}

impl From<DoctorError> for Error {
    fn from(error: DoctorError) -> (r: Error) {
        Error::Doctor(error)
    }
}

impl vstd::std_specs::convert::FromSpecImpl<DoctorError> for Error {
    open spec fn obeys_from_spec() -> bool {
        true
    }

    open spec fn from_spec(error: DoctorError) -> Error {
        Error::Doctor(error)
    }
}

impl From<CiError> for Error {
    fn from(error: CiError) -> (r: Error) {
        Error::Ci(error)
    }
}

impl vstd::std_specs::convert::FromSpecImpl<CiError> for Error {
    open spec fn obeys_from_spec() -> bool {
        true
    }

    open spec fn from_spec(error: CiError) -> Error {
        Error::Ci(error)
    }
}

impl From<ListError> for Error {
    fn from(error: ListError) -> (r: Error) {
        Error::List(error)
    }
}

impl vstd::std_specs::convert::FromSpecImpl<ListError> for Error {
    open spec fn obeys_from_spec() -> bool {
        true
    }

    open spec fn from_spec(error: ListError) -> Error {
        Error::List(error)
    }
}

impl From<ChangelogError> for Error {
    fn from(error: ChangelogError) -> (r: Error) {
        Error::Changelog(error)
    }
}

impl vstd::std_specs::convert::FromSpecImpl<ChangelogError> for Error {
    open spec fn obeys_from_spec() -> bool {
        true
    }

    open spec fn from_spec(error: ChangelogError) -> Error {
        Error::Changelog(error)
    }
}

impl From<ReleaseCommandError> for Error {
    fn from(error: ReleaseCommandError) -> (r: Error) {
        Error::Release(error)
    }
}

impl vstd::std_specs::convert::FromSpecImpl<ReleaseCommandError> for Error {
    open spec fn obeys_from_spec() -> bool {
        true
    }

    open spec fn from_spec(error: ReleaseCommandError) -> Error {
        Error::Release(error)
    }
}

} // verus!
