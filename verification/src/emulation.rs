//! Putting received content on the clipboard of this machine.
use vstd::prelude::*;
use vstd::string::StringExecFns;

verus! {

/// Why the clipboard could not be used. Errors of the system come as text.
#[derive(Debug)]
pub enum ClipboardError {
    Access(String),
    SetFailed(String),
}

impl ClipboardError {
    pub open spec fn text(self) -> Seq<char> {
        match self {
            ClipboardError::Access(e) => "Failed to access clipboard: "@ + e@,
            ClipboardError::SetFailed(e) => "Failed to set clipboard: "@ + e@,
        }
    }

    /// Describes the error.
    pub fn describe(&self) -> (text: String)
        ensures
            text@ == self.text(),
    {
        let mut out = String::new();
        match self {
            ClipboardError::Access(e) => {
                out.append("Failed to access clipboard: ");
                out.append(e.as_str());
            },
            ClipboardError::SetFailed(e) => {
                out.append("Failed to set clipboard: ");
                out.append(e.as_str());
            },
        }
        assert(out@ =~= self.text());
        out
    }

    /// The error where the task that used the clipboard did not end as it
    /// should.
    pub fn of_task(e: &str) -> (error: ClipboardError)
        ensures
            error matches ClipboardError::Access(text) && text@ == "Task join error: "@ + e@,
    {
        let mut text = String::new();
        text.append("Task join error: ");
        text.append(e);
        assert(text@ =~= "Task join error: "@ + e@);
        ClipboardError::Access(text)
    }
}

/// `result` and `after` are what is reported of an attempt to open the
/// clipboard.
pub open spec fn opening_reported(
    before: bool,
    attempt: Result<(), String>,
    after: bool,
    result: Result<(), ClipboardError>,
) -> bool {
    match attempt {
        Ok(()) => after && result is Ok,
        Err(e) => after == before && (result matches Err(ClipboardError::Access(text)) && text@
            == e@),
    }
}

/// `result` is what is reported of an attempt to set the clipboard.
pub open spec fn setting_reported(
    attempt: Result<(), String>,
    result: Result<(), ClipboardError>,
) -> bool {
    match attempt {
        Ok(()) => result is Ok,
        Err(e) => result matches Err(ClipboardError::SetFailed(text)) && text@ == e@,
    }
}

/// `result` is what is reported of an attempt to read the clipboard.
pub open spec fn reading_reported(
    attempt: Result<String, String>,
    result: Result<String, ClipboardError>,
) -> bool {
    match attempt {
        Ok(content) => result matches Ok(text) && text@ == content@,
        Err(e) => result matches Err(ClipboardError::Access(text)) && text@ == e@,
    }
}

/// The clipboard of this machine, as far as it is open.
#[derive(Debug)]
pub struct ClipboardEmulation {
    open: bool,
}

impl ClipboardEmulation {
    /// The clipboard is open.
    pub closed spec fn is_open(self) -> bool {
        self.open
    }

    /// A first attempt to open the clipboard was made. That it failed is no
    /// error: the clipboard is opened when it is first used then.
    pub fn new(opened: bool) -> (clipboard: Result<ClipboardEmulation, ClipboardError>)
        ensures
            clipboard matches Ok(c) && c.is_open() == opened,
    {
        Ok(ClipboardEmulation { open: opened })
    }

    /// Whether the clipboard must be opened before it is used.
    pub fn must_open(&self) -> (must: bool)
        ensures
            must == !self.is_open(),
    {
        !self.open
    }

    /// An attempt to open the clipboard was made.
    pub fn opened(&mut self, attempt: Result<(), String>) -> (result: Result<(), ClipboardError>)
        ensures
            opening_reported(old(self).is_open(), attempt, final(self).is_open(), result),
    {
        match attempt {
            Ok(()) => {
                self.open = true;
                Ok(())
            },
            Err(e) => Err(ClipboardError::Access(e)),
        }
    }

    /// What came of putting content on the clipboard.
    pub fn set(&self, attempt: Result<(), String>) -> (result: Result<(), ClipboardError>)
        ensures
            setting_reported(attempt, result),
    {
        match attempt {
            Ok(()) => Ok(()),
            Err(e) => Err(ClipboardError::SetFailed(e)),
        }
    }

    /// What came of reading the text on the clipboard.
    pub fn get(&self, attempt: Result<String, String>) -> (result: Result<String, ClipboardError>)
        ensures
            reading_reported(attempt, result),
    {
        match attempt {
            Ok(content) => Ok(content),
            Err(e) => Err(ClipboardError::Access(e)),
        }
    }
}

/// What is reported of the clipboard is what happened: success exactly where
/// there was success, the text that was read, and else the system's error. A
/// failure does not close a clipboard that is open.
pub proof fn law_reports_are_true(
    before: bool,
    after: bool,
    done: Result<(), String>,
    opening: Result<(), ClipboardError>,
    setting: Result<(), ClipboardError>,
    read: Result<String, String>,
    reading: Result<String, ClipboardError>,
)
    requires
        opening_reported(before, done, after, opening),
        setting_reported(done, setting),
        reading_reported(read, reading),
    ensures
        opening is Ok <==> done is Ok,
        setting is Ok <==> done is Ok,
        reading is Ok <==> read is Ok,
        after <==> before || done is Ok,
        done matches Err(e) ==> (opening matches Err(ClipboardError::Access(a)) && a@ == e@) && (
        setting matches Err(ClipboardError::SetFailed(b)) && b@ == e@),
        read matches Ok(text) ==> reading->Ok_0@ == text@,
        read matches Err(e) ==> (reading matches Err(ClipboardError::Access(a)) && a@ == e@),
{
}

} // verus!
