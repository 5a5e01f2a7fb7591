//! The pages of a metadata refresh: when one is staged, and what follows it.
use crate::text::same_text;
use vstd::prelude::*;

verus! {

/// Why a refresh ended early.
#[derive(Clone, Copy, Debug, PartialEq, Eq, Structural)]
pub enum RefreshError {
    /// The provider returned the cursor that it was asked with.
    Repeated,
    /// The refresh was cancelled.
    Cancelled,
}

/// What follows a staged page.
#[derive(Clone, Copy, Debug, PartialEq, Eq, Structural)]
pub enum RefreshStep {
    /// Ask for the next page.
    Next,
    /// The refresh is complete after this many pages.
    Done(u64),
}

/// A refresh that is under way: the cursor to ask with, and the pages staged so far.
#[derive(Debug)]
pub struct Refresh {
    pub cursor: Option<String>,
    pub pages: u64,
}

impl Refresh {
    /// A refresh that resumes from a cursor, or starts over without one.
    pub fn new(cursor: Option<String>) -> (refresh: Self)
        ensures
            refresh.cursor == cursor,
            refresh.pages == 0,
    {
        Refresh { cursor, pages: 0 }
    }

    /// Whether a page may be staged: one that is not the last must lead further.
    pub fn check(&self, complete: bool, next: &str) -> (result: Result<(), RefreshError>)
        ensures
            result == (if !complete && self.cursor is Some && self.cursor->0@ == next@ {
                Err::<(), RefreshError>(RefreshError::Repeated)
            } else {
                Ok(())
            }),
    {
        if let Some(cursor) = &self.cursor {
            if !complete && same_text(cursor.as_str(), next) {
                return Err(RefreshError::Repeated);
            }
        }
        Ok(())
    }

    /// What follows a page that has been staged. The cursor moves only where another
    /// page is asked for.
    pub fn staged(&mut self, complete: bool, next: String, cancelled: bool) -> (result: Result<
        RefreshStep,
        RefreshError,
    >)
        requires
            old(self).pages < u64::MAX,
        ensures
            final(self).pages == old(self).pages + 1,
            final(self).cursor == (if complete || cancelled {
                old(self).cursor
            } else {
                Some(next)
            }),
            result == (if complete {
                Ok::<RefreshStep, RefreshError>(RefreshStep::Done((old(self).pages + 1) as u64))
            } else if cancelled {
                Err(RefreshError::Cancelled)
            } else {
                Ok(RefreshStep::Next)
            }),
    {
        self.pages = self.pages + 1;
        if complete {
            return Ok(RefreshStep::Done(self.pages));
        }
        if cancelled {
            return Err(RefreshError::Cancelled);
        }
        self.cursor = Some(next);
        Ok(RefreshStep::Next)
    }
}

/// A provider that gives the cursor back that it was asked with is found out, unless its page
/// is the last; nothing else stops a page.
pub proof fn repeated_cursors_are_refused(
    refresh: Refresh,
    complete: bool,
    next: &str,
    result: Result<(), RefreshError>,
)
    requires
        call_ensures(Refresh::check, (&refresh, complete, next), result),
    ensures
        result is Err <==> !complete && refresh.cursor is Some && refresh.cursor->0@ == next@,
        result is Err ==> result->Err_0 == RefreshError::Repeated,
{
}

/// Every staged page counts. The last one ends the refresh, also where it was cancelled; any
/// other one is followed by the page behind it, or by the end of a cancelled refresh, which
/// keeps the cursor that it was asked with.
pub proof fn refreshes_go_on_until_the_last_page(
    refresh: &mut Refresh,
    complete: bool,
    next: String,
    cancelled: bool,
    result: Result<RefreshStep, RefreshError>,
)
    requires
        old(refresh).pages < u64::MAX,
        call_ensures(Refresh::staged, (refresh, complete, next, cancelled), result),
    ensures
        final(refresh).pages == old(refresh).pages + 1,
        complete <==> result is Ok && result->Ok_0 is Done,
        result matches Ok(RefreshStep::Done(pages)) ==> pages == final(refresh).pages,
        result == Ok::<RefreshStep, RefreshError>(RefreshStep::Next) <==> !complete && !cancelled,
        result is Err <==> !complete && cancelled,
        result is Err ==> result->Err_0 == RefreshError::Cancelled,
        !complete && !cancelled ==> final(refresh).cursor == Some(next),
        complete || cancelled ==> final(refresh).cursor == old(refresh).cursor,
{
}

} // verus!
