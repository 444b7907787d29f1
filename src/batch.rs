//! What one run prints for each file, and the tally of a run over many files.
use vstd::prelude::*;
use vstd::string::*;
use crate::lines::{count, count_and_print, enumerated, lines_of};
use crate::text::{decimal, push_char, push_decimal};

verus! {

/// The options of a run, fixed when it starts.
#[derive(Debug, Clone, Copy)]
pub struct Flags {
    /// Print each line with its number after the count.
    pub enumerate_contents: bool,
}

/// The text reported for a file: `"{name} contains {n} lines"`, followed,
/// when lines are enumerated, by a newline and their numbered rendition.
pub open spec fn report_text(name: Seq<char>, contents: Seq<char>, enumerate: bool) -> Seq<char> {
    let head = name + " contains "@ + decimal(lines_of(contents).len()) + " lines"@;
    if enumerate {
        head + seq!['\n'] + enumerated(contents)
    } else {
        head
    }
}

/// What is reported for the file `filename` whose text is `contents`.
pub fn report(filename: &str, contents: &str, flags: &Flags) -> (r: String)
    ensures
        r@ == report_text(filename@, contents@, flags.enumerate_contents),
{
    let mut out = String::from_str(filename);
    out.append(" contains ");
    if !flags.enumerate_contents {
        push_decimal(&mut out, count(contents));
        out.append(" lines");
    } else {
        let (n, listing) = count_and_print(contents);
        push_decimal(&mut out, n);
        out.append(" lines");
        push_char(&mut out, '\n');
        out.append(listing.as_str());
    }
    assert(out@ =~= report_text(filename@, contents@, flags.enumerate_contents));
    out
}

/// How many files a run has attempted, and how many of them failed.
#[derive(Debug, Clone, Copy, PartialEq, Eq, Structural)]
pub struct BatchOutcome {
    pub attempted: usize,
    pub failed: usize,
}

impl BatchOutcome {
    /// No file fails more often than files are attempted.
    pub open spec fn wf(&self) -> bool {
        self.failed <= self.attempted
    }

    /// The tally before any file is attempted.
    pub fn new() -> (r: BatchOutcome)
        ensures
            r.wf(),
            r.attempted == 0,
            r.failed == 0,
    {
        BatchOutcome { attempted: 0, failed: 0 }
    }

    /// Counts one more attempted file, and one more failure unless it succeeded.
    pub fn record(&mut self, succeeded: bool)
        requires
            old(self).wf(),
            old(self).attempted < usize::MAX,
        ensures
            final(self).wf(),
            final(self).attempted == old(self).attempted + 1,
            final(self).failed == old(self).failed + if succeeded { 0int } else { 1int },
    {
        self.attempted = self.attempted + 1;
        if !succeeded {
            self.failed = self.failed + 1;
        }
    }

    /// The number of attempted files that did not fail.
    pub fn succeeded(&self) -> (r: usize)
        requires
            self.wf(),
        ensures
            r == self.attempted - self.failed,
    {
        self.attempted - self.failed
    }

    /// The status the process exits with: 1 when any file failed, else 0.
    pub fn exit_code(&self) -> (r: i32)
        ensures
            r == if self.failed > 0 { 1int } else { 0int },
    {
        if self.failed > 0 {
            1
        } else {
            0
        }
    }

    /// The closing line of a run:
    /// `"Processed successfully: {succeeded}, failed {failed}"`.
    pub fn summary(&self) -> (r: String)
        requires
            self.wf(),
        ensures
            r@ == "Processed successfully: "@ + decimal((self.attempted - self.failed) as nat)
                + ", failed "@ + decimal(self.failed as nat),
    {
        let mut out = String::from_str("Processed successfully: ");
        push_decimal(&mut out, self.succeeded());
        out.append(", failed ");
        push_decimal(&mut out, self.failed);
        out
    }
}

} // verus!
