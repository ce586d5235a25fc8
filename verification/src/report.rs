//! What a run says at its end: the line for a missing file, and the parts of
//! the summary.

use crate::run::{Fault, FaultView};
use crate::text::{decimal, decimal_digits};
use vstd::prelude::*;

verus! {

/// The line that tells a build script of a missing file: the source file,
/// the line and the message, in the form that build tools read.
pub open spec fn script_line(fault: FaultView) -> Seq<char> {
    fault.source_file + ":"@ + decimal_digits(fault.line_number)
        + ": error : precompiledIncludeStr call references non-existent file "@ + fault.path
}

/// The sentence that tells a person of a missing file. It follows the
/// label that marks an error.
pub open spec fn description(fault: FaultView) -> Seq<char> {
    "precompileIncludeStr call at line "@ + decimal_digits(fault.line_number) + " in "@
        + fault.source_file + " references non-existent file "@ + fault.path
}

/// The time that a run took: in milliseconds below one second, else in whole
/// seconds.
pub open spec fn elapsed_text(millis: nat, seconds: nat) -> Seq<char> {
    if millis < 1000 {
        decimal_digits(millis) + "ms"@
    } else {
        decimal_digits(seconds) + "s"@
    }
}

impl Fault {
    /// The fault as one line for a build script.
    pub fn script_line(&self) -> (line: String)
        ensures
            line@ == script_line(self@),
    {
        let mut line = self.source_file.clone();
        line.append(":");
        line.append(decimal(self.line_number as u128).as_str());
        line.append(": error : precompiledIncludeStr call references non-existent file ");
        line.append(self.path.as_str());
        line
    }

    /// The fault as a sentence for a person, to follow the error label.
    pub fn description(&self) -> (sentence: String)
        ensures
            sentence@ == description(self@),
    {
        let mut sentence = "precompileIncludeStr call at line ".to_owned();
        sentence.append(decimal(self.line_number as u128).as_str());
        sentence.append(" in ");
        sentence.append(self.source_file.as_str());
        sentence.append(" references non-existent file ");
        sentence.append(self.path.as_str());
        sentence
    }
}

/// Writes the time that a run took, measured as `millis` milliseconds and,
/// read again, as `seconds` whole seconds.
pub fn format_elapsed(millis: u128, seconds: u64) -> (text: String)
    ensures
        text@ == elapsed_text(millis as nat, seconds as nat),
{
    if millis < 1000 {
        let mut text = decimal(millis);
        text.append("ms");
        text
    } else {
        let mut text = decimal(seconds as u128);
        text.append("s");
        text
    }
}

/// Whether the summary ends with the hint to add the generated file to the
/// build: not in a dry run, which wrote none, and not for a build script.
pub fn shows_hint(dry_run: bool, script_mode: bool) -> (hint: bool)
    ensures
        hint == (!dry_run && !script_mode),
{
    !(dry_run || script_mode)
}

} // verus!
