//! Errors in a context, in the words that DiskANN finds for them.

use diskann::graph::config::ConfigError;
use diskann::ANNError;
use std::num::TryFromIntError;
use vstd::prelude::*;

verus! {

/// How a text begins that tells of an error in a context: with the context, the
/// place in the source where it was given, and that a cause follows.
pub open spec fn told_from(context: Seq<char>, place: Seq<char>) -> Seq<char> {
    "ANNError\n\n"@ + context + " -- ("@ + place + ")\n\nCaused by:\n"@
}

/// A text tells of an error in a context.
pub open spec fn tells_of(text: Seq<char>, context: Seq<char>) -> bool {
    exists|place: Seq<char>| (#[trigger] told_from(context, place)).is_prefix_of(text)
}

/// Calls `diskann::ANNError::context` on the error of a number that does not fit,
/// and renders it. The text begins with the context, and says that a cause
/// follows. The place in the source, the words for the cause and a backtrace
/// depend on how the library was built and on where it runs: no clause says what
/// they are.
#[verifier::external_body]
pub(crate) fn overflow_in_context(overflow: TryFromIntError, context: &'static str) -> (text: String)
    ensures
        tells_of(text@, context@),
{
    ANNError::from(overflow).context(context).to_string()
}

/// Calls `diskann::ANNError::context` on the refusal of a graph's configuration,
/// and renders it. The text begins with the context, and says that a cause
/// follows. The place in the source and a backtrace depend on how the library was
/// built and on where it runs, and the words for the cause on what is inside the
/// refusal: no clause says what they are.
#[verifier::external_body]
pub(crate) fn refusal_in_context(refusal: ConfigError, context: &'static str) -> (text: String)
    ensures
        tells_of(text@, context@),
{
    ANNError::from(refusal).context(context).to_string()
}

/// A number in 32 bits, or else the text that tells in a context that it does not
/// fit.
pub(crate) fn u32_in_context(n: usize, context: &'static str) -> (fitting: Result<u32, String>)
    ensures
        match fitting {
            Ok(fitting) => n <= u32::MAX && fitting == n,
            Err(text) => n > u32::MAX && tells_of(text@, context@),
        },
{
    match u32::try_from(n) {
        Ok(fitting) => Ok(fitting),
        Err(overflow) => Err(overflow_in_context(overflow, context)),
    }
}

} // verus!
