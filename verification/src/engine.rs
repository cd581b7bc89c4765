//! What a host of the J engine library (libj) decides: how the text the
//! engine hands to its output callback is collected, and what a `JDo` return
//! code means.  Loading the library and calling it through C pointers is the
//! host's own business.
use vstd::prelude::*;

verus! {

broadcast use vstd::string::group_string_axioms;

/// The engine's instance (J's JST), known only by pointer.
pub struct JInstance {
    _opaque: [u8; 0],
}

/// Output type of a result (MTYOFM).
pub const MTYOFM: i32 = 1;

/// Output type of an error (MTYOER).
pub const MTYOER: i32 = 2;

/// Output type of the exit signal (MTYOEXIT).
pub const MTYOEXIT: i32 = 5;

/// What the output callback adds to the collected output for text of the
/// given type: errors are marked `[ERROR] `, the exit signal adds nothing,
/// everything else is added as it is.
pub open spec fn output_piece(output_type: i32, text: Seq<char>) -> Seq<char> {
    if output_type == MTYOER {
        "[ERROR] "@ + text
    } else if output_type == MTYOEXIT {
        Seq::empty()
    } else {
        text
    }
}

/// Adds the text that the engine handed to its output callback to the
/// collected output.
pub fn record_output(buf: &mut String, output_type: i32, text: &str)
    ensures
        final(buf)@ == old(buf)@ + output_piece(output_type, text@),
{
    if output_type == MTYOFM {
        buf.append(text);
    } else if output_type == MTYOER {
        buf.append("[ERROR] ");
        buf.append(text);
        proof {
            assert(final(buf)@ =~= old(buf)@ + ("[ERROR] "@ + text@));
        }
    } else if output_type == MTYOEXIT {
        proof {
            assert(old(buf)@ + Seq::<char>::empty() =~= old(buf)@);
        }
    } else {
        buf.append(text);
    }
}

/// The meaning of `JDo`'s return code: 0 is success, anything else an
/// error code.
pub fn jdo_result(ret: i32) -> (r: Result<(), i32>)
    ensures
        ret == 0 ==> r is Ok,
        ret != 0 ==> r == Err::<(), i32>(ret),
{
    if ret == 0 {
        Ok(())
    } else {
        Err(ret)
    }
}

} // verus!
