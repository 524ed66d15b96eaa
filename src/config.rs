use vstd::prelude::*;

verus! {

/// Cells per axis when the command line gives no usable count.
pub const DEFAULT_SIDE_LENGTH: i32 = 100;

/// What `str::parse::<i32>` makes of a string.
pub uninterp spec fn parsed_i32(s: Seq<char>) -> Option<i32>;

/// Relies on `str::parse::<i32>`: the result depends on the text alone.
#[verifier::external_body]
fn parse_i32(s: &str) -> (r: Option<i32>)
    ensures
        r == parsed_i32(s@),
{
    s.parse::<i32>().ok()
}

/// Cells per axis requested on the command line: the second argument read as
/// an integer, or `DEFAULT_SIDE_LENGTH` when it is absent or not a number.
pub fn parse_arguments(arguments: &[String]) -> (r: i32)
    ensures
        r == (if arguments@.len() > 1 {
            match parsed_i32(arguments@[1]@) {
                Some(v) => v,
                None => DEFAULT_SIDE_LENGTH,
            }
        } else {
            DEFAULT_SIDE_LENGTH
        }),
{
    if arguments.len() > 1 {
        match parse_i32(arguments[1].as_str()) {
            Some(v) => v,
            None => DEFAULT_SIDE_LENGTH,
        }
    } else {
        DEFAULT_SIDE_LENGTH
    }
}

} // verus!
