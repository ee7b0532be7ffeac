//! The boundary to the model: what stands in for its response in a test.

use crate::text::option_view;
use vstd::prelude::*;

verus! {

/// The response that is given in place of a call of the model where no
/// fixed text is configured.
pub const MOCK_RESPONSE: &'static str = "This is a mocked response.";

/// The response that stands in for the model, if any: a configured text
/// goes before the fixed one, and without text and flag the model is
/// called.
pub fn mock_response(mock_content: Option<String>, mock_flag: bool) -> (r: Option<String>)
    ensures
        option_view(r) == match mock_content {
            Some(text) => Some(text@),
            None => if mock_flag {
                Some(MOCK_RESPONSE@)
            } else {
                None
            },
        },
{
    match mock_content {
        Some(text) => Some(text),
        None => {
            if mock_flag {
                Some(MOCK_RESPONSE.to_owned())
            } else {
                None
            }
        },
    }
}

} // verus!
