//! What the module does with a call.
//!
//! This one hands the first argument back as the result, with two fixed
//! values beside it. A module with work of its own answers here.

use vstd::prelude::*;
use crate::saori::{RequestView, ResponseType, ResponseView, SaoriRequest, SaoriResponse};

verus! {

/// The answer to a call: the first argument as the result and the values
/// `test1` and `test2`; a bad request where no argument came.
pub open spec fn answer(request: RequestView) -> ResponseView {
    if request.args.len() >= 1 {
        ResponseView {
            response_type: ResponseType::OK,
            values: seq!["test1"@, "test2"@],
            result: request.args[0],
        }
    } else {
        ResponseView {
            response_type: ResponseType::BadRequest,
            values: Seq::empty(),
            result: Seq::empty(),
        }
    }
}

/// Answers a call.
pub fn request(call: SaoriRequest) -> (response: SaoriResponse)
    ensures
        response@ == answer(call@),
{
    if call.args.len() >= 1 {
        let mut values: Vec<String> = Vec::new();
        values.push("test1".to_owned());
        values.push("test2".to_owned());
        let response = SaoriResponse {
            response_type: ResponseType::OK,
            result: call.args[0].clone(),
            values,
        };
        assert(response@.values =~= seq!["test1"@, "test2"@]);
        response
    } else {
        let response = SaoriResponse {
            response_type: ResponseType::BadRequest,
            result: String::new(),
            values: Vec::new(),
        };
        assert(response@.values =~= Seq::empty());
        response
    }
}

} // verus!
