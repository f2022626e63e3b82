//! The validator-miner message contract: requests and responses carry a
//! pure validation judgement, a processor turns a request into a
//! response, and a verifier grades a response with a 16-bit score only
//! after validating it.

use vstd::prelude::*;

verus! {

/// A request from a validator to a miner.
pub trait SubnetRequest: Sized {
    type Error;

    /// Whether the request is well formed.
    spec fn valid(&self) -> bool;

    /// Pure format validation: succeeds exactly on well-formed requests.
    fn validate(&self) -> (r: Result<(), Self::Error>)
        ensures
            r is Ok <==> self.valid(),
    ;
}

/// A response from a miner to a validator.
pub trait SubnetResponse: Sized {
    type Error;

    /// Whether the response is well formed.
    spec fn valid(&self) -> bool;

    /// Pure format validation: succeeds exactly on well-formed responses.
    fn validate(&self) -> (r: Result<(), Self::Error>)
        ensures
            r is Ok <==> self.valid(),
    ;
}

/// A concrete application protocol: how a request is answered and how an
/// answer is graded.
pub trait SubnetProtocol: Sized {
    type Request: SubnetRequest;

    type Response: SubnetResponse;

    type Error;

    /// Answers a request. A processor only hands out well-formed
    /// responses.
    fn process_request(&self, request: Self::Request) -> (r: Result<Self::Response, Self::Error>)
        ensures
            r matches Ok(resp) ==> resp.valid(),
    ;

    /// Grades a miner's response to a request with a score in 0..65535.
    /// A response is trusted, and graded, only once it has passed
    /// validation.
    fn verify_response(&self, request: &Self::Request, response: &Self::Response) -> (r: Result<
        u16,
        Self::Error,
    >)
        ensures
            r is Ok ==> response.valid(),
    ;
}

} // verus!
