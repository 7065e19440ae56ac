//! The request as a whole.

use vstd::prelude::*;
use crate::http::error::{from_start, Failure, ParseError};
use crate::http::grammar::request_at;
use crate::http::{
    Endpoint, EndpointView, FieldView, Header, Method, MethodView, Version, VersionView,
};

pub mod laws;
pub mod parser;
pub mod roundtrip;
pub mod wire;

verus! {

/// A parsed request. Every text in it is a slice of the input it was parsed from.
#[derive(Clone, Debug)]
pub struct Request<'a> {
    pub method: Method<'a>,
    pub endpoint: Endpoint<'a>,
    pub version: Version<'a>,
    /// The header lines in the order of the input, duplicates included.
    pub headers: Vec<Header<'a>>,
    /// Whatever follows the header list and its blank line.
    pub body: &'a str,
}

/// Mathematical value of a [`Request`].
pub struct RequestView {
    pub method: MethodView,
    pub endpoint: EndpointView,
    pub version: VersionView,
    pub headers: Seq<FieldView>,
    pub body: Seq<char>,
}

impl<'a> View for Request<'a> {
    type V = RequestView;

    open spec fn view(&self) -> RequestView {
        RequestView {
            method: self.method@,
            endpoint: self.endpoint@,
            version: self.version@,
            headers: self.headers.deep_view(),
            body: self.body@,
        }
    }
}

impl<'a> DeepView for Request<'a> {
    type V = RequestView;

    open spec fn deep_view(&self) -> RequestView {
        self.view()
    }
}

impl RequestView {
    /// A request as the grammar yields it.
    pub open spec fn well_formed(self) -> bool {
        &&& self.method.well_formed()
        &&& self.endpoint.well_formed()
        &&& self.version.well_formed()
        &&& forall|i: int| 0 <= i < self.headers.len() ==> (#[trigger] self.headers[i]).is_header()
    }
}

/// What parsing the text `s` as a request gives: the request, or the first
/// failure.
pub open spec fn parse_text(s: Seq<char>) -> Result<RequestView, Failure> {
    match from_start(s, request_at(s, 0)) {
        Ok((rest, request)) => Ok(request),
        Err(f) => Err(f),
    }
}

impl<'a> Request<'a> {
    /// Parses `input` as a request. On failure nothing of the request is
    /// returned, only the first failure.
    pub fn try_from(input: &'a str) -> (r: Result<Request<'a>, ParseError>)
        ensures
            match r {
                Ok(request) => parse_text(input@) == Ok::<RequestView, Failure>(request@),
                Err(e) => parse_text(input@) == Err::<RequestView, Failure>(e@),
            },
            r matches Ok(request) ==> request@.well_formed(),
    {
        match parser::parse_http_request(input) {
            Ok((rest, request)) => Ok(request),
            Err(e) => Err(e),
        }
    }
}

impl<'a> Default for Request<'a> {
    /// The request of defaults, with no header and an empty body.
    fn default() -> (r: Self)
        ensures
            r@.method == MethodView::OTHER(Seq::empty()),
            r@.endpoint == (EndpointView {
                segments: Seq::empty(),
                parameters: Seq::empty(),
                fragment: None,
            }),
            r@.version == VersionView::OTHER(Seq::empty()),
            r@.headers == Seq::<FieldView>::empty(),
            r@.body == Seq::<char>::empty(),
    {
        proof {
            reveal_strlit("");
            assert(""@ =~= Seq::<char>::empty());
        }
        let r = Request {
            method: Method::default(),
            endpoint: Endpoint::default(),
            version: Version::default(),
            headers: Vec::new(),
            body: "",
        };
        assert(r@.headers =~= Seq::empty());
        r
    }
}

} // verus!
