//! The endpoint descriptor: one immutable bundle of method, path
//! specification, header and trailer specifications, optional request
//! body, and a response deserializer, with the expected response type
//! fixed at compile time. Constructed once, read through accessors, and
//! reused across request/response cycles; response parsing is forwarded
//! to the attached deserializer.

use core::marker::PhantomData;

use vstd::prelude::*;

use crate::formats::{DeserializationError, DeserializerFormat};
use crate::parameter_spec::PathBuilder;

verus! {

/// http's Method type, carried opaquely through the descriptor.
#[verifier::external_type_specification]
#[verifier::external_body]
pub struct ExMethod(http::Method);

/// Describes one API operation. `B` is the request body type, `D` the
/// deserializer, `T` the response type a successful parse yields.
pub struct EndpointSpec<B, D, T> {
    method: http::Method,
    path_spec: PathBuilder,
    headers_spec: Vec<(String, String)>,
    body_spec: Option<B>,
    trailers_spec: Vec<(String, String)>,
    deserializer: D,
    data_type: PhantomData<T>,
}

impl<B, D, T> EndpointSpec<B, D, T> {
    pub closed spec fn spec_method(self) -> http::Method {
        self.method
    }

    pub closed spec fn spec_path_spec(self) -> PathBuilder {
        self.path_spec
    }

    pub closed spec fn spec_headers_spec(self) -> Seq<(String, String)> {
        self.headers_spec@
    }

    pub closed spec fn spec_body_spec(self) -> Option<B> {
        self.body_spec
    }

    pub closed spec fn spec_trailers_spec(self) -> Seq<(String, String)> {
        self.trailers_spec@
    }

    pub closed spec fn spec_deserializer(self) -> D {
        self.deserializer
    }

    /// Fixes every field of the descriptor; nothing changes it afterwards.
    pub fn new(
        method: http::Method,
        path_spec: PathBuilder,
        headers_spec: Vec<(String, String)>,
        body_spec: Option<B>,
        trailers_spec: Vec<(String, String)>,
        deserializer: D,
    ) -> (r: Self)
        ensures
            r.spec_method() == method,
            r.spec_path_spec() == path_spec,
            r.spec_headers_spec() == headers_spec@,
            r.spec_body_spec() == body_spec,
            r.spec_trailers_spec() == trailers_spec@,
            r.spec_deserializer() == deserializer,
    {
        Self {
            method,
            path_spec,
            headers_spec,
            body_spec,
            trailers_spec,
            deserializer,
            data_type: PhantomData,
        }
    }

    /// Exactly the method supplied at construction.
    pub fn method(&self) -> (r: &http::Method)
        ensures
            *r == self.spec_method(),
    {
        &self.method
    }

    /// Exactly the path specification supplied at construction.
    pub fn path_spec(&self) -> (r: &PathBuilder)
        ensures
            *r == self.spec_path_spec(),
    {
        &self.path_spec
    }

    /// Exactly the headers specification supplied at construction.
    pub fn headers_spec(&self) -> (r: &Vec<(String, String)>)
        ensures
            r@ == self.spec_headers_spec(),
    {
        &self.headers_spec
    }

    /// Exactly the body specification supplied at construction.
    pub fn body_spec(&self) -> (r: &Option<B>)
        ensures
            *r == self.spec_body_spec(),
    {
        &self.body_spec
    }
}

impl<B, D: DeserializerFormat, T: serde::de::DeserializeOwned> EndpointSpec<B, D, T> {
    /// Forwards text parsing to the held deserializer; a fresh parse on
    /// every call, and the descriptor itself is never changed by one.
    pub fn parse_str(&self, response: &str) -> (r: Result<T, DeserializationError>)
        ensures
            r matches Err(e) ==> e.format@ == self.spec_deserializer().format_name(),
    {
        self.deserializer.parse_str(response)
    }

    /// Forwards byte-buffer parsing to the held deserializer.
    pub fn parse_slice(&self, response: &[u8]) -> (r: Result<T, DeserializationError>)
        ensures
            r matches Err(e) ==> e.format@ == self.spec_deserializer().format_name(),
    {
        self.deserializer.parse_slice(response)
    }

    /// Forwards stream parsing to the held deserializer; the caller
    /// supplies and drives the stream, and the parsed value is owned,
    /// independent of the stream's buffers.
    pub fn parse_reader<R: std::io::Read>(&self, rdr: R) -> (r: Result<T, DeserializationError>)
        ensures
            r matches Err(e) ==> e.format@ == self.spec_deserializer().format_name(),
    {
        self.deserializer.parse_reader(rdr)
    }
}

} // verus!
