//! [`IntoResponse`]: coercions that let route handlers return plain values.
use crate::bytes::copy_of;
use crate::proto::response::{bare, status_response, BodyModel, Response, ResponseModel};
use crate::proto::status::{standard, StatusCode};
use crate::text::owned;
use vstd::prelude::*;
use vstd::utf8::encode_utf8;

verus! {

broadcast use vstd::seq::group_seq_axioms;

/// A value that can be turned into a [`Response`].
///
/// This is what lets a route handler return a bare `&str`, `String`, `Vec<u8>`,
/// [`StatusCode`], a `(StatusCode, T)` pair, an `Option<T>`, or a `Result<T, E>`
/// instead of always building a full [`Response`]. Implement it for your own
/// types to return them directly.
pub trait IntoResponse: Sized {
    /// The response that a value stands for.
    spec fn response(self) -> ResponseModel;

    /// Consume `self` and produce the response to send.
    fn into_response(self) -> (r: Response)
        ensures
            r@ == self.response(),
    ;
}

/// A plain-text `200 OK`.
pub open spec fn text_response(text: Seq<char>) -> ResponseModel {
    ResponseModel {
        status: standard(200),
        headers: seq![("Content-Type"@, "text/plain; charset=utf-8"@)],
        body: BodyModel::Bytes(encode_utf8(text)),
    }
}

/// An opaque `200 OK`.
pub open spec fn bytes_response(bytes: Seq<u8>) -> ResponseModel {
    ResponseModel {
        status: standard(200),
        headers: seq![("Content-Type"@, "application/octet-stream"@)],
        body: BodyModel::Bytes(bytes),
    }
}

impl IntoResponse for Response {
    open spec fn response(self) -> ResponseModel {
        self@
    }

    fn into_response(self) -> (r: Response) {
        self
    }
}

/// An empty `200 OK`.
impl IntoResponse for () {
    open spec fn response(self) -> ResponseModel {
        bare(standard(200))
    }

    fn into_response(self) -> (r: Response) {
        Response::new(StatusCode::ok())
    }
}

/// A bare status with an empty body.
impl IntoResponse for StatusCode {
    open spec fn response(self) -> ResponseModel {
        bare(self)
    }

    fn into_response(self) -> (r: Response) {
        Response::new(self)
    }
}

impl IntoResponse for &str {
    open spec fn response(self) -> ResponseModel {
        text_response(self@)
    }

    fn into_response(self) -> (r: Response) {
        let r = Response::text(owned(self));
        proof {
            assert(r@.headers =~= text_response(self@).headers);
        }
        r
    }
}

impl IntoResponse for String {
    open spec fn response(self) -> ResponseModel {
        text_response(self@)
    }

    fn into_response(self) -> (r: Response) {
        let ghost t = self@;
        let r = Response::text(self);
        proof {
            assert(r@.headers =~= text_response(t).headers);
        }
        r
    }
}

impl IntoResponse for Vec<u8> {
    open spec fn response(self) -> ResponseModel {
        bytes_response(self@)
    }

    fn into_response(self) -> (r: Response) {
        let ghost b = self@;
        let r = Response::new(StatusCode::ok()).header(
            "Content-Type",
            "application/octet-stream",
        ).body(self);
        proof {
            assert(r@.headers =~= bytes_response(b).headers);
        }
        r
    }
}

impl IntoResponse for &[u8] {
    open spec fn response(self) -> ResponseModel {
        bytes_response(self@)
    }

    fn into_response(self) -> (r: Response) {
        copy_of(self).into_response()
    }
}

/// `Some` becomes the inner response; `None` becomes `404 Not Found`.
impl<T: IntoResponse> IntoResponse for Option<T> {
    open spec fn response(self) -> ResponseModel {
        match self {
            Some(value) => value.response(),
            None => status_response(standard(404)),
        }
    }

    fn into_response(self) -> (r: Response) {
        match self {
            Some(value) => value.into_response(),
            None => Response::status(StatusCode::not_found()),
        }
    }
}

/// `Ok` and `Err` are each coerced — so `?` works inside a handler as long as
/// the error type is [`IntoResponse`].
impl<T: IntoResponse, E: IntoResponse> IntoResponse for core::result::Result<T, E> {
    open spec fn response(self) -> ResponseModel {
        match self {
            Ok(value) => value.response(),
            Err(err) => err.response(),
        }
    }

    fn into_response(self) -> (r: Response) {
        match self {
            Ok(value) => value.into_response(),
            Err(err) => err.into_response(),
        }
    }
}

/// Override the status of an inner response, e.g. `(StatusCode::created(), body)`.
impl<T: IntoResponse> IntoResponse for (StatusCode, T) {
    open spec fn response(self) -> ResponseModel {
        ResponseModel { status: self.0, ..self.1.response() }
    }

    fn into_response(self) -> (r: Response) {
        let (status, inner) = self;
        inner.into_response().with_status(status)
    }
}

} // verus!
