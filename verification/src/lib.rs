//! A verified request-routing library for HTTP-like servers.
//!
//! The crate provides a uniform [`service::Service`] contract for turning a
//! request into a response or an error, combinators that transform services,
//! a path-pattern [`router::Router`] with nested mounts and parameter
//! capture, a per-method dispatch table, and one-shot task values that tie a
//! route match to its eventual result.
//!
//! Textual protocol data (paths, header names and values, query strings,
//! captured parameters) is held as bytes, as it appears on the wire.

pub mod body;
pub mod error;
pub mod extensions;
pub mod extract;
pub mod html;
pub mod http;
pub mod method;
pub mod middleware;
pub mod params;
pub mod pattern;
pub mod request;
pub mod response;
pub mod router;
pub mod service;
pub mod util;

pub use error::BoxError;
pub use error::MethodNotAllowed;
pub use error::Never;
pub use error::NotFound;
pub use request::Request;
pub use response::Builder;
pub use response::Head;
pub use response::IntoResponse;
pub use response::Response;
pub use body::Body;
pub use body::BoxBody;
pub use body::SizeHint;
pub use extract::header;
pub use extract::is_json_content_type;
pub use extract::param;
pub use extract::param_raw;
pub use extract::params;
pub use extract::stream;
pub use extract::ExtractHeaderError;
pub use extract::ExtractParamError;
pub use extensions::ExtKind;
pub use extensions::Extension;
pub use extensions::Extensions;
pub use html::html;
pub use html::Html;
pub use http::HeaderMap;
pub use http::HttpError;
pub use http::Method;
pub use http::StatusCode;
pub use http::Uri;
pub use http::Version;
pub use method::MethodRouter;
pub use middleware::add_extension;
pub use middleware::handle_error;
pub use middleware::AddExtension;
pub use middleware::AddExtensionWarp;
pub use middleware::HandleError;
pub use middleware::HandleErrorFuture;
pub use middleware::HandleErrorWap;
pub use params::Params;
pub use pattern::Pattern;
pub use router::Endpoint;
pub use router::Router;
pub use router::RouteFuture;

pub use service::Service;
pub use service::Wrap;
pub use util::AndThen;
pub use util::BoxService;
pub use util::Either;
pub use util::MapErr;
pub use util::MapFuture;
pub use util::MapRequest;
pub use util::MapResponse;
pub use util::service_fn;
pub use util::ServiceExt;
pub use util::ServiceFn;
