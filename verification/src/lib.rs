//! The decisions of a service that adjusts the brightness and contrast of one
//! image: how the service starts, which requests are accepted, which
//! parameters the pixel transform gets, who may work on the image, and which
//! response each outcome earns. Numbers are binary64 patterns throughout, and
//! the arithmetic on them is done here, on integers.

pub mod binary64;
pub mod rounding;
pub mod arithmetic;
pub mod request;
pub mod response;
pub mod store;
pub mod handler;
pub mod startup;
