//! Request signing and request building for the Aliyun CDN API.

pub mod calendar;
pub mod client;
pub mod clock;
pub mod credentials;
pub mod edgescript;
pub mod encoding;
pub mod error;
pub mod json;
pub mod options;
pub mod params;
pub mod query;
pub mod reading;
pub mod response;
pub mod signing;
pub mod text;
pub mod urls;
