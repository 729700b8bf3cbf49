pub mod chat;
pub mod espeak;
pub mod images;
pub mod json;
pub mod keyed_map;
pub mod provider;
pub mod request;
pub mod response;
pub mod stream;
pub mod text;
