pub mod account;
pub mod auth;
pub mod cache;
pub mod codec;
pub mod d1;
pub mod db;
pub mod dedupe;
pub mod detail;
pub mod gallery;
pub mod gemini;
pub mod jobs;
pub mod keeper;
pub mod links;
pub mod models;
pub mod number;
pub mod public_route;
pub mod raster;
pub mod seo;
pub mod seo_route;
pub mod storage;
pub mod text;
pub mod unicode;
pub mod upload;
pub mod watermark;
pub mod widgets;
