pub mod accounting;
pub mod clock;
pub mod archive;
pub mod bridge;
pub mod bytes;
pub mod conversations;
pub mod error;
pub mod flows;
pub mod json;
pub mod ledger;
pub mod manager;
pub mod models;
pub mod number;
pub mod params;
pub mod sorting;
pub mod text;
pub mod transcript;
pub mod update;
pub mod upload;
pub mod watch;
