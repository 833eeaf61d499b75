//! Decision core of a roster synchroniser for a tournament-management service.
//!
//! Every function here is pure: it takes rows and the currently known remote
//! records and says what has to be created, patched or skipped. Network and
//! file access belong to the caller, who sends what a decision says and hands
//! back what the service answered.
//!
//! - [`request_manager`]: what to do with the status of a response, and the
//!   backoff that all calls share.
//! - [`resolve`]: which known record a row stands for.
//! - [`categories`]: categories that are created when they are first named.
//! - [`import`]: the phases of a run and the decision for every row; [`sync`]
//!   holds the model of an import and its laws.
//! - [`clash`]: conflicts between judges, teams and institutions.
//! - [`rows`]: the rows of the sheets; [`payload`] and [`json`]: what is sent.
//! - [`draw`], [`view_draw`], [`save_panels`]: editing, showing and restoring
//!   the draw of a round.
//! - [`break_eligibility`], [`sensible`], [`clear_rooms`], [`export`]: the
//!   single-shot commands.

pub mod api_utils;
pub mod break_eligibility;
pub mod categories;
pub mod clear_rooms;
pub mod clash;
pub mod config;
pub mod dispatch_req;
pub mod draw;
pub mod entities;
pub mod export;
pub mod import;
pub mod json;
pub mod order;
pub mod payload;
pub mod request_manager;
pub mod resolve;
pub mod rows;
pub mod save_panels;
pub mod sensible;
pub mod sync;
pub mod text;
pub mod view_draw;
