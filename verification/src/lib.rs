//! Baryon: a semantic-version dependency resolver.
//!
//! Given top-level package requirements and an index of every known release
//! with its dependencies, the resolver picks one version per package such
//! that every requirement is met, or reports the requirement that cannot be
//! met.
//!
//! - [`version`] and [`requirement`]: versions, ranges and required-by
//!   chains; parsing, ordering and matching are `semver`'s.
//! - [`index`]: the package index, built once from a catalog.
//! - [`strategy`]: which candidates are dropped and which is tried first.
//! - [`search`]: the search as a state machine on mathematical values.
//! - [`resolver`]: the search on the machine, step for step the same.
//! - [`closure`], [`soundness`], [`chains`], [`termination`]: what holds of
//!   every state of a search and of every answer, and why a search ends.
//! - [`repository`], [`http`], [`settings`], [`list`]: where catalogs come
//!   from and what the command line asks.

pub mod chains;
pub mod closure;
pub mod http;
pub mod index;
pub mod list;
pub mod lookup;
pub mod repository;
pub mod requirement;
pub mod resolver;
pub mod search;
pub mod settings;
pub mod soundness;
pub mod strategy;
pub mod termination;
pub mod version;
pub mod views;
