//! A plugin kernel: typed service keys, fibers with a six-state lifecycle,
//! dependency gating, an event bus and service interceptors, together with the
//! file formats and admission rules of dynamically loaded plugins.

pub mod admission;
pub mod belonging;
pub mod boot;
pub mod bundle;
pub mod bus;
pub mod control;
pub mod ctx;
pub mod delivery;
pub mod diagnostics;
pub mod digest;
pub mod dispatch;
pub mod drive;
pub mod effect;
pub mod elf;
pub mod endings;
pub mod error;
pub mod feed;
pub mod fiber;
pub mod fitting;
pub mod flags;
pub mod gating;
pub mod host_events;
pub mod identity;
pub mod intercept;
pub mod key;
pub mod lifecycle;
pub mod list;
pub mod loader;
pub mod lockfile;
pub mod manifest;
pub mod observe;
pub mod order;
pub mod outcomes;
pub mod oversight;
pub mod paths;
pub mod reading;
pub mod reads;
pub mod records;
pub mod registry;
pub mod reporting;
pub mod services;
pub mod shared;
pub mod spawn;
pub mod subtree;
pub mod survey;
pub mod text;
pub mod versions;
pub mod view;
pub mod wording;
