//! nalarch — the verified core of a TUI package manager for Arch Linux.

pub mod text;
pub mod i18n;
pub mod theme;
pub mod app;
pub mod icons;
pub mod history;
pub mod journal;
pub mod data;
pub mod plan;
pub mod risks;
pub mod exec;
pub mod search;
pub mod changelog;
pub mod ui;
pub mod demo;
pub mod json;
pub mod snapshot;
