//! Platform logic of a terminal application: shell resolution and prompt
//! integration, process-group bookkeeping, the review sidebar's selection
//! state, tab navigation around the review tab, the syntax bundle's
//! descriptor validation and the updater's start-up decisions.

pub mod integration;
pub mod process;
pub mod review;
pub mod shell;
pub mod syntax;
pub mod tabs;
pub mod text;
pub mod updater;
