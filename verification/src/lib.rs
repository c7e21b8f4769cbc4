//! Session, tab, text-selection and update logic of the kPDF desktop viewer.

pub mod platform;
pub mod strings;
pub mod updater;
pub mod text_selection;
pub mod tab;
pub mod codec;
pub mod types;
pub mod store;
pub mod viewer;
pub mod tab_actions;
pub mod rendering;
pub mod navigation;
pub mod popups;
pub mod interactions;
pub mod dialogs;
pub mod keys;
pub mod laws;
pub mod desktop;
