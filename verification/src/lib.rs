//! Verified core of a retained-mode UI library: widget identifiers and their
//! common roots, view-model bindings, typed property bags, messages and
//! signals, the rules of text inputs, buttons, tabs and tooltips, the
//! processing of the widget tree and the navigation engine, and an HTML
//! renderer for widget trees.

pub mod text;
pub mod widget_id;
pub mod widget_id_common;
pub mod widget_ref;
pub mod view_model;
pub mod props;
pub mod prefab;
pub mod messenger;
pub mod signals;
pub mod queues;
pub mod state;
pub mod application;
pub mod data_binding;
pub mod context;
pub mod navigation;
pub mod input_field;
pub mod button;
pub mod units;
pub mod containers;
pub mod interactions;
pub mod component;
pub mod html;
pub mod layout;
pub mod identity;
pub mod tree;
