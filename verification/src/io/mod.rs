//! Reading arrays from their binary forms.
pub mod ipc;
