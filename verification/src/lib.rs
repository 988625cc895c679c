//! Core of a small embedded-OS project scaffolder: typed manifests for the
//! project (OS manifest), its apps and its drivers, a text codec that stores
//! them on disk, a registry that keeps component names unique, a dependency
//! editor that keeps cross-references consistent, and a generator for the
//! build header consumed by the external build tool.

pub mod codec;
pub mod config;
pub mod display;
pub mod editor;
pub mod generator;
pub mod num;
pub mod registry;
pub mod text;
