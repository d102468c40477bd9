//! A window-relative profile system: named profiles bound to operating-system
//! windows, a lifecycle state machine (open / activate / update / deactivate /
//! close) with pluggable services dispatched by a trigger algebra, a
//! system-level active-profile resolution and switching protocol, and a small
//! length-prefixed key/value byte store for per-profile data.
//!
//! Window focus, task scheduling and the bodies of services and handlers are
//! outside collaborators: they stand behind the [`host::WindowRelativeHost`]
//! trait and the plain-value [`window::WindowSnapshot`] record, so that the
//! coordination logic itself is fully specified and verified.

pub mod effect;
pub mod encoding;
pub mod host;
pub mod profile;
pub mod profile_data;
pub mod profile_service;
pub mod properties;
pub mod server_controller;
pub mod system;
pub mod trigger;
pub mod window;

pub use effect::Effect;
pub use host::WindowRelativeHost;
pub use profile::ActiveChecker;
pub use profile::WindowRelativeProfile;
pub use profile_data::WindowRelativeProfileData;
pub use profile_data::WindowRelativeProfileDataConvertible;
pub use profile_service::TriggerOverride;
pub use profile_service::WindowRelativeProfileService;
pub use profile_service::WindowRelativeProfileServiceSet;
pub use properties::ProfileProperties;
pub use server_controller::CommandReference;
pub use server_controller::ServerController;
pub use server_controller::ServerHost;
pub use system::SwitchReport;
pub use system::SystemEffect;
pub use system::WindowRelativeSystem;
pub use trigger::TriggerSpec;
pub use window::WindowSnapshot;
