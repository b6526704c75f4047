//! Webhook notifications for a product catalog: a registry of subscribers per
//! topic, the JSON payload of one event, and the fan-out of that payload to
//! every subscriber of the topic.
//!
//! The library decides; it performs no I/O. `NotificationService::notify` turns
//! an event into a plan of HTTP requests, the caller sends them, and
//! `DispatchPlan::conclude` turns what the transport reported into an outcome.

pub mod json;
pub mod notification;
pub mod registry;
pub mod service;
pub mod subscriber;
pub mod text;
pub mod validation;
