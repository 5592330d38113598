//! Systemd unit states, the service status map the server reports, the
//! server's checks on the services it watches, and the decisions of the
//! status-light firmware, with their contracts.

pub mod api;
pub mod blink;
pub mod http;
pub mod systemd;
pub mod text;
pub mod unit;

pub use api::{ServiceStatuses, UnitStatus, DEFAULT_SERVER_PORT, SERVER_ENDPOINT};
pub use unit::{UnitActiveState, UnitActiveSubState, UnitLoadState};
