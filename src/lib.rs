//! Scraping of wireless-tool output into typed interface and network records,
//! and the state transitions of the application that shows them.
pub mod interface;
pub mod network;
pub mod refresh;
pub mod security;
pub mod state;
pub mod text;

pub use interface::{connected_ssid, parse_iw, WirelessInterface};
pub use network::{parse_nw, Frequency, Quality, WirelessNetwork};
pub use refresh::{RefreshJob, RefreshPhase, WorkerAction, WorkerEvent};
pub use security::SecurityType;
pub use state::{AppState, InterfaceSwitch, RefreshRequest, SETTLE_DELAY_MS};
