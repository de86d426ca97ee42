mod config;
pub mod board;
pub mod cooldown;
pub mod fetch;
pub mod json;
pub mod pattern;
pub mod placer;
pub mod reconcile;
pub mod scheduler;
pub mod wire;
pub mod wire_board;

pub use config::BOARD_SIZE;
pub use config::MAX_PIXELS_PER_BATCH;
pub use config::BATCH_DELAY_MINUTES;
pub use config::MAX_RETRIES;
pub use config::RETRY_DELAY_SECS;
pub use config::PLACEMENT_RETRY_MILLIS;
pub use config::MAX_PLACEMENT_RETRIES;
