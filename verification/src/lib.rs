//! Driver logic for an I2C controller that is run as a slave.

pub mod config;
pub mod conversation;
pub mod counter;
pub mod driver;
pub mod event;
pub mod fifo;
pub mod handler;
pub mod i2c;
pub mod instance;
pub mod plan;
pub mod platform;
pub mod register;
pub mod service;
pub mod state;
pub mod traffic;
pub mod transaction;

pub use config::{Config, ConfigError, Error, I2cAddress};
pub use event::{Event, SlaveEvent};
pub use i2c::I2c;
pub use instance::{AnyI2c, Info, Instance};
pub use register::FIFO_SIZE;
pub use state::State;
