//! A verified core for an SD card host driver.

pub mod bench;
pub mod blocks;
pub mod card;
pub mod clock;
pub mod cmd;
pub mod data_laws;
pub mod device;
pub mod device_laws;
pub mod effect;
pub mod init;
pub mod init_laws;
pub mod init_scripts;
pub mod inner;
pub mod interrupt;
pub mod job;
pub mod link;
pub mod pins;
pub mod progress_laws;
pub mod register_laws;
pub mod registers;
pub mod row_laws;
pub mod script;
pub mod script_laws;
pub mod sent;
pub mod service_laws;
pub mod store_laws;
pub mod transfer;
pub mod types;
pub mod words;
pub mod write;
pub mod write_laws;
