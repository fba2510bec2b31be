pub mod adapter;
pub mod device;
pub mod hwaccel_mode;
pub mod shared_import;
pub mod shared_pool;
pub mod surface;
pub mod tdr;
pub mod video_processor;
