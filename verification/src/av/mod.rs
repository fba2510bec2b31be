pub mod audio;
pub mod clock;
pub mod codec;
pub mod decoder;
pub mod deinterlace;
pub mod double;
pub mod error;
pub mod ffmpeg;
pub mod hw;
pub mod loas;
pub mod opening;
pub mod pes;
pub mod picture;
pub mod renderer;
pub mod scan_type;
pub mod video_queue;
