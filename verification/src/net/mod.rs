pub mod error;
pub mod fec;
pub mod ipv4;
pub mod receiver;
pub mod rtp;
pub mod rtp_seq;
pub mod source;
pub mod stop;
pub mod timing;
pub mod url;
