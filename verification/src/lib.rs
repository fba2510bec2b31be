pub mod av;
pub mod channel;
pub mod net;
pub mod octets;
pub mod text;
