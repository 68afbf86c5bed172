pub mod codec;
pub mod device;
pub mod dispatch;
pub mod laws;
pub mod mapper;
pub mod packet;
pub mod router;
pub mod stats;
