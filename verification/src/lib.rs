pub mod alert;
mod chars;
pub mod decode;
pub mod encode;
pub mod laws;
pub mod wire;

pub use alert::Alert;
pub use alert::Error;
pub use decode::deserialize;
pub use encode::serialize;
pub use wire::AlertModel;
