pub mod coerce;
pub mod decode;
pub mod delimited;
pub mod fixed;
pub mod layout;
pub mod record;
pub mod text;
