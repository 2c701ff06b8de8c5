pub mod types;
pub mod wire;
pub mod interface;
pub mod value;
pub mod codec;
pub mod lower;
pub mod lift;
pub mod handles;
pub mod outcome;
pub mod names;
pub mod csharp;
pub mod gecko;
