pub mod bytes;
pub mod canonical;
pub mod decode;
pub mod encode;
pub mod group;
pub mod parse;
pub mod reader;
pub mod rebuild;
pub mod received;
pub mod renaming;
pub mod rereading;
pub mod round_trip;
pub mod written;
