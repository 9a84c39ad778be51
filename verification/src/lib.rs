pub mod certificate;
pub mod commands;
pub mod keys;
pub mod keyserver;
pub mod logger;
pub mod protocol;
pub mod protocol_laws;
pub mod text;
pub mod value;
