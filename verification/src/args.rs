//! What a caller asks for: one of four operations on a PNG file.

use vstd::prelude::*;

verus! {

/// A request: the operation and what it needs.
#[derive(Debug, PartialEq, Eq)]
pub struct Cli {
    /// Operation on the PNG file.
    pub command: Commands,
}

/// The four operations.
#[derive(Debug, PartialEq, Eq)]
pub enum Commands {
    /// Hide a message in the file.
    Encode(EncodeArgs),
    /// Read a hidden message from the file.
    Decode(DecodeArgs),
    /// Take a hidden message out of the file.
    Remove(RemoveArgs),
    /// List the messages that the file may hide.
    Print(PrintArgs),
}

/// What hiding a message needs.
#[derive(Debug, PartialEq, Eq)]
pub struct EncodeArgs {
    /// Path of the PNG file.
    pub file_path: String,
    /// Type of the chunk that will carry the message.
    pub chunk_type: String,
    /// The message to hide.
    pub message: String,
}

/// What reading a message needs.
#[derive(Debug, PartialEq, Eq)]
pub struct DecodeArgs {
    /// Path of the PNG file.
    pub file_path: String,
    /// Type of the chunk that carries the message.
    pub chunk_type: String,
}

/// What taking a message out needs.
#[derive(Debug, PartialEq, Eq)]
pub struct RemoveArgs {
    /// Path of the PNG file.
    pub file_path: String,
    /// Type of the chunk to take out.
    pub chunk_type: String,
}

/// What listing the messages needs.
#[derive(Debug, PartialEq, Eq)]
pub struct PrintArgs {
    /// Path of the PNG file.
    pub file_path: String,
}

impl Commands {
    /// The path of the file that the operation works on.
    pub fn file_path(&self) -> (path: &String)
        ensures
            *path == match *self {
                Commands::Encode(args) => args.file_path,
                Commands::Decode(args) => args.file_path,
                Commands::Remove(args) => args.file_path,
                Commands::Print(args) => args.file_path,
            },
    {
        match self {
            Commands::Encode(args) => &args.file_path,
            Commands::Decode(args) => &args.file_path,
            Commands::Remove(args) => &args.file_path,
            Commands::Print(args) => &args.file_path,
        }
    }
}

} // verus!
