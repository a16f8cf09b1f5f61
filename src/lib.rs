//! Safe, reusable handles around the STAR short-read aligner: the option
//! list handed to the engine, the contig header of an index, the text
//! protocol spoken with the engine, and the records synthesized for reads
//! that the engine cannot take.

pub mod aligner;
pub mod codec;
pub mod header;
pub mod record;
pub mod settings;
