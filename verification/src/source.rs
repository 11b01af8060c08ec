//! The source of an import: how a file of games is packed, as far as its
//! name tells.

use vstd::prelude::*;

use crate::text::same_text;

verus! {

/// How a file of games is packed.
#[derive(Clone, Copy, Debug, PartialEq, Eq, Structural)]
pub enum Compression {
    /// Packed with bzip2.
    Bzip2,
    /// Packed with Zstandard.
    Zstd,
    /// Not packed.
    Plain,
}

/// How a file with this extension is packed.
pub open spec fn compression_of(extension: Seq<char>) -> Compression {
    if extension == "bz2"@ {
        Compression::Bzip2
    } else if extension == "zst"@ {
        Compression::Zstd
    } else {
        Compression::Plain
    }
}

/// Tells from the extension of a file how it is packed: `bz2` is bzip2,
/// `zst` is Zstandard, anything else is taken as it stands.
pub fn detect_compression(extension: &str) -> (r: Compression)
    ensures
        r == compression_of(extension@),
{
    if same_text(extension, "bz2") {
        Compression::Bzip2
    } else if same_text(extension, "zst") {
        Compression::Zstd
    } else {
        Compression::Plain
    }
}

} // verus!
