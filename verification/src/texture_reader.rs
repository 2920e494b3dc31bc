//! The streamable texture sources and their outbound channels.

use vstd::prelude::*;
use crate::msgpack::str_eq;

verus! {

/// A texture source of the simulator, or `Unknown` for any identifier
/// this server does not stream.
#[derive(Clone, Copy, Debug, PartialEq, Eq, Structural)]
pub enum TextureId {
    LeftMfd,
    RightMfd,
    Ded,
    Rwr,
    Unknown,
}

/// The texture a wire identifier names.
pub open spec fn texture_id_of(s: Seq<char>) -> TextureId {
    if s == "f16/left-mfd"@ {
        TextureId::LeftMfd
    } else if s == "f16/right-mfd"@ {
        TextureId::RightMfd
    } else if s == "f16/ded"@ {
        TextureId::Ded
    } else if s == "f16/rwr"@ {
        TextureId::Rwr
    } else {
        TextureId::Unknown
    }
}

impl TextureId {
    /// Maps a wire identifier to the texture it names; any other
    /// string is `Unknown`.
    pub fn from_wire(value: &str) -> (t: TextureId)
        ensures
            t == texture_id_of(value@),
    {
        if str_eq(value, "f16/left-mfd") {
            TextureId::LeftMfd
        } else if str_eq(value, "f16/right-mfd") {
            TextureId::RightMfd
        } else if str_eq(value, "f16/ded") {
            TextureId::Ded
        } else if str_eq(value, "f16/rwr") {
            TextureId::Rwr
        } else {
            TextureId::Unknown
        }
    }

    /// The transport channel this texture's frames go out on.
    pub open spec fn spec_channel(self) -> u8 {
        match self {
            TextureId::LeftMfd => 1,
            TextureId::RightMfd => 2,
            TextureId::Ded => 3,
            TextureId::Rwr => 4,
            TextureId::Unknown => 99,
        }
    }

    /// The transport channel this texture's frames go out on: the four
    /// streamable textures use channels 1 through 4. `Unknown` carries
    /// no frames; its nominal channel is 99.
    pub fn channel(&self) -> (c: u8)
        ensures
            c == self.spec_channel(),
    {
        match self {
            TextureId::LeftMfd => 1,
            TextureId::RightMfd => 2,
            TextureId::Ded => 3,
            TextureId::Rwr => 4,
            TextureId::Unknown => 99,
        }
    }
}

} // verus!
