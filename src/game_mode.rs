use vstd::prelude::*;

use crate::codec::{CodecError, Decode, Encode, Reader};
use crate::varint::VarInt;

verus! {

/// How a player takes part in the world.
#[derive(Clone, Copy, Debug, PartialEq, Eq, Structural, Default)]
pub enum GameMode {
    #[default]
    Survival,
    Creative,
    Adventure,
    Spectator,
}

impl DeepView for GameMode {
    type V = GameMode;

    open spec fn deep_view(&self) -> GameMode {
        *self
    }
}

/// The number of each game mode: 0 to 3 in declaration order.
pub open spec fn spec_game_mode_index(m: GameMode) -> nat {
    match m {
        GameMode::Survival => 0,
        GameMode::Creative => 1,
        GameMode::Adventure => 2,
        GameMode::Spectator => 3,
    }
}

/// The game mode numbered `i`, if there is one.
pub open spec fn spec_game_mode_of(i: int) -> Option<GameMode> {
    if i == 0 {
        Some(GameMode::Survival)
    } else if i == 1 {
        Some(GameMode::Creative)
    } else if i == 2 {
        Some(GameMode::Adventure)
    } else if i == 3 {
        Some(GameMode::Spectator)
    } else {
        None
    }
}

impl GameMode {
    /// Converts the game mode to its number: Survival 0, Creative 1, Adventure 2,
    /// Spectator 3.
    pub fn to_index(self) -> (r: usize)
        ensures
            r == spec_game_mode_index(self),
    {
        match self {
            GameMode::Survival => 0,
            GameMode::Creative => 1,
            GameMode::Adventure => 2,
            GameMode::Spectator => 3,
        }
    }
}

impl Encode for GameMode {
    /// The mode's number as a VarInt.
    open spec fn spec_encode(v: GameMode) -> Result<Seq<u8>, CodecError> {
        VarInt::spec_encode(VarInt(spec_game_mode_index(v) as i32))
    }

    fn encode(&self, w: &mut Vec<u8>) -> (res: Result<(), CodecError>) {
        VarInt(self.to_index() as i32).encode(w)
    }
}

impl Decode for GameMode {
    /// A VarInt that must number one of the modes.
    open spec fn spec_decode(s: Seq<u8>) -> Result<(GameMode, nat), CodecError> {
        match VarInt::spec_decode(s) {
            Ok((v, n)) => match spec_game_mode_of(v.0 as int) {
                Some(m) => Ok((m, n)),
                None => Err(CodecError::Malformed),
            },
            Err(e) => Err(e),
        }
    }

    fn decode(r: &mut Reader) -> (res: Result<GameMode, CodecError>) {
        let v = VarInt::decode(r)?;
        match v.0 {
            0 => Ok(GameMode::Survival),
            1 => Ok(GameMode::Creative),
            2 => Ok(GameMode::Adventure),
            3 => Ok(GameMode::Spectator),
            _ => Err(CodecError::Malformed),
        }
    }
}

} // verus!
