//! Run-time choices handed in from outside: which player, which room
//! generator, and how often the live source is re-polled.

use vstd::prelude::*;

verus! {

#[derive(Debug, Clone, Copy, PartialEq, Eq, Structural)]
pub enum PlayerType {
    Demo1,
    Player1,
}

impl Default for PlayerType {
    fn default() -> (r: PlayerType)
        ensures
            r == PlayerType::Demo1,
    {
        PlayerType::Demo1
    }
}

#[derive(Debug, Clone, Copy, PartialEq, Eq, Structural)]
pub enum RoomGeneratorType {
    Rooms2,
    Rooms5,
    Rooms25,
    K8sFile,
    K8sLive,
}

impl Default for RoomGeneratorType {
    fn default() -> (r: RoomGeneratorType)
        ensures
            r == RoomGeneratorType::Rooms5,
    {
        RoomGeneratorType::Rooms5
    }
}

/// The parsed command line, every choice optional.
pub struct Cli {
    pub player: Option<PlayerType>,
    pub room_generator: Option<RoomGeneratorType>,
    pub generator_poll_secs: Option<u8>,
}

/// The generator an absent or given choice selects: the file source when
/// nothing is chosen, otherwise the choice itself.
pub fn resolve_room_generator(choice: Option<RoomGeneratorType>) -> (r: RoomGeneratorType)
    ensures
        r == match choice {
            Some(c) => c,
            None => RoomGeneratorType::K8sFile,
        },
{
    match choice {
        Some(c) => c,
        None => RoomGeneratorType::K8sFile,
    }
}

/// How many seconds the live refresh loop sleeps between two passes:
/// the configured value, or sixty when none is configured.
pub fn effective_poll_secs(generator_poll_secs: Option<u8>) -> (r: u8)
    ensures
        r == match generator_poll_secs {
            Some(s) => s,
            None => 60u8,
        },
{
    match generator_poll_secs {
        Some(s) => s,
        None => 60,
    }
}

} // verus!
