//! Messages exchanged between the game server and its DOOM worker processes.
use vstd::prelude::*;

verus! {

/// Width of a frame, in pixels (one map item is 128 pixels wide).
pub const MAP_WIDTH: usize = 128;

/// Height of a frame, in pixels.
pub const MAP_HEIGHT: usize = 128;

/// Number of bytes in one frame (`MAP_WIDTH * MAP_HEIGHT`).
pub const FRAME_SIZE: usize = 16384;

/// Number of player slots a networked game has.
pub const MAX_PLAYERS: usize = 4;

/// How many tick bundles a worker buffers before it applies them.
pub const BACKUP_TICS: usize = 128;

/// One player's input for one game tick.
#[derive(Debug, Clone, Copy, PartialEq, Eq, Structural)]
pub struct TicCmd {
    /// The tick this command was generated at.
    pub maketic: i32,
    /// The player that generated this command.
    pub player_id: i32,
    pub forwardmove: i8,
    pub sidemove: i8,
    pub angleturn: i16,
    pub chatchar: i8,
    pub buttons: i8,
    pub consistancy: i8,
    pub buttons2: i8,
    pub inventory: i32,
    pub lookfly: i8,
    pub arti: i8,
}

/// The all-zero command, which is what a player slot without input sends.
pub open spec fn zero_ticcmd() -> TicCmd {
    TicCmd {
        maketic: 0,
        player_id: 0,
        forwardmove: 0,
        sidemove: 0,
        angleturn: 0,
        chatchar: 0,
        buttons: 0,
        consistancy: 0,
        buttons2: 0,
        inventory: 0,
        lookfly: 0,
        arti: 0,
    }
}

impl Default for TicCmd {
    fn default() -> (res: Self)
        ensures
            res == zero_ticcmd(),
    {
        TicCmd {
            maketic: 0,
            player_id: 0,
            forwardmove: 0,
            sidemove: 0,
            angleturn: 0,
            chatchar: 0,
            buttons: 0,
            consistancy: 0,
            buttons2: 0,
            inventory: 0,
            lookfly: 0,
            arti: 0,
        }
    }
}

/// Settings a networked game starts with.
#[derive(Debug, Clone, Copy, PartialEq, Eq)]
pub struct DoomGameSettings {
    pub ticdup: i32,
    pub extratics: i32,
    pub deathmatch: i32,
    pub episode: i32,
    pub nomonsters: i32,
    pub fast_monsters: i32,
    pub respawn_monsters: i32,
    pub map: i32,
    pub skill: i32,
    pub gameversion: i32,
    pub lowres_turn: i32,
    pub new_sync: i32,
    pub timelimit: i32,
    pub loadgame: i32,
    pub random: i32,
    pub num_players: i32,
    pub consoleplayer: i32,
    pub player_classes: [i32; 8],
}

/// The commands of every player slot for one tick.
#[derive(Debug, Clone, Copy, PartialEq, Eq)]
pub struct CmdBundle {
    pub maketic: i32,
    pub present: [bool; MAX_PLAYERS],
    pub cmds: [TicCmd; MAX_PLAYERS],
}

impl Default for CmdBundle {
    fn default() -> (res: Self)
        ensures
            res.maketic == 0,
            forall|i: int| 0 <= i < MAX_PLAYERS ==> !res.present[i],
            forall|i: int| 0 <= i < MAX_PLAYERS ==> res.cmds[i] == zero_ticcmd(),
    {
        let z = TicCmd::default();
        CmdBundle { maketic: 0, present: [false, false, false, false], cmds: [z, z, z, z] }
    }
}

/// A palette-mapped frame, row by row.
#[derive(Debug, Clone, Copy, PartialEq, Eq)]
pub struct Frame(pub [u8; FRAME_SIZE]);

/// Why a byte buffer could not become a frame.
#[derive(Debug, Clone, Copy, PartialEq, Eq, Structural)]
pub enum FrameError {
    /// The buffer does not hold exactly `FRAME_SIZE` bytes.
    InvalidLength,
}

impl Frame {
    /// Builds a frame from its bytes, as a frame is read back off the wire.
    pub fn from_bytes(bytes: &Vec<u8>) -> (res: Result<Frame, FrameError>)
        ensures
            bytes.len() == FRAME_SIZE <==> res is Ok,
            res matches Ok(f) ==> f.0@ == bytes@,
            res matches Err(e) ==> e == FrameError::InvalidLength,
    {
        if bytes.len() != MAP_WIDTH * MAP_HEIGHT {
            return Err(FrameError::InvalidLength);
        }
        let mut array = [0u8; FRAME_SIZE];
        let mut i: usize = 0;
        while i < FRAME_SIZE
            invariant
                i <= FRAME_SIZE,
                bytes.len() == FRAME_SIZE,
                forall|j: int| 0 <= j < i ==> array[j] == bytes[j],
            decreases FRAME_SIZE - i,
        {
            array[i] = bytes[i];
            i = i + 1;
        }
        assert(array@ =~= bytes@);
        Ok(Frame(array))
    }

    /// The frame's bytes, as a frame is written to the wire.
    pub fn to_bytes(&self) -> (res: Vec<u8>)
        ensures
            res@ == self.0@,
    {
        let mut out: Vec<u8> = Vec::new();
        let mut i: usize = 0;
        while i < FRAME_SIZE
            invariant
                i <= FRAME_SIZE,
                out@ == self.0@.take(i as int),
            decreases FRAME_SIZE - i,
        {
            out.push(self.0[i]);
            i = i + 1;
            assert(out@ =~= self.0@.take(i as int));
        }
        assert(self.0@.take(FRAME_SIZE as int) =~= self.0@);
        out
    }
}

/// Writing a frame out as bytes and reading those bytes back gives the same
/// frame: the bytes `to_bytes` returns always have the length `from_bytes`
/// accepts, and any frame built from them equals the frame written.
pub proof fn law_frame_round_trip(written: Frame, read_back: Frame)
    requires
        read_back.0@ == written.0@,
    ensures
        written.0@.len() == FRAME_SIZE,
        read_back == written,
{
    assert(read_back.0 =~= written.0);
}

/// A key of the game that a player can press or release.
#[derive(Debug, Clone, Copy, PartialEq, Eq, Structural)]
pub enum Input {
    Up,
    Down,
    Left,
    Right,
    Shoot,
    Use,
    Enter,
    StrafeLeft,
    StrafeRight,
}

/// A command the server sends to a worker.
#[derive(Debug, Clone, Copy, PartialEq, Eq)]
pub enum ServerCommand {
    /// A key was pressed or released.
    Input { input: Input, pressed: bool },
    /// The session was paused or resumed.
    State { active: bool },
    /// The view turned by this much.
    RotationDelta(i16),
    /// The worker is handed its outgoing pipes (their handles travel outside this type).
    RegisterPipes,
    /// The commands of every player for one tick.
    NetCmdBundle(CmdBundle),
    /// A player joined.
    NetJoin { id: i32 },
    /// A player left.
    NetLeave { id: i32 },
    /// The worker's own player slot.
    NetSetLocal { id: i32 },
}

/// An event a worker sends to the server.
#[derive(Debug, Clone, Copy, PartialEq, Eq)]
pub enum ClientEvent {
    TicCmd(TicCmd),
}

} // verus!
