//! Frames: the unit that the protocol multiplexes over one connection.
use vstd::prelude::*;
use bytes::Bytes;
use crate::payload::{bytes_contents, bytes_new, bytes_len, bytes_is_empty};

verus! {

/// Frame header size: 1 (cmd) + 4 (stream_id) + 2 (data_len) = 7 bytes
pub const HEADER_OVERHEAD_SIZE: usize = 7;

/// Command types, numbered 0 to 10 on the wire.
#[derive(Debug, Clone, Copy, PartialEq, Eq, Structural)]
pub enum Command {
    /// Padding (0)
    Waste,
    /// Stream open (1)
    Syn,
    /// Data push (2)
    Push,
    /// Stream close, a.k.a. EOF mark (3)
    Fin,
    /// Settings, client to server (4)
    Settings,
    /// Alert (5)
    Alert,
    /// Update of the padding scheme (6)
    UpdatePaddingScheme,
    /// Server reports to the client that the stream has been opened (7)
    SynAck,
    /// Keep alive request (8)
    HeartRequest,
    /// Keep alive response (9)
    HeartResponse,
    /// Settings, server to client (10)
    ServerSettings,
}

impl Command {
    /// The wire number of a command.
    pub open spec fn spec_code(self) -> u8 {
        match self {
            Command::Waste => 0,
            Command::Syn => 1,
            Command::Push => 2,
            Command::Fin => 3,
            Command::Settings => 4,
            Command::Alert => 5,
            Command::UpdatePaddingScheme => 6,
            Command::SynAck => 7,
            Command::HeartRequest => 8,
            Command::HeartResponse => 9,
            Command::ServerSettings => 10,
        }
    }
}

/// The command that a wire number stands for; an unknown number is treated as `Waste`.
pub open spec fn command_of_code(value: u8) -> Command {
    if value == 1 {
        Command::Syn
    } else if value == 2 {
        Command::Push
    } else if value == 3 {
        Command::Fin
    } else if value == 4 {
        Command::Settings
    } else if value == 5 {
        Command::Alert
    } else if value == 6 {
        Command::UpdatePaddingScheme
    } else if value == 7 {
        Command::SynAck
    } else if value == 8 {
        Command::HeartRequest
    } else if value == 9 {
        Command::HeartResponse
    } else if value == 10 {
        Command::ServerSettings
    } else {
        Command::Waste
    }
}

impl From<u8> for Command {
    fn from(value: u8) -> (res: Self) {
        match value {
            0 => Command::Waste,
            1 => Command::Syn,
            2 => Command::Push,
            3 => Command::Fin,
            4 => Command::Settings,
            5 => Command::Alert,
            6 => Command::UpdatePaddingScheme,
            7 => Command::SynAck,
            8 => Command::HeartRequest,
            9 => Command::HeartResponse,
            10 => Command::ServerSettings,
            _ => Command::Waste,
        }
    }
}

impl vstd::std_specs::convert::FromSpecImpl<u8> for Command {
    open spec fn obeys_from_spec() -> bool {
        true
    }

    open spec fn from_spec(value: u8) -> Command {
        command_of_code(value)
    }
}

impl From<Command> for u8 {
    fn from(cmd: Command) -> (res: u8) {
        match cmd {
            Command::Waste => 0,
            Command::Syn => 1,
            Command::Push => 2,
            Command::Fin => 3,
            Command::Settings => 4,
            Command::Alert => 5,
            Command::UpdatePaddingScheme => 6,
            Command::SynAck => 7,
            Command::HeartRequest => 8,
            Command::HeartResponse => 9,
            Command::ServerSettings => 10,
        }
    }
}

impl vstd::std_specs::convert::FromSpecImpl<Command> for u8 {
    open spec fn obeys_from_spec() -> bool {
        true
    }

    open spec fn from_spec(cmd: Command) -> u8 {
        cmd.spec_code()
    }
}

/// Decoding the wire number of a command gives the command back.
pub proof fn lemma_command_code_roundtrip(cmd: Command)
    ensures
        command_of_code(cmd.spec_code()) == cmd,
{
}

/// Every number up to 10 names a command whose wire number it is; every larger
/// number is read as `Waste`.
pub proof fn lemma_code_command_roundtrip(value: u8)
    ensures
        value <= 10 ==> command_of_code(value).spec_code() == value,
        value > 10 ==> command_of_code(value) == Command::Waste,
{
}

/// The wire numbers are the protocol's fixed table, in both directions: Waste 0,
/// Syn 1, Push 2, Fin 3, Settings 4, Alert 5, UpdatePaddingScheme 6, SynAck 7,
/// HeartRequest 8, HeartResponse 9, ServerSettings 10; any other number is read as
/// Waste.
pub proof fn lemma_command_wire_table(value: u8)
    ensures
        Command::Waste.spec_code() == 0,
        Command::Syn.spec_code() == 1,
        Command::Push.spec_code() == 2,
        Command::Fin.spec_code() == 3,
        Command::Settings.spec_code() == 4,
        Command::Alert.spec_code() == 5,
        Command::UpdatePaddingScheme.spec_code() == 6,
        Command::SynAck.spec_code() == 7,
        Command::HeartRequest.spec_code() == 8,
        Command::HeartResponse.spec_code() == 9,
        Command::ServerSettings.spec_code() == 10,
        command_of_code(0) == Command::Waste,
        command_of_code(1) == Command::Syn,
        command_of_code(2) == Command::Push,
        command_of_code(3) == Command::Fin,
        command_of_code(4) == Command::Settings,
        command_of_code(5) == Command::Alert,
        command_of_code(6) == Command::UpdatePaddingScheme,
        command_of_code(7) == Command::SynAck,
        command_of_code(8) == Command::HeartRequest,
        command_of_code(9) == Command::HeartResponse,
        command_of_code(10) == Command::ServerSettings,
        value > 10 ==> command_of_code(value) == Command::Waste,
{
}

/// Frame defines a packet from or to be multiplexed into a single connection
#[derive(Debug, Clone, PartialEq, Eq)]
pub struct Frame {
    pub cmd: Command,
    pub stream_id: u32,
    pub data: Bytes,
}

/// The mathematical value of a frame: its command, stream and payload bytes.
pub struct FrameView {
    pub cmd: Command,
    pub stream_id: u32,
    pub payload: Seq<u8>,
}

impl View for Frame {
    type V = FrameView;

    open spec fn view(&self) -> FrameView {
        FrameView { cmd: self.cmd, stream_id: self.stream_id, payload: bytes_contents(self.data) }
    }
}

impl Frame {
    /// The frame's payload bytes.
    pub open spec fn payload(&self) -> Seq<u8> {
        bytes_contents(self.data)
    }

    /// Create a new frame
    pub fn new(cmd: Command, stream_id: u32) -> (res: Self)
        ensures
            res.cmd == cmd,
            res.stream_id == stream_id,
            res.payload() == Seq::<u8>::empty(),
    {
        Self { cmd, stream_id, data: bytes_new() }
    }

    /// Create a new frame with data
    pub fn with_data(cmd: Command, stream_id: u32, data: Bytes) -> (res: Self)
        ensures
            res.cmd == cmd,
            res.stream_id == stream_id,
            res.data == data,
    {
        Self { cmd, stream_id, data }
    }

    /// Create a control frame (no data)
    pub fn control(cmd: Command, stream_id: u32) -> (res: Self)
        ensures
            res.cmd == cmd,
            res.stream_id == stream_id,
            res.payload() == Seq::<u8>::empty(),
    {
        Self::new(cmd, stream_id)
    }

    /// Create a data frame
    pub fn data(stream_id: u32, data: Bytes) -> (res: Self)
        ensures
            res.cmd == Command::Push,
            res.stream_id == stream_id,
            res.data == data,
    {
        Self::with_data(Command::Push, stream_id, data)
    }

    /// Get the total frame size (header + data)
    pub fn total_size(&self) -> (res: usize)
        requires
            self.payload().len() + HEADER_OVERHEAD_SIZE <= usize::MAX,
        ensures
            res == HEADER_OVERHEAD_SIZE + self.payload().len(),
    {
        HEADER_OVERHEAD_SIZE + bytes_len(&self.data)
    }

    /// Check if this is a control frame (no data)
    pub fn is_control(&self) -> (res: bool)
        ensures
            res == (self.payload().len() == 0),
    {
        bytes_is_empty(&self.data)
    }
}

/// A frame without payload, as `new` and `control` make it, is a control frame,
/// and its total size is the header overhead alone.
pub proof fn lemma_payloadless_frame_is_control(f: FrameView)
    requires
        f.payload == Seq::<u8>::empty(),
    ensures
        f.payload.len() == 0,
        HEADER_OVERHEAD_SIZE + f.payload.len() == HEADER_OVERHEAD_SIZE,
        f.payload.len() + HEADER_OVERHEAD_SIZE <= usize::MAX,
{
}

} // verus!
