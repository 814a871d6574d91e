//! Messages exchanged with the browser clients over WebSocket and with the
//! terminal-hosting client over the gRPC stream, as plain data.

use std::collections::HashMap;
use vstd::prelude::*;

use crate::ids::{Sid, Uid};

verus! {

/// Position and size of a terminal window on the shared canvas.
#[derive(Clone, Copy, Debug, PartialEq, Eq, Structural)]
pub struct WsWinsize {
    pub x: i32,
    pub y: i32,
    pub rows: u16,
    pub cols: u16,
}

impl WsWinsize {
    /// A default-sized window (24 rows, 80 columns) at the given position.
    pub fn at(x: i32, y: i32) -> (w: Self)
        ensures
            w == (WsWinsize { x, y, rows: 24, cols: 80 }),
    {
        WsWinsize { x, y, rows: 24, cols: 80 }
    }
}

impl Default for WsWinsize {
    fn default() -> (w: Self)
        ensures
            w == (WsWinsize { x: 0, y: 0, rows: 24, cols: 80 }),
    {
        WsWinsize { x: 0, y: 0, rows: 24, cols: 80 }
    }
}

/// A user connected to a session.
#[derive(Clone, Debug)]
pub struct WsUser {
    pub name: String,
    pub cursor: Option<(i32, i32)>,
    pub focus: Option<Sid>,
    pub can_write: bool,
}

impl WsUser {
    /// A copy of this user.
    pub fn duplicate(&self) -> (u: Self)
        ensures
            u == *self,
    {
        WsUser {
            name: self.name.clone(),
            cursor: self.cursor,
            focus: self.focus,
            can_write: self.can_write,
        }
    }
}

/// A message from the server to a browser client.
#[derive(Clone, Debug)]
pub enum WsServer {
    Hello(Uid, String),
    InvalidAuth(),
    Users(Vec<(Uid, WsUser)>),
    UserDiff(Uid, Option<WsUser>),
    Shells(Vec<(Sid, WsWinsize)>),
    Chunks(Sid, u64, Vec<Vec<u8>>),
    Hear(Uid, String, String),
    ShellLatency(u64),
    Pong(u64),
    Error(String),
}

/// A message from a browser client to the server.
#[derive(Clone, Debug)]
pub enum WsClient {
    Authenticate(Vec<u8>, Option<Vec<u8>>),
    SetName(String),
    SetCursor(Option<(i32, i32)>),
    SetFocus(Option<Sid>),
    Create(i32, i32),
    Close(Sid),
    Move(Sid, Option<WsWinsize>),
    Data(Sid, Vec<u8>, u64),
    Subscribe(Sid, u64),
    Chat(String),
    Ping(u64),
    Kick(String),
}

/// Asks the terminal client to open a shell.
#[derive(Clone, Copy, Debug, PartialEq, Eq, Structural)]
pub struct NewShell {
    pub id: u32,
    pub x: i32,
    pub y: i32,
}

/// Keystrokes for a shell, encrypted, at a byte offset of its input stream.
#[derive(Clone, Debug)]
pub struct TerminalInput {
    pub id: u32,
    pub data: Vec<u8>,
    pub offset: u64,
}

/// New dimensions of a shell.
#[derive(Clone, Copy, Debug, PartialEq, Eq, Structural)]
pub struct TerminalSize {
    pub id: u32,
    pub rows: u32,
    pub cols: u32,
}

/// How many output bytes the server holds for each open shell.
#[derive(Clone, Debug)]
pub struct SequenceNumbers {
    pub map: HashMap<u32, u64>,
}

#[derive(Clone, Debug)]
pub struct ListDirectoryRequest {
    pub path: String,
    pub token: String,
}

#[derive(Clone, Debug)]
pub struct FileInfo {
    pub name: String,
    pub is_directory: bool,
    pub size: u64,
    pub modified_time: u64,
    pub permissions: String,
}

#[derive(Clone, Debug)]
pub struct ListDirectoryResponse {
    pub files: Vec<FileInfo>,
}

#[derive(Clone, Debug)]
pub struct FileUploadRequest {
    pub path: String,
    pub chunk: Vec<u8>,
    pub token: String,
    pub is_last: bool,
}

#[derive(Clone, Debug)]
pub struct FileUploadResponse {
    pub success: bool,
    pub message: String,
}

#[derive(Clone, Debug)]
pub struct FileDownloadRequest {
    pub path: String,
    pub token: String,
}

#[derive(Clone, Debug)]
pub struct FileDownloadResponse {
    pub chunk: Vec<u8>,
    pub is_last: bool,
}

#[derive(Clone, Debug)]
pub struct DeleteFileRequest {
    pub path: String,
    pub token: String,
}

#[derive(Clone, Debug)]
pub struct CreateDirectoryRequest {
    pub path: String,
    pub token: String,
}

/// A message from the server to the terminal client.
#[derive(Clone, Debug)]
pub enum ServerMessage {
    Input(TerminalInput),
    CreateShell(NewShell),
    CloseShell(u32),
    Sync(SequenceNumbers),
    Resize(TerminalSize),
    Ping(u64),
    Error(String),
    Kick(String),
    ListDirectory(ListDirectoryRequest),
    UploadFile(FileUploadRequest),
    DownloadFile(FileDownloadRequest),
    DeleteFile(DeleteFileRequest),
    CreateDirectory(CreateDirectoryRequest),
}

#[derive(Clone, Debug)]
pub struct ListDirectoryResult {
    pub request_id: String,
    pub error: Option<String>,
    pub response: Option<ListDirectoryResponse>,
}

#[derive(Clone, Debug)]
pub struct UploadFileResult {
    pub request_id: String,
    pub error: Option<String>,
    pub response: Option<FileUploadResponse>,
}

#[derive(Clone, Debug)]
pub struct DownloadFileResult {
    pub request_id: String,
    pub error: Option<String>,
    pub response: Option<FileDownloadResponse>,
}

/// A message from the terminal client to the server.
#[derive(Clone, Debug)]
pub enum ClientMessage {
    Hello(String),
    CreatedShell(NewShell),
    ClosedShell(u32),
    Pong(u64),
    Error(String),
    ListDirectoryResult(ListDirectoryResult),
    UploadFileResult(UploadFileResult),
    DownloadFileResult(DownloadFileResult),
}

} // verus!
