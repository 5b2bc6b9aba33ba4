//! The standard input, output and error files: their open flags and the
//! terminal requests they answer as if they were a terminal.
use vstd::prelude::*;
use crate::vfs::VfsError;

verus! {

/// Close the file when the process executes another program.
pub const O_CLOEXEC: u32 = 0o2000000;

/// Get the terminal settings.
pub const TCGETS: usize = 0x5401;
/// Get the foreground process group.
pub const TIOCGPGRP: usize = 0x540f;
/// Set the foreground process group.
pub const TIOCSPGRP: usize = 0x5410;
/// Get the window size.
pub const TIOCGWINSZ: usize = 0x5413;
/// Set close-on-exec.
pub const FIOCLEX: usize = 0x5451;

/// What answering a terminal request writes at the caller's address.
#[derive(Debug, Clone, Copy, PartialEq, Eq, Structural)]
pub enum IoctlReply {
    /// A default window size.
    WinSize,
    /// Process group 0.
    ProcessGroup,
    /// Nothing.
    Nothing,
}

/// How standard input answers terminal request `request`: the window size,
/// process group 0, or nothing for the settings, setting the group and
/// close-on-exec; `Unsupported` for any other. Every answer reports 0.
pub fn stdin_ioctl(request: usize) -> (r: Result<IoctlReply, VfsError>)
    ensures
        r == if request == TIOCGWINSZ {
            Ok::<IoctlReply, VfsError>(IoctlReply::WinSize)
        } else if request == TIOCGPGRP {
            Ok(IoctlReply::ProcessGroup)
        } else if request == TCGETS || request == TIOCSPGRP || request == FIOCLEX {
            Ok(IoctlReply::Nothing)
        } else {
            Err(VfsError::Unsupported)
        },
{
    if request == TIOCGWINSZ {
        Ok(IoctlReply::WinSize)
    } else if request == TIOCGPGRP {
        Ok(IoctlReply::ProcessGroup)
    } else if request == TCGETS || request == TIOCSPGRP || request == FIOCLEX {
        Ok(IoctlReply::Nothing)
    } else {
        Err(VfsError::Unsupported)
    }
}

/// The open flags of a standard file.
pub struct StdioFlags {
    flags: u32,
}

impl StdioFlags {
    /// The flags.
    pub closed spec fn view(&self) -> u32 {
        self.flags
    }

    /// No flags.
    pub fn new() -> (f: Self)
        ensures
            f@ == 0,
    {
        StdioFlags { flags: 0 }
    }

    /// Replaces the flags with `flags` when they include close-on-exec;
    /// returns whether they did (otherwise nothing changes).
    pub fn set_status(&mut self, flags: u32) -> (b: bool)
        ensures
            b == (flags & O_CLOEXEC != 0),
            final(self)@ == if b { flags } else { old(self)@ },
    {
        if flags & O_CLOEXEC != 0 {
            self.flags = flags;
            true
        } else {
            false
        }
    }

    /// The flags.
    pub fn get_status(&self) -> (f: u32)
        ensures
            f == self@,
    {
        self.flags
    }

    /// Sets or clears close-on-exec, keeping the other flags; always succeeds.
    pub fn set_close_on_exec(&mut self, is_set: bool) -> (b: bool)
        ensures
            b,
            final(self)@ == if is_set { old(self)@ | O_CLOEXEC } else { old(self)@ & !O_CLOEXEC },
            final(self)@ & O_CLOEXEC != 0 <==> is_set,
            final(self)@ & !O_CLOEXEC == old(self)@ & !O_CLOEXEC,
    {
        let old_flags = self.flags;
        if is_set {
            self.flags = self.flags | O_CLOEXEC;
            assert((old_flags | 0o2000000u32) & 0o2000000u32 != 0) by (bit_vector);
            assert((old_flags | 0o2000000u32) & !0o2000000u32 == old_flags & !0o2000000u32) by (bit_vector);
        } else {
            self.flags = self.flags & !O_CLOEXEC;
            assert((old_flags & !0o2000000u32) & 0o2000000u32 == 0) by (bit_vector);
            assert((old_flags & !0o2000000u32) & !0o2000000u32 == old_flags & !0o2000000u32) by (bit_vector);
        }
        true
    }
}

} // verus!
