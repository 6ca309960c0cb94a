//! The streams an agent opens to the viewer, beside the conversation: the
//! host's pointer, and its clipboard.
//!
//! What comes on them goes to the operating system, so it must be what it
//! claims: anything else ends the connection.

use vstd::prelude::*;

verus! {

/// What a stream is for, as its first message says.
#[derive(Debug, Clone, Copy, PartialEq, Eq, Structural)]
pub enum StreamKind {
    Cursor,
    Clipboard,
    Input,
}

/// What came on a stream.
#[derive(Debug, Clone, Copy, PartialEq, Eq, Structural)]
pub enum Read<T> {
    Message(T),
    /// The stream ended between messages.
    End,
    /// What came cannot be read.
    Malformed,
}

/// What the viewer does with a stream.
#[derive(Debug, Clone, Copy, PartialEq, Eq, Structural)]
pub enum Opened {
    ReadCursor,
    ReadClipboard,
    /// It ended before it said what it was for.
    Ignore,
    /// Close the connection, for breaking the protocol.
    Close,
}

/// What an agent's stream is read as.
pub open spec fn opens(first: Read<StreamKind>) -> Opened {
    match first {
        Read::Message(StreamKind::Cursor) => Opened::ReadCursor,
        Read::Message(StreamKind::Clipboard) => Opened::ReadClipboard,
        Read::End => Opened::Ignore,
        Read::Message(StreamKind::Input) | Read::Malformed => Opened::Close,
    }
}

/// What an agent's stream is read as. Input goes from the viewer to the agent
/// only.
pub fn opened(first: Read<StreamKind>) -> (what: Opened)
    ensures
        what == opens(first),
{
    match first {
        Read::Message(StreamKind::Cursor) => Opened::ReadCursor,
        Read::Message(StreamKind::Clipboard) => Opened::ReadClipboard,
        Read::End => Opened::Ignore,
        Read::Message(StreamKind::Input) | Read::Malformed => Opened::Close,
    }
}

/// What the viewer does with what came.
#[derive(Debug, Clone, Copy, PartialEq, Eq, Structural)]
pub enum Taken {
    /// Hand it on, and read on.
    Apply,
    /// There is nobody to hand it to: read on.
    Skip,
    /// Read no more.
    Stop,
    /// Close the connection, for breaking the protocol, with this reason; and
    /// read no more.
    Close(Broken),
}

/// How the protocol was broken.
#[derive(Debug, Clone, Copy, PartialEq, Eq, Structural)]
pub enum Broken {
    UnexpectedStream,
    ClipboardTooLarge,
    MalformedClipboard,
    MalformedCursor,
    InvalidShape,
}

impl Broken {
    pub open spec fn says(&self) -> Seq<char> {
        match self {
            Broken::UnexpectedStream => "unexpected stream"@,
            Broken::ClipboardTooLarge => "clipboard text too large"@,
            Broken::MalformedClipboard => "malformed clipboard message"@,
            Broken::MalformedCursor => "malformed cursor message"@,
            Broken::InvalidShape => "invalid cursor shape"@,
        }
    }

    /// The reason as the agent gets it.
    pub fn reason(&self) -> (text: &'static str)
        ensures
            text@ == self.says(),
    {
        match self {
            Broken::UnexpectedStream => "unexpected stream",
            Broken::ClipboardTooLarge => "clipboard text too large",
            Broken::MalformedClipboard => "malformed clipboard message",
            Broken::MalformedCursor => "malformed cursor message",
            Broken::InvalidShape => "invalid cursor shape",
        }
    }
}

/// What is done with the agent's clipboard.
pub open spec fn clipboard_takes(
    came: Read<usize>,
    max: usize,
    synced: bool,
    closed: bool,
) -> Taken {
    match came {
        Read::Message(bytes) => if bytes > max {
            Taken::Close(Broken::ClipboardTooLarge)
        } else if synced {
            Taken::Apply
        } else {
            Taken::Skip
        },
        Read::End => Taken::Stop,
        Read::Malformed => if closed {
            Taken::Stop
        } else {
            Taken::Close(Broken::MalformedClipboard)
        },
    }
}

/// The agent's clipboard: a text of so many bytes, of which `max` are the
/// most there may be. `synced` says whether this machine's clipboard is kept
/// in step, `closed` whether the connection is over already.
pub fn clipboard(came: Read<usize>, max: usize, synced: bool, closed: bool) -> (taken: Taken)
    ensures
        taken == clipboard_takes(came, max, synced, closed),
{
    match came {
        Read::Message(bytes) => if bytes > max {
            Taken::Close(Broken::ClipboardTooLarge)
        } else if synced {
            Taken::Apply
        } else {
            Taken::Skip
        },
        Read::End => Taken::Stop,
        Read::Malformed => if closed {
            Taken::Stop
        } else {
            Taken::Close(Broken::MalformedClipboard)
        },
    }
}

/// A change of the host's pointer.
#[derive(Debug, Clone, Copy, PartialEq, Eq, Structural)]
pub enum Change {
    /// A new image, which is what it claims to be or not.
    Shape { valid: bool },
    /// It moved, or showed, or hid.
    Other,
}

/// What is done with a change of the host's pointer.
pub open spec fn cursor_takes(came: Read<Change>, shown: bool, closed: bool) -> Taken {
    match came {
        Read::Message(Change::Shape { valid: false }) => Taken::Close(Broken::InvalidShape),
        Read::Message(_) => if shown {
            Taken::Apply
        } else {
            Taken::Skip
        },
        Read::End => Taken::Stop,
        Read::Malformed => if closed {
            Taken::Stop
        } else {
            Taken::Close(Broken::MalformedCursor)
        },
    }
}

/// The host's pointer. `shown` says whether anything here shows it, `closed`
/// whether the connection is over already.
pub fn cursor(came: Read<Change>, shown: bool, closed: bool) -> (taken: Taken)
    ensures
        taken == cursor_takes(came, shown, closed),
{
    match came {
        Read::Message(Change::Shape { valid: false }) => Taken::Close(Broken::InvalidShape),
        Read::Message(_) => if shown {
            Taken::Apply
        } else {
            Taken::Skip
        },
        Read::End => Taken::Stop,
        Read::Malformed => if closed {
            Taken::Stop
        } else {
            Taken::Close(Broken::MalformedCursor)
        },
    }
}

/// An agent opens streams for its pointer and its clipboard only; one that
/// says anything else ends the connection, one that says nothing is let be.
pub proof fn lemma_agents_send_no_input(first: Read<StreamKind>)
    ensures
        opens(first) is ReadCursor <==> first == Read::Message(StreamKind::Cursor),
        opens(first) is ReadClipboard <==> first == Read::Message(StreamKind::Clipboard),
        opens(first) is Ignore <==> first == Read::<StreamKind>::End,
        opens(first) is Close <==> first == Read::Message(StreamKind::Input) || first
            == Read::<StreamKind>::Malformed,
{
}

/// Of the clipboard no more is taken than may be, and only where it is kept in
/// step; of the pointer no image that is not what it claims. What cannot be
/// read ends a connection that still stands.
pub proof fn lemma_only_what_is_right_is_taken(
    text: Read<usize>,
    max: usize,
    synced: bool,
    change: Read<Change>,
    shown: bool,
    closed: bool,
)
    ensures
        clipboard_takes(text, max, synced, closed) is Apply <==> (text matches Read::Message(bytes)
            && bytes <= max && synced),
        clipboard_takes(text, max, synced, closed) is Skip <==> (text matches Read::Message(bytes)
            && bytes <= max && !synced),
        clipboard_takes(text, max, synced, closed) is Stop <==> text is End || (text is Malformed
            && closed),
        cursor_takes(change, shown, closed) is Apply ==> shown && change is Message && change
            != Read::Message(Change::Shape { valid: false }),
        change == Read::Message(Change::Shape { valid: false }) ==> cursor_takes(change, shown, closed)
            == Taken::Close(Broken::InvalidShape),
        change is Message && change != Read::Message(Change::Shape { valid: false }) ==> (
        cursor_takes(change, shown, closed) is Apply <==> shown) && (cursor_takes(
            change,
            shown,
            closed,
        ) is Skip <==> !shown),
        cursor_takes(change, shown, closed) is Stop <==> change is End || (change is Malformed
            && closed),
{
}

}
