//! Interactive terminals: what each event of the SSH channel means for the
//! terminal shown in the user interface.
use vstd::prelude::*;

use base64::Engine;

use crate::model::TerminalEvent;

verus! {

/// The character of a 6-bit value in the standard base64 alphabet.
pub open spec fn b64_char(v: nat) -> char {
    if v < 26 {
        (('A' as u32) + v) as char
    } else if v < 52 {
        (('a' as u32) + (v - 26)) as char
    } else if v < 62 {
        (('0' as u32) + (v - 52)) as char
    } else if v == 62 {
        '+'
    } else {
        '/'
    }
}

/// Standard base64 (RFC 4648 alphabet, with `=` padding).
pub open spec fn base64_encode(b: Seq<u8>) -> Seq<char>
    decreases b.len(),
{
    if b.len() == 0 {
        Seq::empty()
    } else if b.len() == 1 {
        seq![b64_char((b[0] / 4) as nat), b64_char(((b[0] % 4) * 16) as nat), '=', '=']
    } else if b.len() == 2 {
        seq![
            b64_char((b[0] / 4) as nat),
            b64_char(((b[0] % 4) * 16 + b[1] / 16) as nat),
            b64_char(((b[1] % 16) * 4) as nat),
            '=',
        ]
    } else {
        seq![
            b64_char((b[0] / 4) as nat),
            b64_char(((b[0] % 4) * 16 + b[1] / 16) as nat),
            b64_char(((b[1] % 16) * 4 + b[2] / 64) as nat),
            b64_char((b[2] % 64) as nat),
        ] + base64_encode(b.skip(3))
    }
}

/// The longest output that the base64 encoder can size without overflow.
pub open spec fn base64_fits(len: nat) -> bool {
    (len + 2) / 3 * 4 <= usize::MAX
}

/// `base64::engine::general_purpose::STANDARD.encode`: standard base64 with
/// padding. The crate panics where the length of the output overflows `usize`,
/// which `requires` rules out.
#[verifier::external_body]
fn base64_standard(data: &[u8]) -> (r: String)
    requires
        base64_fits(data@.len()),
    ensures
        r@ == base64_encode(data@),
{
    base64::engine::general_purpose::STANDARD.encode(data)
}

/// What the SSH channel of a terminal reported.
#[derive(Debug)]
pub enum ChannelEvent {
    /// Output of the remote shell (ordinary or extended data).
    Data(Vec<u8>),
    /// The exit status of the remote shell.
    ExitStatus(u32),
    /// The remote shell was ended by a signal, with this message.
    ExitSignal(String),
    /// The server refused the PTY or shell request.
    Failure,
    /// The remote side sent end-of-file or closed the channel.
    Closed,
    /// The channel ended without a message.
    Ended,
    /// Anything else.
    Other,
}

/// What the terminal task does after an event.
#[derive(Debug)]
pub enum TerminalStep {
    /// Send this output to the user interface and go on.
    Output(TerminalEvent),
    /// Go on.
    Continue,
    /// Stop: the terminal is closed.
    Finish,
}

/// The state of one terminal while it runs.
pub struct TerminalSession {
    pub terminal_id: String,
    pub exit_status: Option<u32>,
    pub close_message: Option<String>,
}

pub open spec fn signal_message(m: Seq<char>) -> Seq<char> {
    if m.len() == 0 {
        "远端 Shell 被信号终止"@
    } else {
        m
    }
}

impl TerminalSession {
    /// A terminal that has just opened.
    pub fn new(terminal_id: String) -> (r: Self)
        ensures
            r.terminal_id == terminal_id,
            r.exit_status is None,
            r.close_message is None,
    {
        TerminalSession { terminal_id, exit_status: None, close_message: None }
    }

    /// Handles one channel event: output is passed on base64-encoded; an exit
    /// status is kept; a signal, a refusal, a close or the end of the channel
    /// finishes the terminal with a message (a close or an end keep an
    /// earlier message).
    pub fn on_channel_event(&mut self, event: ChannelEvent) -> (r: TerminalStep)
        requires
            event matches ChannelEvent::Data(d) ==> base64_fits(d@.len()),
        ensures
            final(self).terminal_id == old(self).terminal_id,
            match event {
                ChannelEvent::Data(d) => (r matches TerminalStep::Output(e) && e.terminal_id
                    == old(self).terminal_id && e.data is Some && e.data->0@ == base64_encode(d@)
                    && e.message is None && e.exit_status is None)
                    && final(self).exit_status == old(self).exit_status && final(self).close_message
                    == old(self).close_message,
                ChannelEvent::ExitStatus(s) => r is Continue && final(self).exit_status == Some(s)
                    && final(self).close_message == old(self).close_message,
                ChannelEvent::ExitSignal(m) => r is Finish && final(self).exit_status
                    == old(self).exit_status && final(self).close_message is Some
                    && final(self).close_message->0@ == signal_message(m@),
                ChannelEvent::Failure => r is Finish && final(self).exit_status
                    == old(self).exit_status && final(self).close_message is Some
                    && final(self).close_message->0@ == "远端拒绝了 PTY 或 Shell 请求"@,
                ChannelEvent::Closed => r is Finish && final(self).exit_status
                    == old(self).exit_status && if old(self).close_message is Some {
                    final(self).close_message == old(self).close_message
                } else {
                    final(self).close_message is Some && final(self).close_message->0@
                        == "远端 Shell 已关闭"@
                },
                ChannelEvent::Ended => r is Finish && final(self).exit_status
                    == old(self).exit_status && if old(self).close_message is Some {
                    final(self).close_message == old(self).close_message
                } else {
                    final(self).close_message is Some && final(self).close_message->0@
                        == "SSH channel 已关闭"@
                },
                ChannelEvent::Other => r is Continue && final(self).exit_status
                    == old(self).exit_status && final(self).close_message
                    == old(self).close_message,
            },
    {
        match event {
            ChannelEvent::Data(d) => {
                let encoded = base64_standard(d.as_slice());
                TerminalStep::Output(
                    TerminalEvent {
                        terminal_id: self.terminal_id.clone(),
                        data: Some(encoded),
                        message: None,
                        exit_status: None,
                    },
                )
            },
            ChannelEvent::ExitStatus(s) => {
                self.exit_status = Some(s);
                TerminalStep::Continue
            },
            ChannelEvent::ExitSignal(m) => {
                self.close_message = Some(
                    if m.as_str().is_empty() {
                        String::from_str("远端 Shell 被信号终止")
                    } else {
                        m
                    },
                );
                TerminalStep::Finish
            },
            ChannelEvent::Failure => {
                self.close_message = Some(String::from_str("远端拒绝了 PTY 或 Shell 请求"));
                TerminalStep::Finish
            },
            ChannelEvent::Closed => {
                if self.close_message.is_none() {
                    self.close_message = Some(String::from_str("远端 Shell 已关闭"));
                }
                TerminalStep::Finish
            },
            ChannelEvent::Ended => {
                if self.close_message.is_none() {
                    self.close_message = Some(String::from_str("SSH channel 已关闭"));
                }
                TerminalStep::Finish
            },
            ChannelEvent::Other => TerminalStep::Continue,
        }
    }

    /// The event that tells the user interface the terminal has closed.
    pub fn closed_event(&self) -> (r: TerminalEvent)
        ensures
            r.terminal_id == self.terminal_id,
            r.data is None,
            r.message == self.close_message,
            r.exit_status == self.exit_status,
    {
        TerminalEvent {
            terminal_id: self.terminal_id.clone(),
            data: None,
            message: crate::model::clone_opt_string(&self.close_message),
            exit_status: self.exit_status,
        }
    }
}

/// The size a terminal is resized to: at least one column and one row.
pub fn clamp_terminal_size(cols: u32, rows: u32) -> (r: (u32, u32))
    ensures
        r.0 == if cols < 1 {
            1
        } else {
            cols
        },
        r.1 == if rows < 1 {
            1
        } else {
            rows
        },
{
    (if cols < 1 {
        1
    } else {
        cols
    }, if rows < 1 {
        1
    } else {
        rows
    })
}

} // verus!
