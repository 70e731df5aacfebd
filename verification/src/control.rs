//! Ingestion control plane: the run/paused gate that the reading loop
//! observes, the operator command decisions, and the idempotent lifecycle
//! of a receiving session. Every lifecycle operation is total and reports
//! failure as an empty result; none panics on bad input.

use vstd::prelude::*;
use crate::channel::PublishChannel;

verus! {

/// The control gate: a single boolean level, "run" (receiving enabled) or
/// "paused" (receiving suspended). It has no queue — only the latest level
/// matters.
#[derive(Clone, Copy, PartialEq, Eq, Structural, Debug)]
pub struct ControlGate {
    pub running: bool,
}

impl ControlGate {
    /// A gate at the given level.
    pub fn new(running: bool) -> (g: ControlGate)
        ensures
            g.running == running,
    {
        ControlGate { running }
    }

    /// Store a new level, forgetting the old one.
    pub fn set(&mut self, running: bool)
        ensures
            final(self).running == running,
    {
        self.running = running;
    }
}

/// The serial-port configuration a session was opened with.
#[derive(Clone, Debug)]
pub struct PortConfig {
    pub name: String,
    pub baud: u32,
}

/// What is known about one serial device attached to the machine, as the
/// enumeration of available ports reports it; absent fields stay empty.
#[derive(Clone, Debug)]
pub struct SerialPortConnectInfo {
    pub port_name: String,
    pub manufacturer: String,
    pub serial_number: String,
    pub product: String,
}

/// The port-selection state a caller carries between enumeration and
/// opening: every known device, the selectable names, the chosen name and
/// the baud rate, both as parsed and as typed.
#[derive(Clone, Debug)]
pub struct SerialPortData {
    pub structure: Vec<SerialPortConnectInfo>,
    pub names: Vec<String>,
    pub selected: String,
    pub baud_rate: u32,
    pub baud_rate_string: String,
}

/// A port name and baud rate denote an actual selection: the name is not
/// the "not selected" placeholder and the baud rate is not zero.
pub open spec fn port_selected(name: Seq<char>, baud: u32) -> bool {
    name != "not selected"@ && baud != 0
}

/// Validate a port selection: yields a configuration exactly when the name
/// and baud rate are both set. The caller opens the underlying device from
/// the returned configuration.
pub fn initialize_serial_port(serial_port_name: String, baud_rate: u32) -> (r: Option<PortConfig>)
    ensures
        r is Some <==> port_selected(serial_port_name@, baud_rate),
        match r {
            Some(p) => p.name@ == serial_port_name@ && p.baud == baud_rate,
            None => true,
        },
{
    let sentinel: String = "not selected".to_owned();
    if !serial_port_name.eq(&sentinel) && baud_rate != 0 {
        Some(PortConfig { name: serial_port_name, baud: baud_rate })
    } else {
        None
    }
}

/// What one operator command asks of the ingestion session.
#[derive(Clone, Copy, PartialEq, Eq, Structural, Debug)]
pub enum ControlAction {
    /// Suspend reading.
    Stop,
    /// Resume ingestion and announce the start on the fan-out channel.
    Start,
    /// Announce on the fan-out channel only.
    Announce,
    /// No effect; the session continues as it was.
    Continue,
}

/// The action each trimmed command line maps to: "q" pauses, "s" starts,
/// "p" announces, anything else continues.
pub open spec fn control_action_spec(cmd: Seq<char>) -> ControlAction {
    if cmd == "q"@ {
        ControlAction::Stop
    } else if cmd == "s"@ {
        ControlAction::Start
    } else if cmd == "p"@ {
        ControlAction::Announce
    } else {
        ControlAction::Continue
    }
}

/// Decide what a trimmed operator command line asks for.
pub fn control_action(command: &str) -> (r: ControlAction)
    ensures
        r == control_action_spec(command@),
{
    proof {
        reveal_strlit("q");
        reveal_strlit("s");
        reveal_strlit("p");
    }
    if command.unicode_len() == 1 {
        let c = command.get_char(0);
        if c == 'q' {
            proof {
                assert(command@ =~= "q"@);
            }
            ControlAction::Stop
        } else if c == 's' {
            proof {
                assert(command@ =~= "s"@);
            }
            ControlAction::Start
        } else if c == 'p' {
            proof {
                assert(command@ =~= "p"@);
            }
            ControlAction::Announce
        } else {
            ControlAction::Continue
        }
    } else {
        ControlAction::Continue
    }
}

/// One receiving session's long-lived state: the port configuration, the
/// control gate, the fan-out channel, and whether the ingestion task is
/// live. Each field is individually optional; the lifecycle operations
/// below take and return ownership explicitly.
pub struct SessionContext {
    pub port: Option<PortConfig>,
    pub gate: Option<ControlGate>,
    pub channel: Option<PublishChannel>,
    pub task_active: bool,
}

impl SessionContext {
    /// A fresh session: nothing initialized, no task live.
    pub fn new() -> (s: SessionContext)
        ensures
            s.port is None,
            s.gate is None,
            s.channel is None,
            !s.task_active,
    {
        SessionContext { port: None, gate: None, channel: None, task_active: false }
    }

    /// Open the session's port configuration: fails when a port is already
    /// active or when the name/baud pair is not an actual selection.
    pub fn initialize_serial_port_command(
        &mut self,
        serial_port_selected: String,
        serial_port_baud_rate: u32,
    ) -> (ok: bool)
        ensures
            old(self).port is Some ==> !ok && final(self).port == old(self).port,
            old(self).port is None ==> {
                &&& ok <==> port_selected(serial_port_selected@, serial_port_baud_rate)
                &&& ok ==> (match final(self).port {
                    Some(p) => p.name@ == serial_port_selected@ && p.baud == serial_port_baud_rate,
                    None => false,
                })
                &&& !ok ==> final(self).port is None
            },
            final(self).gate == old(self).gate,
            final(self).channel == old(self).channel,
            final(self).task_active == old(self).task_active,
    {
        if self.port.is_some() {
            false
        } else {
            self.port = initialize_serial_port(serial_port_selected, serial_port_baud_rate);
            self.port.is_some()
        }
    }

    /// Create the control gate: fails when a gate already exists. A fresh
    /// gate starts at the "run" level.
    pub fn initialize_watch_channel(&mut self) -> (ok: bool)
        ensures
            old(self).gate is Some ==> !ok && final(self).gate == old(self).gate,
            old(self).gate is None ==> ok && final(self).gate == Some(
                ControlGate { running: true },
            ),
            final(self).port == old(self).port,
            final(self).channel == old(self).channel,
            final(self).task_active == old(self).task_active,
    {
        if self.gate.is_some() {
            false
        } else {
            self.gate = Some(ControlGate::new(true));
            true
        }
    }

    /// Create the fan-out channel with the given capacity bound: fails when
    /// a channel already exists.
    pub fn initialize_broadcast_channel(&mut self, capacity: usize) -> (ok: bool)
        requires
            capacity >= 1,
        ensures
            old(self).channel is Some ==> !ok && final(self).channel == old(self).channel,
            old(self).channel is None ==> ok && (match final(self).channel {
                Some(ch) => ch.wf() && ch@.capacity == capacity && ch@.published == 0,
                None => false,
            }),
            final(self).port == old(self).port,
            final(self).gate == old(self).gate,
            final(self).task_active == old(self).task_active,
    {
        if self.channel.is_some() {
            false
        } else {
            self.channel = Some(PublishChannel::new(capacity));
            true
        }
    }

    /// Start the ingestion task. It needs the port, the channel and the
    /// gate all present, else nothing happens; a freshly started task is
    /// born paused, and data flows only once the caller raises the
    /// level.
    pub fn initialize_serial_data_fetch(&mut self) -> (started: bool)
        ensures
            started == (old(self).port is Some && old(self).channel is Some && old(
                self,
            ).gate is Some),
            started ==> final(self).gate == Some(ControlGate { running: false })
                && final(self).task_active,
            !started ==> final(self).gate == old(self).gate && final(self).task_active == old(
                self,
            ).task_active,
            final(self).port == old(self).port,
            final(self).channel == old(self).channel,
    {
        if self.port.is_some() && self.channel.is_some() {
            match &mut self.gate {
                Some(g) => {
                    g.set(false);
                    self.task_active = true;
                    true
                },
                None => false,
            }
        } else {
            false
        }
    }

    /// Abort the ingestion task; an idempotent no-op when none is live.
    pub fn drop_broadcast_channel_listening(&mut self)
        ensures
            !final(self).task_active,
            final(self).port == old(self).port,
            final(self).gate == old(self).gate,
            final(self).channel == old(self).channel,
    {
        self.task_active = false;
    }

    /// Release the fan-out channel, aborting the ingestion task that feeds
    /// it; an idempotent no-op when no channel is active.
    pub fn drop_broadcast_channel(&mut self)
        ensures
            final(self).channel is None,
            old(self).channel is Some ==> !final(self).task_active,
            old(self).channel is None ==> final(self).task_active == old(self).task_active,
            final(self).port == old(self).port,
            final(self).gate == old(self).gate,
    {
        if self.channel.is_some() {
            self.drop_broadcast_channel_listening();
            self.channel = None;
        }
    }

    /// Release the control gate; an idempotent no-op when none is active.
    pub fn drop_watch_channel(&mut self)
        ensures
            final(self).gate is None,
            final(self).port == old(self).port,
            final(self).channel == old(self).channel,
            final(self).task_active == old(self).task_active,
    {
        self.gate = None;
    }
}

} // verus!
