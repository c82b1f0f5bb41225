//! Per-component runtime knobs that simulate device-side faults independent
//! of the physics.

use crate::text::same_text;
use vstd::prelude::*;

verus! {

#[derive(Clone, Copy, Debug, PartialEq, Eq, Structural)]
pub enum Health {
    /// Reports the physics-derived state and accepts setpoints.
    Healthy,
    /// Reports an error; setpoints are rejected.
    Error,
    /// Reports standby; setpoints are rejected.
    Standby,
}

#[derive(Clone, Copy, Debug, PartialEq, Eq, Structural)]
pub enum TelemetryMode {
    /// Samples flow at the component's stream interval.
    Normal,
    /// The stream stays open without samples.
    Silent,
    /// The stream ends.
    Closed,
}

#[derive(Clone, Copy, Debug, PartialEq, Eq, Structural)]
pub enum CommandMode {
    /// Requests are validated and applied.
    Normal,
    /// Requests hang.
    Timeout,
    /// Requests are refused at once.
    Error,
}

/// The three knobs of one component.
#[derive(Clone, Copy, Debug, PartialEq, Eq, Structural)]
pub struct ComponentRuntime {
    pub health: Health,
    pub telemetry: TelemetryMode,
    pub command: CommandMode,
}

impl Default for Health {
    fn default() -> (out: Self)
        ensures
            out == Health::Healthy,
    {
        Health::Healthy
    }
}

impl Default for TelemetryMode {
    fn default() -> (out: Self)
        ensures
            out == TelemetryMode::Normal,
    {
        TelemetryMode::Normal
    }
}

impl Default for CommandMode {
    fn default() -> (out: Self)
        ensures
            out == CommandMode::Normal,
    {
        CommandMode::Normal
    }
}

/// Every knob at its normal setting.
pub open spec fn normal_runtime() -> ComponentRuntime {
    ComponentRuntime {
        health: Health::Healthy,
        telemetry: TelemetryMode::Normal,
        command: CommandMode::Normal,
    }
}

impl Default for ComponentRuntime {
    fn default() -> (out: Self)
        ensures
            out == normal_runtime(),
    {
        ComponentRuntime {
            health: Health::Healthy,
            telemetry: TelemetryMode::Normal,
            command: CommandMode::Normal,
        }
    }
}

impl Health {
    pub open spec fn spec_parse(s: Seq<char>) -> Option<Health> {
        if s == "ok"@ || s == "ready"@ {
            Some(Health::Healthy)
        } else if s == "error"@ {
            Some(Health::Error)
        } else if s == "standby"@ {
            Some(Health::Standby)
        } else {
            None
        }
    }

    pub fn parse(s: &str) -> (out: Option<Self>)
        ensures
            out == Self::spec_parse(s@),
    {
        if same_text(s, "ok") || same_text(s, "ready") {
            Some(Health::Healthy)
        } else if same_text(s, "error") {
            Some(Health::Error)
        } else if same_text(s, "standby") {
            Some(Health::Standby)
        } else {
            None
        }
    }

    pub open spec fn spec_label(self) -> Seq<char> {
        match self {
            Health::Healthy => "ok"@,
            Health::Error => "error"@,
            Health::Standby => "standby"@,
        }
    }

    pub fn label(self) -> (out: &'static str)
        ensures
            out@ == self.spec_label(),
    {
        match self {
            Health::Healthy => "ok",
            Health::Error => "error",
            Health::Standby => "standby",
        }
    }

    /// The state that a sample reports in place of the physics-derived one.
    pub fn state_label(self) -> (out: Option<&'static str>)
        ensures
            out is None == (self == Health::Healthy),
            out matches Some(name) ==> name@ == self.spec_label(),
    {
        match self {
            Health::Healthy => None,
            Health::Error => Some("error"),
            Health::Standby => Some("standby"),
        }
    }
}

impl TelemetryMode {
    pub open spec fn spec_parse(s: Seq<char>) -> Option<TelemetryMode> {
        if s == "normal"@ {
            Some(TelemetryMode::Normal)
        } else if s == "silent"@ {
            Some(TelemetryMode::Silent)
        } else if s == "closed"@ {
            Some(TelemetryMode::Closed)
        } else {
            None
        }
    }

    pub fn parse(s: &str) -> (out: Option<Self>)
        ensures
            out == Self::spec_parse(s@),
    {
        if same_text(s, "normal") {
            Some(TelemetryMode::Normal)
        } else if same_text(s, "silent") {
            Some(TelemetryMode::Silent)
        } else if same_text(s, "closed") {
            Some(TelemetryMode::Closed)
        } else {
            None
        }
    }

    pub open spec fn spec_label(self) -> Seq<char> {
        match self {
            TelemetryMode::Normal => "normal"@,
            TelemetryMode::Silent => "silent"@,
            TelemetryMode::Closed => "closed"@,
        }
    }

    pub fn label(self) -> (out: &'static str)
        ensures
            out@ == self.spec_label(),
    {
        match self {
            TelemetryMode::Normal => "normal",
            TelemetryMode::Silent => "silent",
            TelemetryMode::Closed => "closed",
        }
    }
}

impl CommandMode {
    pub open spec fn spec_parse(s: Seq<char>) -> Option<CommandMode> {
        if s == "normal"@ {
            Some(CommandMode::Normal)
        } else if s == "timeout"@ {
            Some(CommandMode::Timeout)
        } else if s == "error"@ {
            Some(CommandMode::Error)
        } else {
            None
        }
    }

    pub fn parse(s: &str) -> (out: Option<Self>)
        ensures
            out == Self::spec_parse(s@),
    {
        if same_text(s, "normal") {
            Some(CommandMode::Normal)
        } else if same_text(s, "timeout") {
            Some(CommandMode::Timeout)
        } else if same_text(s, "error") {
            Some(CommandMode::Error)
        } else {
            None
        }
    }

    pub open spec fn spec_label(self) -> Seq<char> {
        match self {
            CommandMode::Normal => "normal"@,
            CommandMode::Timeout => "timeout"@,
            CommandMode::Error => "error"@,
        }
    }

    pub fn label(self) -> (out: &'static str)
        ensures
            out@ == self.spec_label(),
    {
        match self {
            CommandMode::Normal => "normal",
            CommandMode::Timeout => "timeout",
            CommandMode::Error => "error",
        }
    }
}

/// Every knob's label reads back as the knob's setting.
pub proof fn labels_parse_back(health: Health, telemetry: TelemetryMode, command: CommandMode)
    ensures
        Health::spec_parse(health.spec_label()) == Some(health),
        TelemetryMode::spec_parse(telemetry.spec_label()) == Some(telemetry),
        CommandMode::spec_parse(command.spec_label()) == Some(command),
{
    reveal_strlit("ok");
    reveal_strlit("ready");
    reveal_strlit("error");
    reveal_strlit("standby");
    reveal_strlit("normal");
    reveal_strlit("silent");
    reveal_strlit("closed");
    reveal_strlit("timeout");
    assert("ok"@.len() == 2 && "standby"@.len() == 7 && "error"@.len() == 5);
    assert("ready"@.len() == 5);
    assert("error"@[0] == 'e');
    assert("ready"@[0] == 'r');
    assert("normal"@[0] == 'n');
    assert("silent"@[0] == 's');
    assert("closed"@[0] == 'c');
}

/// The knobs after a change of health: an errored device also refuses
/// commands, and clearing the error restores them.
pub open spec fn with_health(runtime: ComponentRuntime, health: Health) -> ComponentRuntime {
    ComponentRuntime {
        health,
        telemetry: runtime.telemetry,
        command: match health {
            Health::Error => CommandMode::Error,
            Health::Healthy => CommandMode::Normal,
            Health::Standby => runtime.command,
        },
    }
}

impl ComponentRuntime {
    pub fn set_health(self, health: Health) -> (out: ComponentRuntime)
        ensures
            out == with_health(self, health),
    {
        let command = match health {
            Health::Error => CommandMode::Error,
            Health::Healthy => CommandMode::Normal,
            Health::Standby => self.command,
        };
        ComponentRuntime { health, telemetry: self.telemetry, command }
    }
}

/// A change of health sets the health and leaves telemetry alone. An error makes
/// the device refuse commands, recovery makes it take them again whatever went
/// before, and standby leaves that as it was.
pub proof fn health_drives_the_commands(runtime: ComponentRuntime, before: Health, health: Health)
    ensures
        with_health(runtime, health).health == health,
        with_health(runtime, health).telemetry == runtime.telemetry,
        health == Health::Error ==> with_health(runtime, health).command == CommandMode::Error,
        health == Health::Healthy ==> with_health(runtime, health).command == CommandMode::Normal,
        health == Health::Standby ==> with_health(runtime, health).command == runtime.command,
        health != Health::Standby ==> with_health(with_health(runtime, before), health)
            == with_health(runtime, health),
{
}

/// A knob reads only its own labels, "ready" being another word for a healthy
/// device.
pub proof fn only_labels_are_read(s: Seq<char>)
    ensures
        Health::spec_parse(s) matches Some(h) ==> s == h.spec_label() || (h == Health::Healthy && s
            == "ready"@),
        TelemetryMode::spec_parse(s) matches Some(t) ==> s == t.spec_label(),
        CommandMode::spec_parse(s) matches Some(c) ==> s == c.spec_label(),
        Health::spec_parse("ready"@) == Some(Health::Healthy),
{
}

/// A component that nothing was set for is healthy, publishes and takes
/// commands.
pub proof fn untouched_component_works(runtime: ComponentRuntime)
    requires
        runtime == normal_runtime(),
    ensures
        runtime.health == Health::Healthy,
        runtime.telemetry == TelemetryMode::Normal,
        runtime.command == CommandMode::Normal,
        with_health(runtime, Health::Healthy) == runtime,
{
}

} // verus!
