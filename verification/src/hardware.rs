//! The two CPU clusters of the board and the frequency each was last set to.
use vstd::prelude::*;
use crate::text::{decimal, push_decimal};

verus! {

/// One CPU cluster: its name, the cpufreq policy that governs it, and the
/// frequency (kHz) it was last set to (0 before any).
#[derive(Debug, Clone)]
pub struct Cores {
    pub name: String,
    pub frequency_policy: i32,
    pub frequency: i32,
}

/// The little and the big cluster.
#[derive(Debug, Clone)]
pub struct Hardware {
    pub little: Cores,
    pub big: Cores,
}

/// A processing element that can run a pipeline stage.
#[derive(Debug, Clone, Copy, PartialEq, Eq, Structural)]
pub enum Component {
    Little,
    Big,
    Gpu,
}

impl Default for Cores {
    fn default() -> (c: Cores)
        ensures
            c.name@ == Seq::<char>::empty(),
            c.frequency_policy == 0,
            c.frequency == 0,
    {
        Cores { name: String::new(), frequency_policy: 0, frequency: 0 }
    }
}

impl Default for Hardware {
    fn default() -> (h: Hardware)
        ensures
            h.little.name@ == Seq::<char>::empty(),
            h.little.frequency_policy == 0,
            h.little.frequency == 0,
            h.big.name@ == Seq::<char>::empty(),
            h.big.frequency_policy == 0,
            h.big.frequency == 0,
    {
        Hardware { little: Cores::default(), big: Cores::default() }
    }
}

impl Hardware {
    pub fn new(little: Cores, big: Cores) -> (h: Hardware)
        ensures
            h.little == little,
            h.big == big,
    {
        Hardware { little, big }
    }
}

/// The shell command that caps the frequency of cpufreq policy `policy` at `freq`.
pub open spec fn spec_frequency_command(policy: i32, freq: i32) -> Seq<char> {
    "echo "@ + decimal(freq as int) + " > /sys/devices/system/cpu/cpufreq/policy"@
        + decimal(policy as int) + "/scaling_max_freq"@
}

/// The frequency command writes `freq`, in decimal, into the
/// `scaling_max_freq` file of policy `policy`, whatever the frequency: it is
/// `echo`, the frequency, a redirection into the policy's directory, and
/// `/scaling_max_freq` at the end.
pub proof fn lemma_frequency_command_parts(policy: i32, freq: i32)
    ensures
        ({
            let cmd = spec_frequency_command(policy, freq);
            let head = "echo "@ + decimal(freq as int) + " > /sys/devices/system/cpu/cpufreq/policy"@
                + decimal(policy as int);
            let tail = "/scaling_max_freq"@;
            &&& cmd.len() == head.len() + tail.len()
            &&& cmd.subrange(0, head.len() as int) == head
            &&& cmd.subrange(head.len() as int, cmd.len() as int) == tail
        }),
{
    let cmd = spec_frequency_command(policy, freq);
    let head = "echo "@ + decimal(freq as int) + " > /sys/devices/system/cpu/cpufreq/policy"@
        + decimal(policy as int);
    let tail = "/scaling_max_freq"@;
    assert(cmd =~= head + tail);
    assert(cmd.subrange(0, head.len() as int) =~= head);
    assert(cmd.subrange(head.len() as int, cmd.len() as int) =~= tail);
}

impl Cores {
    pub fn new(name: String, frequency_policy: i32) -> (c: Cores)
        ensures
            c.name == name,
            c.frequency_policy == frequency_policy,
            c.frequency == 0,
    {
        Cores { name, frequency_policy, frequency: 0 }
    }

    /// The shell command that sets this cluster's maximum frequency to `freq`.
    pub fn frequency_command(&self, freq: i32) -> (cmd: String)
        ensures
            cmd@ == spec_frequency_command(self.frequency_policy, freq),
    {
        let mut cmd = String::new();
        cmd.append("echo ");
        push_decimal(&mut cmd, freq);
        cmd.append(" > /sys/devices/system/cpu/cpufreq/policy");
        push_decimal(&mut cmd, self.frequency_policy);
        cmd.append("/scaling_max_freq");
        proof {
            assert(cmd@ =~= spec_frequency_command(self.frequency_policy, freq));
        }
        cmd
    }

    /// Records that the cluster now runs at `freq`, once the command of
    /// `frequency_command(freq)` has been applied.
    pub fn set_frequency(&mut self, freq: i32)
        ensures
            final(self).frequency == freq,
            final(self).name == old(self).name,
            final(self).frequency_policy == old(self).frequency_policy,
    {
        self.frequency = freq;
    }
}

impl Component {
    /// The component's name.
    pub fn to_string(&self) -> (s: String)
        ensures
            s@ == match self {
                Component::Little => "Little"@,
                Component::Big => "Big"@,
                Component::Gpu => "Gpu"@,
            },
    {
        match self {
            Component::Little => "Little".to_owned(),
            Component::Big => "Big".to_owned(),
            Component::Gpu => "Gpu".to_owned(),
        }
    }
}

impl Component {
    /// The one-letter label of the component.
    pub fn initial(&self) -> (s: String)
        ensures
            s@ == match self {
                Component::Little => "L"@,
                Component::Big => "B"@,
                Component::Gpu => "G"@,
            },
    {
        match self {
            Component::Little => "L".to_owned(),
            Component::Big => "B".to_owned(),
            Component::Gpu => "G".to_owned(),
        }
    }
}

} // verus!
