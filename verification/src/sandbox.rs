//! The Windows Sandbox configuration model and `.wsb` rendering.
use vstd::prelude::*;

use crate::text::{dec, push_decimal};

verus! {

broadcast use vstd::string::group_string_axioms;

/// A Windows Sandbox configuration.
#[derive(Debug, Clone, Copy, PartialEq, Eq, Structural)]
pub struct SandboxConfig {
    /// Memory to allocate to the sandbox, in megabytes.
    pub memory_mb: u32,
    /// Whether the virtual GPU is enabled.
    pub vgpu: bool,
    /// Whether networking is enabled.
    pub networking: bool,
}

impl Default for SandboxConfig {
    /// 4096 MB of memory, no virtual GPU, networking on.
    fn default() -> (config: Self)
        ensures
            config.memory_mb == 4096,
            !config.vgpu,
            config.networking,
    {
        SandboxConfig { memory_mb: 4096, vgpu: false, networking: true }
    }
}

/// The `.wsb` word for a switch.
pub open spec fn wsb_flag(enabled: bool) -> Seq<char> {
    if enabled {
        "Enable"@
    } else {
        "Disable"@
    }
}

/// The `.wsb` XML document for a configuration.
pub open spec fn wsb_text(config: SandboxConfig) -> Seq<char> {
    "<Configuration>\n  <VGpu>"@ + wsb_flag(config.vgpu) + "</VGpu>\n  <Networking>"@
        + wsb_flag(config.networking) + "</Networking>\n  <MemoryInMB>"@
        + dec(config.memory_mb as nat) + "</MemoryInMB>\n</Configuration>\n"@
}

/// Appends the `.wsb` word for a switch.
fn push_flag(out: &mut String, enabled: bool)
    ensures
        final(out)@ == old(out)@ + wsb_flag(enabled),
{
    if enabled {
        out.append("Enable");
    } else {
        out.append("Disable");
    }
}

impl SandboxConfig {
    /// Renders the configuration as a `.wsb` XML document.
    pub fn to_wsb(&self) -> (wsb: String)
        ensures
            wsb@ == wsb_text(*self),
    {
        let mut out = String::new();
        out.append("<Configuration>\n  <VGpu>");
        push_flag(&mut out, self.vgpu);
        out.append("</VGpu>\n  <Networking>");
        push_flag(&mut out, self.networking);
        out.append("</Networking>\n  <MemoryInMB>");
        push_decimal(&mut out, self.memory_mb as u64);
        out.append("</MemoryInMB>\n</Configuration>\n");
        assert(out@ =~= wsb_text(*self));
        out
    }
}

} // verus!
