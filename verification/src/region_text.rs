//! Memory regions as text.
use vstd::prelude::*;
use vstd::string::StringSliceAdditionalSpecFns;

use crate::arith::clamp_u64;
use crate::memory_region::MemoryRegion;
use crate::text::{decimal, hexadecimal_prefixed, push_bytes, push_decimal, push_prefixed};

verus! {

/// A truth value as text
pub open spec fn bool_text(value: bool) -> Seq<u8> {
    if value {
        "true".spec_bytes()
    } else {
        "false".spec_bytes()
    }
}

/// A payload as text
pub open spec fn payload_text(payload: Option<u16>) -> Seq<u8> {
    match payload {
        Some(value) => "Some(".spec_bytes() + decimal(value as nat) + ")".spec_bytes(),
        None => "None".spec_bytes(),
    }
}

/// A region as text
pub open spec fn region_text(region: MemoryRegion) -> Seq<u8> {
    "host_addr: ".spec_bytes() + hexadecimal_prefixed(region.host_addr as nat) + "-".spec_bytes()
        + hexadecimal_prefixed(clamp_u64(region.host_addr + region.len) as nat)
        + ", vm_addr: ".spec_bytes() + hexadecimal_prefixed(region.vm_addr as nat)
        + "-".spec_bytes() + hexadecimal_prefixed(region.spec_end() as nat)
        + ", len: ".spec_bytes() + decimal(region.len as nat) + ", writable: ".spec_bytes()
        + bool_text(region.writable) + ", payload ".spec_bytes() + payload_text(
        region.access_violation_handler_payload,
    )
}

/// Appends a label
fn push_label(output: &mut Vec<u8>, label: &str)
    ensures
        final(output)@ == old(output)@ + label.spec_bytes(),
{
    push_bytes(output, label.as_bytes());
}

impl MemoryRegion {
    /// The region as text
    pub fn describe(&self) -> (text: Vec<u8>)
        ensures
            text@ == region_text(*self),
    {
        let mut text: Vec<u8> = Vec::new();
        push_label(&mut text, "host_addr: ");
        assert(text@ =~= "host_addr: ".spec_bytes());
        push_prefixed(&mut text, self.host_addr);
        push_label(&mut text, "-");
        push_prefixed(&mut text, self.host_addr.saturating_add(self.len));
        push_label(&mut text, ", vm_addr: ");
        push_prefixed(&mut text, self.vm_addr);
        push_label(&mut text, "-");
        push_prefixed(&mut text, self.vm_addr_range().end);
        push_label(&mut text, ", len: ");
        push_decimal(&mut text, self.len);
        push_label(&mut text, ", writable: ");
        push_label(
            &mut text,
            if self.writable {
                "true"
            } else {
                "false"
            },
        );
        push_label(&mut text, ", payload ");
        match self.access_violation_handler_payload {
            Some(value) => {
                let ghost before = text@;
                push_label(&mut text, "Some(");
                push_decimal(&mut text, value as u64);
                push_label(&mut text, ")");
                assert(text@ =~= before + payload_text(Some(value)));
            },
            None => push_label(&mut text, "None"),
        }
        text
    }
}

/// A region is described by its host range and its virtual range, in hexadecimal notation and up to
/// the last address of all, by its length, by whether it is writable, and by its payload.
pub proof fn law_description(region: &MemoryRegion, text: Vec<u8>, payload: Seq<u8>)
    requires
        call_ensures(MemoryRegion::describe, (region,), text),
        region.access_violation_handler_payload is None ==> payload == "None".spec_bytes(),
        region.access_violation_handler_payload matches Some(value) ==> payload
            == "Some(".spec_bytes() + decimal(value as nat) + ")".spec_bytes(),
    ensures
        ({
            let host_end = if region.host_addr + region.len > u64::MAX {
                u64::MAX as nat
            } else {
                (region.host_addr + region.len) as nat
            };
            let vm_size = if region.vm_gap_shift == 63 {
                region.len as int
            } else {
                2 * region.len
            };
            let vm_end = if region.vm_addr + vm_size > u64::MAX {
                u64::MAX as nat
            } else {
                (region.vm_addr + vm_size) as nat
            };
            text@ == "host_addr: ".spec_bytes() + hexadecimal_prefixed(region.host_addr as nat)
                + "-".spec_bytes() + hexadecimal_prefixed(host_end) + ", vm_addr: ".spec_bytes()
                + hexadecimal_prefixed(region.vm_addr as nat) + "-".spec_bytes()
                + hexadecimal_prefixed(vm_end) + ", len: ".spec_bytes() + decimal(
                region.len as nat,
            ) + ", writable: ".spec_bytes() + (if region.writable {
                "true".spec_bytes()
            } else {
                "false".spec_bytes()
            }) + ", payload ".spec_bytes() + payload
        }),
{
}

} // verus!
