//! Explicitly declared tools from a legacy `tools` array, and the binary
//! path augmentation shared with the manifest loader.
use vstd::prelude::*;

use crate::config::{ManifestError, Tool};
use crate::toml_model::{value_lookup, value_lookup_spec, TomlValue};
use crate::unknown_tools::{legacy_list_ok, legacy_tools_match};

verus! {

/// Decode the tools of a legacy `tools` array; anything else declares
/// nothing.
pub fn parse_explicit(root: &TomlValue) -> (r: Result<Vec<Tool>, ManifestError>)
    ensures
        match r {
            Ok(ts) => (match value_lookup_spec(*root, "tools"@) {
                Option::Some(TomlValue::List(items)) => legacy_tools_match(items@, ts@),
                _ => ts@.len() == 0,
            }),
            Err(_) => !(match value_lookup_spec(*root, "tools"@) {
                Option::Some(TomlValue::List(items)) => legacy_list_ok(items@),
                _ => true,
            }),
        },
{
    match value_lookup(root, "tools") {
        Some(v) => {
            if v.as_list().is_some() {
                crate::unknown_tools::parse_legacy_list(v)
            } else {
                let empty: Vec<Tool> = Vec::new();
                proof {
                    assert(empty@ =~= Seq::<Tool>::empty());
                }
                Ok(empty)
            }
        },
        None => {
            let empty: Vec<Tool> = Vec::new();
            proof {
                assert(empty@ =~= Seq::<Tool>::empty());
            }
            Ok(empty)
        },
    }
}

/// Fill the implicit in-archive binary paths for a host.
pub fn augment_binary_fields(tools: &mut Vec<Tool>, os: &str, arch: &str)
    ensures
        final(tools).len() == old(tools).len(),
        forall|i: int|
            0 <= i < final(tools)@.len() ==> {
                let t0 = old(tools)@[i];
                let t1 = #[trigger] final(tools)@[i];
                &&& t1.name == t0.name
                &&& t1.version == t0.version
                &&& t1.kind == t0.kind
                &&& t1.source == t0.source
                &&& t1.sha256 == t0.sha256
                &&& t1.install_dir == t0.install_dir
                &&& t1.per_os == t0.per_os
                &&& t1.per_os_arch == t0.per_os_arch
                &&& (match t1.binary {
                    Option::Some(b) => crate::unknown_tools::augmented_binary(t0, os@, arch@)
                        == Option::Some(b@),
                    Option::None => crate::unknown_tools::augmented_binary(t0, os@, arch@) is None,
                })
            },
{
    crate::unknown_tools::augment_binary_fields(tools, os, arch)
}

} // verus!
