use vstd::prelude::*;

verus! {

/// `name` begins with `prefix`.
pub open spec fn has_prefix(name: Seq<char>, prefix: Seq<char>) -> bool {
    prefix.len() <= name.len() && name.take(prefix.len() as int) =~= prefix
}

/// Whether `name` begins with `prefix`.
fn starts_with(name: &str, prefix: &str) -> (r: bool)
    ensures
        r == has_prefix(name@, prefix@),
{
    let n = name.unicode_len();
    let p = prefix.unicode_len();
    if p > n {
        return false;
    }
    let mut i: usize = 0;
    while i < p
        invariant
            p == prefix@.len(),
            n == name@.len(),
            p <= n,
            i <= p,
            forall|j: int| 0 <= j < i ==> name@[j] == prefix@[j],
        decreases p - i,
    {
        if name.get_char(i) != prefix.get_char(i) {
            assert(name@.take(p as int)[i as int] != prefix@[i as int]);
            return false;
        }
        i += 1;
    }
    assert(name@.take(p as int) =~= prefix@);
    true
}

/// The module that handles a tool, chosen by the prefix of its name.
pub open spec fn tool_route(name: Seq<char>) -> Seq<char> {
    if has_prefix(name, "lineage_"@) {
        "orchestration::lineage"@
    } else if has_prefix(name, "enforcer_"@) {
        "orchestration::enforcer"@
    } else if has_prefix(name, "pattern_"@) {
        "orchestration::patterns"@
    } else if has_prefix(name, "vault_"@) {
        "domain::vault"@
    } else if has_prefix(name, "adapter_"@) {
        "domain::adapter"@
    } else if has_prefix(name, "sentinel_"@) {
        "orchestration::sentinel"@
    } else if has_prefix(name, "risk_"@) {
        "domain::risk"@
    } else {
        "unknown"@
    }
}

/// Route a tool name to the module that should handle it, based on prefix.
pub fn route_tool(name: &str) -> (module: &'static str)
    ensures
        module@ == tool_route(name@),
{
    if starts_with(name, "lineage_") {
        "orchestration::lineage"
    } else if starts_with(name, "enforcer_") {
        "orchestration::enforcer"
    } else if starts_with(name, "pattern_") {
        "orchestration::patterns"
    } else if starts_with(name, "vault_") {
        "domain::vault"
    } else if starts_with(name, "adapter_") {
        "domain::adapter"
    } else if starts_with(name, "sentinel_") {
        "orchestration::sentinel"
    } else if starts_with(name, "risk_") {
        "domain::risk"
    } else {
        "unknown"
    }
}

} // verus!
