//! The switch node's router: the first output port, in declaration order,
//! whose `when` condition holds takes the artifact; `default` takes it
//! otherwise.
//!
//! Each port's condition is evaluated against the node's frontmatter,
//! variables and iteration before routing; the router receives the outcome.
use vstd::prelude::*;
use crate::text::str_eq;

verus! {

/// An output port of a switch, with the outcome of its `when` condition:
/// `None` when it has none, else whether it held.
pub struct SwitchPort {
    pub name: String,
    pub when: Option<bool>,
}

/// The port that takes the artifact, among `ports[from..]`.
pub open spec fn routed_from(ports: Seq<SwitchPort>, from: int) -> Seq<char>
    decreases ports.len() - from,
{
    if from >= ports.len() || from < 0 {
        "default"@
    } else if ports[from].name@ != "default"@ && ports[from].when == Some(true) {
        ports[from].name@
    } else {
        routed_from(ports, from + 1)
    }
}

/// Route a switch: the name of the first non-`default` port whose condition
/// held, or `default` when none did.
pub fn route(outputs: &[SwitchPort]) -> (r: &str)
    ensures
        r@ == routed_from(outputs@, 0),
{
    let mut i: usize = 0;
    while i < outputs.len()
        invariant
            i <= outputs@.len(),
            routed_from(outputs@, 0) == routed_from(outputs@, i as int),
        decreases outputs.len() - i,
    {
        let port = &outputs[i];
        if !str_eq(port.name.as_str(), "default") {
            if let Some(true) = port.when {
                return port.name.as_str();
            }
        }
        i += 1;
    }
    "default"
}

/// The artifact goes to `default`, or to a port not named `default` whose
/// condition held.
pub proof fn law_routes_to_a_holding_port_or_default(ports: Seq<SwitchPort>, from: int)
    requires
        0 <= from,
    ensures
        routed_from(ports, from) == "default"@ || exists|i: int|
            from <= i < ports.len() && (#[trigger] ports[i]).name@ == routed_from(ports, from) && ports[i].name@
                != "default"@ && ports[i].when == Some(true),
    decreases ports.len() - from,
{
    if from < ports.len() {
        law_routes_to_a_holding_port_or_default(ports, from + 1);
    }
}

/// First match wins: when port `k` holds and no port from `from` on before
/// it does, port `k` takes the artifact.
pub proof fn law_first_match_wins(ports: Seq<SwitchPort>, from: int, k: int)
    requires
        0 <= from <= k < ports.len(),
        ports[k].name@ != "default"@,
        ports[k].when == Some(true),
        forall|i: int| from <= i < k ==> !((#[trigger] ports[i]).name@ != "default"@ && ports[i].when == Some(true)),
    ensures
        routed_from(ports, from) == ports[k].name@,
    decreases k - from,
{
    if from < k {
        law_first_match_wins(ports, from + 1, k);
    }
}

} // verus!
