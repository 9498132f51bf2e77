//! The two dialects that the gateway speaks.
use vstd::prelude::*;

use crate::text::same_text;

verus! {

/// Which clients a gateway serves.
#[derive(Clone, Copy, Debug, PartialEq, Eq, Structural)]
pub enum GatewayMode {
    Postgres,
    MySql,
}

/// The name of a mode.
pub open spec fn mode_name(mode: GatewayMode) -> Seq<char> {
    match mode {
        GatewayMode::Postgres => "postgres"@,
        GatewayMode::MySql => "mysql"@,
    }
}

/// The mode with the given name.
pub open spec fn mode_named(name: Seq<char>) -> Option<GatewayMode> {
    if name == "postgres"@ {
        Some(GatewayMode::Postgres)
    } else if name == "mysql"@ {
        Some(GatewayMode::MySql)
    } else {
        None
    }
}

impl GatewayMode {
    /// The name of the mode.
    pub fn as_str(&self) -> (name: &'static str)
        ensures
            name@ == mode_name(*self),
    {
        match self {
            GatewayMode::Postgres => "postgres",
            GatewayMode::MySql => "mysql",
        }
    }

    /// The mode with the given name.
    pub fn parse(name: &str) -> (mode: Option<GatewayMode>)
        ensures
            mode == mode_named(name@),
    {
        if same_text(name, "postgres") {
            Some(GatewayMode::Postgres)
        } else if same_text(name, "mysql") {
            Some(GatewayMode::MySql)
        } else {
            None
        }
    }
}

/// A mode is found again by its name.
pub proof fn law_mode_name_roundtrip(mode: GatewayMode)
    ensures
        mode_named(mode_name(mode)) == Some(mode),
{
    reveal_strlit("postgres");
    reveal_strlit("mysql");
    assert("postgres"@.len() != "mysql"@.len());
}

} // verus!
