use vstd::prelude::*;
use crate::wire::AlertModel;

verus! {

/// Failure categories of a fetch, per the error taxonomy: either the network
/// exchange itself failed, or the received body could not be interpreted.
#[derive(Clone, Copy, Debug, PartialEq, Eq, Structural)]
pub enum Error {
    Transport,
    Parse,
}

/// One alert notification: affected area names in received order, the
/// timestamp as epoch-milliseconds in UTC, and a human-readable title.
///
/// The timestamp doubles as a likely-but-unguaranteed unique identifier;
/// this type merely preserves whatever value the source provides.
#[derive(Debug, Clone, PartialEq)]
pub struct Alert {
    pub areas: Vec<String>,
    pub date: i64,
    pub title: String,
}

pub open spec fn areas_view(v: Seq<String>) -> Seq<Seq<char>> {
    v.map_values(|s: String| s@)
}

impl View for Alert {
    type V = AlertModel;

    open spec fn view(&self) -> AlertModel {
        AlertModel {
            areas: areas_view(self.areas@),
            date: self.date as int,
            title: self.title@,
        }
    }
}

} // verus!
