//! Listeners on the creation of archetypes: what a query listens on, and
//! which archetypes it rejects, as the world keeps them.

use crate::component::ComponentInfo;
use crate::ids::ComponentIndex;
use crate::table::{has_component, Table};
use vstd::prelude::*;

verus! {

/// Which archetypes a query rejects, as a rule over the component set.
#[derive(Debug)]
pub enum Reject {
    /// No archetype is rejected.
    Never,
    /// Every archetype is rejected.
    Always,
    /// The archetypes that have the component are rejected.
    Has(ComponentIndex),
    /// The archetypes that lack the component are rejected.
    Lacks(ComponentIndex),
    /// The archetypes that one of the two rules rejects are rejected.
    Either(Box<Reject>, Box<Reject>),
    /// The archetypes that both rules reject are rejected.
    Both(Box<Reject>, Box<Reject>),
}

impl Reject {
    /// Whether the rule rejects an archetype with the component set.
    pub open spec fn holds(&self, columns: Seq<ComponentInfo>) -> bool
        decreases self,
    {
        match self {
            Reject::Never => false,
            Reject::Always => true,
            Reject::Has(c) => has_component(columns, *c),
            Reject::Lacks(c) => !has_component(columns, *c),
            Reject::Either(a, b) => a.holds(columns) || b.holds(columns),
            Reject::Both(a, b) => a.holds(columns) && b.holds(columns),
        }
    }

    /// Whether the rule rejects the archetype of the table.
    pub fn eval(&self, table: &Table) -> (r: bool)
        requires
            table.wf(),
        ensures
            r == self.holds(table.columns()),
        decreases self,
    {
        match self {
            Reject::Never => false,
            Reject::Always => true,
            Reject::Has(c) => table.contains(*c),
            Reject::Lacks(c) => !table.contains(*c),
            Reject::Either(a, b) => a.eval(table) || b.eval(table),
            Reject::Both(a, b) => a.eval(table) && b.eval(table),
        }
    }
}

/// A listener on the creation of archetypes: a query that listens on
/// components for additions (`false`) or changes (`true`), in the
/// archetypes that it does not reject.
#[derive(Debug)]
pub struct Listener {
    /// The components that are listened on.
    pub listened: Vec<(ComponentIndex, bool)>,
    /// The archetypes that the query rejects.
    pub rejects: Reject,
}

impl Listener {
    /// Whether the listener gets slots in an archetype with the component
    /// set: the query does not reject it.
    pub open spec fn wanted(&self, columns: Seq<ComponentInfo>) -> bool {
        !self.rejects.holds(columns)
    }
}

} // verus!
