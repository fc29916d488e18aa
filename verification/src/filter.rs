//! Filters: which archetypes a query accepts, and which components it
//! listens on for additions and changes.
//!
//! `()` is the empty filter. `Without` and `With` filter archetypes; `Or`
//! accepts an archetype that has any of several components. `Added` and
//! `Changed` make the query iterate the rows whose component was added or
//! changed since the query last ran; several of them are alternatives.
//! Filters are combined in tuples of up to fifteen, which nest.

use crate::archetype::Archetype;
use crate::component::ComponentInfo;
use crate::ids::ComponentIndex;
use crate::listener::Reject;
use crate::table::has_component;
use vstd::prelude::*;

verus! {

/// What a query declares of its access to components, for the scheduler to
/// order systems by.
#[derive(Debug)]
pub struct ReadWrite {
    /// The components that are read.
    pub reads: Vec<ComponentIndex>,
    /// The components that are written.
    pub writes: Vec<ComponentIndex>,
    /// The components that matched archetypes must lack.
    pub withouts: Vec<ComponentIndex>,
    /// The components that are listened on, each with whether changes
    /// (`true`) or only additions (`false`) are listened for.
    pub listeners: Vec<(ComponentIndex, bool)>,
}

impl ReadWrite {
    /// Nothing declared.
    pub fn new() -> (r: Self)
        ensures
            r.reads@.len() == 0,
            r.writes@.len() == 0,
            r.withouts@.len() == 0,
            r.listeners@.len() == 0,
    {
        ReadWrite {
            reads: Vec::new(),
            writes: Vec::new(),
            withouts: Vec::new(),
            listeners: Vec::new(),
        }
    }
}

/// A condition on the component set of an archetype that an `Or` combines.
pub trait FilterArchetype {
    /// Whether the condition fails on the component set.
    spec fn lacks(&self, columns: Seq<ComponentInfo>) -> bool;

    /// Whether the condition fails on the archetype.
    fn filter_archetype(&self, archetype: &Archetype) -> (r: bool)
        requires
            archetype.wf(),
        ensures
            r == self.lacks(archetype.table_view().columns()),
    ;

    /// The rule by which the condition fails, for the world to keep.
    fn lack_rule(&self) -> (r: Reject)
        ensures
            forall|columns: Seq<ComponentInfo>| #[trigger] r.holds(columns) == self.lacks(columns),
    ;
}

/// A filter of a query.
pub trait FilterComponents {
    /// Whether the filter rejects an archetype with the component set.
    spec fn rejects(&self, columns: Seq<ComponentInfo>) -> bool;

    /// The components that the filter wants absent.
    spec fn withouts(&self) -> Seq<ComponentIndex>;

    /// The components that the filter listens on.
    spec fn listens(&self) -> Seq<(ComponentIndex, bool)>;

    /// Declares what the filter excludes and listens on.
    fn init_read_write(&self, rw: &mut ReadWrite)
        ensures
            final(rw).reads@ == old(rw).reads@,
            final(rw).writes@ == old(rw).writes@,
            final(rw).withouts@ == old(rw).withouts@ + self.withouts(),
            final(rw).listeners@ == old(rw).listeners@ + self.listens(),
    ;

    /// Whether the filter rejects the archetype.
    fn archetype_filter(&self, archetype: &Archetype) -> (r: bool)
        requires
            archetype.wf(),
        ensures
            r == self.rejects(archetype.table_view().columns()),
    ;

    /// The rule by which the filter rejects archetypes, for the world to
    /// keep with the query's registration as a listener.
    fn rejection(&self) -> (r: Reject)
        ensures
            forall|columns: Seq<ComponentInfo>| #[trigger] r.holds(columns) == self.rejects(columns),
    ;
}

/// Accepts the archetypes that lack the component.
#[derive(Debug, Clone, Copy)]
pub struct Without(pub ComponentIndex);

/// Accepts the archetypes that have the component.
#[derive(Debug, Clone, Copy)]
pub struct With(pub ComponentIndex);

/// Iterates the rows whose component was added since the query last ran.
#[derive(Debug, Clone, Copy)]
pub struct Added(pub ComponentIndex);

/// Iterates the rows whose component was added or changed since the query
/// last ran.
#[derive(Debug, Clone, Copy)]
pub struct Changed(pub ComponentIndex);

/// Accepts the archetypes on which one of the combined conditions holds.
pub struct Or<T: FilterArchetype>(pub T);

impl FilterComponents for () {
    open spec fn rejects(&self, columns: Seq<ComponentInfo>) -> bool {
        false
    }

    open spec fn withouts(&self) -> Seq<ComponentIndex> {
        Seq::empty()
    }

    open spec fn listens(&self) -> Seq<(ComponentIndex, bool)> {
        Seq::empty()
    }

    fn init_read_write(&self, rw: &mut ReadWrite) {
        proof {
            assert(rw.withouts@ + Seq::<ComponentIndex>::empty() =~= rw.withouts@);
            assert(rw.listeners@ + Seq::<(ComponentIndex, bool)>::empty() =~= rw.listeners@);
        }
    }

    fn rejection(&self) -> (r: Reject) {
        Reject::Never
    }

    fn archetype_filter(&self, archetype: &Archetype) -> (r: bool) {
        false
    }
}

impl FilterComponents for Without {
    open spec fn rejects(&self, columns: Seq<ComponentInfo>) -> bool {
        has_component(columns, self.0)
    }

    open spec fn withouts(&self) -> Seq<ComponentIndex> {
        seq![self.0]
    }

    open spec fn listens(&self) -> Seq<(ComponentIndex, bool)> {
        Seq::empty()
    }

    fn init_read_write(&self, rw: &mut ReadWrite) {
        rw.withouts.push(self.0);
        proof {
            assert(rw.withouts@ =~= old(rw).withouts@ + seq![self.0]);
            assert(rw.listeners@ + Seq::<(ComponentIndex, bool)>::empty() =~= rw.listeners@);
        }
    }

    fn rejection(&self) -> (r: Reject) {
        Reject::Has(self.0)
    }

    fn archetype_filter(&self, archetype: &Archetype) -> (r: bool) {
        archetype.table().contains(self.0)
    }
}

impl FilterArchetype for With {
    open spec fn lacks(&self, columns: Seq<ComponentInfo>) -> bool {
        !has_component(columns, self.0)
    }

    fn lack_rule(&self) -> (r: Reject) {
        Reject::Lacks(self.0)
    }

    fn filter_archetype(&self, archetype: &Archetype) -> (r: bool) {
        !archetype.table().contains(self.0)
    }
}

impl FilterComponents for With {
    open spec fn rejects(&self, columns: Seq<ComponentInfo>) -> bool {
        !has_component(columns, self.0)
    }

    open spec fn withouts(&self) -> Seq<ComponentIndex> {
        Seq::empty()
    }

    open spec fn listens(&self) -> Seq<(ComponentIndex, bool)> {
        Seq::empty()
    }

    fn init_read_write(&self, rw: &mut ReadWrite) {
        proof {
            assert(rw.withouts@ + Seq::<ComponentIndex>::empty() =~= rw.withouts@);
            assert(rw.listeners@ + Seq::<(ComponentIndex, bool)>::empty() =~= rw.listeners@);
        }
    }

    fn rejection(&self) -> (r: Reject) {
        Reject::Lacks(self.0)
    }

    fn archetype_filter(&self, archetype: &Archetype) -> (r: bool) {
        !archetype.table().contains(self.0)
    }
}

impl FilterComponents for Added {
    open spec fn rejects(&self, columns: Seq<ComponentInfo>) -> bool {
        false
    }

    open spec fn withouts(&self) -> Seq<ComponentIndex> {
        Seq::empty()
    }

    open spec fn listens(&self) -> Seq<(ComponentIndex, bool)> {
        seq![(self.0, false)]
    }

    fn init_read_write(&self, rw: &mut ReadWrite) {
        rw.listeners.push((self.0, false));
        proof {
            assert(rw.withouts@ + Seq::<ComponentIndex>::empty() =~= rw.withouts@);
            assert(rw.listeners@ =~= old(rw).listeners@ + seq![(self.0, false)]);
        }
    }

    fn rejection(&self) -> (r: Reject) {
        Reject::Never
    }

    fn archetype_filter(&self, archetype: &Archetype) -> (r: bool) {
        false
    }
}

impl FilterComponents for Changed {
    open spec fn rejects(&self, columns: Seq<ComponentInfo>) -> bool {
        false
    }

    open spec fn withouts(&self) -> Seq<ComponentIndex> {
        Seq::empty()
    }

    open spec fn listens(&self) -> Seq<(ComponentIndex, bool)> {
        seq![(self.0, true)]
    }

    fn init_read_write(&self, rw: &mut ReadWrite) {
        rw.listeners.push((self.0, true));
        proof {
            assert(rw.withouts@ + Seq::<ComponentIndex>::empty() =~= rw.withouts@);
            assert(rw.listeners@ =~= old(rw).listeners@ + seq![(self.0, true)]);
        }
    }

    fn rejection(&self) -> (r: Reject) {
        Reject::Never
    }

    fn archetype_filter(&self, archetype: &Archetype) -> (r: bool) {
        false
    }
}

impl<T: FilterArchetype> FilterComponents for Or<T> {
    open spec fn rejects(&self, columns: Seq<ComponentInfo>) -> bool {
        self.0.lacks(columns)
    }

    open spec fn withouts(&self) -> Seq<ComponentIndex> {
        Seq::empty()
    }

    open spec fn listens(&self) -> Seq<(ComponentIndex, bool)> {
        Seq::empty()
    }

    fn init_read_write(&self, rw: &mut ReadWrite) {
        proof {
            assert(rw.withouts@ + Seq::<ComponentIndex>::empty() =~= rw.withouts@);
            assert(rw.listeners@ + Seq::<(ComponentIndex, bool)>::empty() =~= rw.listeners@);
        }
    }

    fn rejection(&self) -> (r: Reject) {
        self.0.lack_rule()
    }

    fn archetype_filter(&self, archetype: &Archetype) -> (r: bool) {
        self.0.filter_archetype(archetype)
    }
}

/// Two conditions under an `Or` fail together only: one that holds is enough.
impl<A: FilterArchetype, B: FilterArchetype> FilterArchetype for (A, B) {
    open spec fn lacks(&self, columns: Seq<ComponentInfo>) -> bool {
        self.0.lacks(columns) && self.1.lacks(columns)
    }

    fn lack_rule(&self) -> (r: Reject) {
        let a = self.0.lack_rule();
        let b = self.1.lack_rule();
        let r = Reject::Both(Box::new(a), Box::new(b));
        proof {
            assert forall|columns: Seq<ComponentInfo>| #[trigger]
                r.holds(columns) == self.lacks(columns) by {
                assert(r.holds(columns) == (a.holds(columns) && b.holds(columns)));
            }
        }
        r
    }

    fn filter_archetype(&self, archetype: &Archetype) -> (r: bool) {
        if !self.0.filter_archetype(archetype) {
            return false;
        }
        if !self.1.filter_archetype(archetype) {
            return false;
        }
        true
    }
}

/// Two filters together reject what either rejects, and listen on what
/// either listens on.
impl<A: FilterComponents, B: FilterComponents> FilterComponents for (A, B) {
    open spec fn rejects(&self, columns: Seq<ComponentInfo>) -> bool {
        self.0.rejects(columns) || self.1.rejects(columns)
    }

    open spec fn withouts(&self) -> Seq<ComponentIndex> {
        self.0.withouts() + self.1.withouts()
    }

    open spec fn listens(&self) -> Seq<(ComponentIndex, bool)> {
        self.0.listens() + self.1.listens()
    }

    fn init_read_write(&self, rw: &mut ReadWrite) {
        self.0.init_read_write(rw);
        self.1.init_read_write(rw);
        proof {
            assert(rw.withouts@ =~= old(rw).withouts@ + (self.0.withouts() + self.1.withouts()));
            assert(rw.listeners@ =~= old(rw).listeners@ + (self.0.listens() + self.1.listens()));
        }
    }

    fn rejection(&self) -> (r: Reject) {
        let a = self.0.rejection();
        let b = self.1.rejection();
        let r = Reject::Either(Box::new(a), Box::new(b));
        proof {
            assert forall|columns: Seq<ComponentInfo>| #[trigger]
                r.holds(columns) == self.rejects(columns) by {
                assert(r.holds(columns) == (a.holds(columns) || b.holds(columns)));
            }
        }
        r
    }

    fn archetype_filter(&self, archetype: &Archetype) -> (r: bool) {
        if self.0.archetype_filter(archetype) {
            return true;
        }
        self.1.archetype_filter(archetype)
    }
}

} // verus!
