//! Filters in tuples: the filters of a tuple hold together, and the
//! conditions of a tuple under an `Or` are alternatives.

use crate::archetype::Archetype;
use crate::component::ComponentInfo;
use crate::filter::{FilterArchetype, FilterComponents, ReadWrite};
use crate::ids::ComponentIndex;
use crate::listener::Reject;
use vstd::prelude::*;

verus! {

/// No condition under an `Or`: none holds, so it fails on every archetype.
impl FilterArchetype for () {
    open spec fn lacks(&self, columns: Seq<ComponentInfo>) -> bool {
        true
    }

    fn lack_rule(&self) -> (r: Reject) {
        Reject::Always
    }

    fn filter_archetype(&self, archetype: &Archetype) -> (r: bool) {
        true
    }
}

/// A filter alone in a tuple is that filter.
impl<A: FilterComponents> FilterComponents for (A,) {
    open spec fn rejects(&self, columns: Seq<ComponentInfo>) -> bool {
        self.0.rejects(columns)
    }

    open spec fn withouts(&self) -> Seq<ComponentIndex> {
        self.0.withouts()
    }

    open spec fn listens(&self) -> Seq<(ComponentIndex, bool)> {
        self.0.listens()
    }

    fn init_read_write(&self, rw: &mut ReadWrite) {
        self.0.init_read_write(rw);
    }

    fn rejection(&self) -> (r: Reject) {
        self.0.rejection()
    }

    fn archetype_filter(&self, archetype: &Archetype) -> (r: bool) {
        self.0.archetype_filter(archetype)
    }
}

/// A condition alone in a tuple is that condition.
impl<A: FilterArchetype> FilterArchetype for (A,) {
    open spec fn lacks(&self, columns: Seq<ComponentInfo>) -> bool {
        self.0.lacks(columns)
    }

    fn lack_rule(&self) -> (r: Reject) {
        self.0.lack_rule()
    }

    fn filter_archetype(&self, archetype: &Archetype) -> (r: bool) {
        if !self.0.filter_archetype(archetype) {
            return false;
        }
        true
    }
}

/// 3 filters together reject what one of them rejects, and listen on
/// what any of them listens on.
impl<A: FilterComponents, B: FilterComponents, C: FilterComponents> FilterComponents for (A, B, C) {
    open spec fn rejects(&self, columns: Seq<ComponentInfo>) -> bool {
        self.0.rejects(columns)
            || self.1.rejects(columns)
            || self.2.rejects(columns)
    }

    open spec fn withouts(&self) -> Seq<ComponentIndex> {
        self.0.withouts()
            + self.1.withouts()
            + self.2.withouts()
    }

    open spec fn listens(&self) -> Seq<(ComponentIndex, bool)> {
        self.0.listens()
            + self.1.listens()
            + self.2.listens()
    }

    fn init_read_write(&self, rw: &mut ReadWrite) {
        self.0.init_read_write(rw);
        self.1.init_read_write(rw);
        proof {
            assert(rw.withouts@ =~= old(rw).withouts@ + (self.0.withouts() + self.1.withouts()));
            assert(rw.listeners@ =~= old(rw).listeners@ + (self.0.listens() + self.1.listens()));
        }
        self.2.init_read_write(rw);
        proof {
            assert(rw.withouts@ =~= old(rw).withouts@ + (self.0.withouts() + self.1.withouts() + self.2.withouts()));
            assert(rw.listeners@ =~= old(rw).listeners@ + (self.0.listens() + self.1.listens() + self.2.listens()));
        }
    }

    fn rejection(&self) -> (r: Reject) {
        let r0 = self.0.rejection();
        let x1 = self.1.rejection();
        let ghost g0 = r0;
        let ghost h1 = x1;
        let r1 = Reject::Either(Box::new(r0), Box::new(x1));
        proof {
            assert forall|columns: Seq<ComponentInfo>| #[trigger]
                r1.holds(columns) == (self.0.rejects(columns) || self.1.rejects(columns)) by {
                assert(r1.holds(columns) == (g0.holds(columns) || h1.holds(columns)));
            }
        }
        let x2 = self.2.rejection();
        let ghost g1 = r1;
        let ghost h2 = x2;
        let r2 = Reject::Either(Box::new(r1), Box::new(x2));
        proof {
            assert forall|columns: Seq<ComponentInfo>| #[trigger]
                r2.holds(columns) == (self.0.rejects(columns) || self.1.rejects(columns) || self.2.rejects(columns)) by {
                assert(r2.holds(columns) == (g1.holds(columns) || h2.holds(columns)));
            }
        }
        r2
    }

    fn archetype_filter(&self, archetype: &Archetype) -> (r: bool) {
        if self.0.archetype_filter(archetype) {
            return true;
        }
        if self.1.archetype_filter(archetype) {
            return true;
        }
        self.2.archetype_filter(archetype)
    }
}

/// 3 conditions under an `Or` fail together only: one that holds is
/// enough.
impl<A: FilterArchetype, B: FilterArchetype, C: FilterArchetype> FilterArchetype for (A, B, C) {
    open spec fn lacks(&self, columns: Seq<ComponentInfo>) -> bool {
        self.0.lacks(columns)
            && self.1.lacks(columns)
            && self.2.lacks(columns)
    }

    fn lack_rule(&self) -> (r: Reject) {
        let r0 = self.0.lack_rule();
        let x1 = self.1.lack_rule();
        let ghost g0 = r0;
        let ghost h1 = x1;
        let r1 = Reject::Both(Box::new(r0), Box::new(x1));
        proof {
            assert forall|columns: Seq<ComponentInfo>| #[trigger]
                r1.holds(columns) == (self.0.lacks(columns) && self.1.lacks(columns)) by {
                assert(r1.holds(columns) == (g0.holds(columns) && h1.holds(columns)));
            }
        }
        let x2 = self.2.lack_rule();
        let ghost g1 = r1;
        let ghost h2 = x2;
        let r2 = Reject::Both(Box::new(r1), Box::new(x2));
        proof {
            assert forall|columns: Seq<ComponentInfo>| #[trigger]
                r2.holds(columns) == (self.0.lacks(columns) && self.1.lacks(columns) && self.2.lacks(columns)) by {
                assert(r2.holds(columns) == (g1.holds(columns) && h2.holds(columns)));
            }
        }
        r2
    }

    fn filter_archetype(&self, archetype: &Archetype) -> (r: bool) {
        if !self.0.filter_archetype(archetype) {
            return false;
        }
        if !self.1.filter_archetype(archetype) {
            return false;
        }
        if !self.2.filter_archetype(archetype) {
            return false;
        }
        true
    }
}

/// 4 filters together reject what one of them rejects, and listen on
/// what any of them listens on.
impl<A: FilterComponents, B: FilterComponents, C: FilterComponents, D: FilterComponents> FilterComponents for (A, B, C, D) {
    open spec fn rejects(&self, columns: Seq<ComponentInfo>) -> bool {
        self.0.rejects(columns)
            || self.1.rejects(columns)
            || self.2.rejects(columns)
            || self.3.rejects(columns)
    }

    open spec fn withouts(&self) -> Seq<ComponentIndex> {
        self.0.withouts()
            + self.1.withouts()
            + self.2.withouts()
            + self.3.withouts()
    }

    open spec fn listens(&self) -> Seq<(ComponentIndex, bool)> {
        self.0.listens()
            + self.1.listens()
            + self.2.listens()
            + self.3.listens()
    }

    fn init_read_write(&self, rw: &mut ReadWrite) {
        self.0.init_read_write(rw);
        self.1.init_read_write(rw);
        proof {
            assert(rw.withouts@ =~= old(rw).withouts@ + (self.0.withouts() + self.1.withouts()));
            assert(rw.listeners@ =~= old(rw).listeners@ + (self.0.listens() + self.1.listens()));
        }
        self.2.init_read_write(rw);
        proof {
            assert(rw.withouts@ =~= old(rw).withouts@ + (self.0.withouts() + self.1.withouts() + self.2.withouts()));
            assert(rw.listeners@ =~= old(rw).listeners@ + (self.0.listens() + self.1.listens() + self.2.listens()));
        }
        self.3.init_read_write(rw);
        proof {
            assert(rw.withouts@ =~= old(rw).withouts@ + (self.0.withouts() + self.1.withouts() + self.2.withouts() + self.3.withouts()));
            assert(rw.listeners@ =~= old(rw).listeners@ + (self.0.listens() + self.1.listens() + self.2.listens() + self.3.listens()));
        }
    }

    fn rejection(&self) -> (r: Reject) {
        let r0 = self.0.rejection();
        let x1 = self.1.rejection();
        let ghost g0 = r0;
        let ghost h1 = x1;
        let r1 = Reject::Either(Box::new(r0), Box::new(x1));
        proof {
            assert forall|columns: Seq<ComponentInfo>| #[trigger]
                r1.holds(columns) == (self.0.rejects(columns) || self.1.rejects(columns)) by {
                assert(r1.holds(columns) == (g0.holds(columns) || h1.holds(columns)));
            }
        }
        let x2 = self.2.rejection();
        let ghost g1 = r1;
        let ghost h2 = x2;
        let r2 = Reject::Either(Box::new(r1), Box::new(x2));
        proof {
            assert forall|columns: Seq<ComponentInfo>| #[trigger]
                r2.holds(columns) == (self.0.rejects(columns) || self.1.rejects(columns) || self.2.rejects(columns)) by {
                assert(r2.holds(columns) == (g1.holds(columns) || h2.holds(columns)));
            }
        }
        let x3 = self.3.rejection();
        let ghost g2 = r2;
        let ghost h3 = x3;
        let r3 = Reject::Either(Box::new(r2), Box::new(x3));
        proof {
            assert forall|columns: Seq<ComponentInfo>| #[trigger]
                r3.holds(columns) == (self.0.rejects(columns) || self.1.rejects(columns) || self.2.rejects(columns) || self.3.rejects(columns)) by {
                assert(r3.holds(columns) == (g2.holds(columns) || h3.holds(columns)));
            }
        }
        r3
    }

    fn archetype_filter(&self, archetype: &Archetype) -> (r: bool) {
        if self.0.archetype_filter(archetype) {
            return true;
        }
        if self.1.archetype_filter(archetype) {
            return true;
        }
        if self.2.archetype_filter(archetype) {
            return true;
        }
        self.3.archetype_filter(archetype)
    }
}

/// 4 conditions under an `Or` fail together only: one that holds is
/// enough.
impl<A: FilterArchetype, B: FilterArchetype, C: FilterArchetype, D: FilterArchetype> FilterArchetype for (A, B, C, D) {
    open spec fn lacks(&self, columns: Seq<ComponentInfo>) -> bool {
        self.0.lacks(columns)
            && self.1.lacks(columns)
            && self.2.lacks(columns)
            && self.3.lacks(columns)
    }

    fn lack_rule(&self) -> (r: Reject) {
        let r0 = self.0.lack_rule();
        let x1 = self.1.lack_rule();
        let ghost g0 = r0;
        let ghost h1 = x1;
        let r1 = Reject::Both(Box::new(r0), Box::new(x1));
        proof {
            assert forall|columns: Seq<ComponentInfo>| #[trigger]
                r1.holds(columns) == (self.0.lacks(columns) && self.1.lacks(columns)) by {
                assert(r1.holds(columns) == (g0.holds(columns) && h1.holds(columns)));
            }
        }
        let x2 = self.2.lack_rule();
        let ghost g1 = r1;
        let ghost h2 = x2;
        let r2 = Reject::Both(Box::new(r1), Box::new(x2));
        proof {
            assert forall|columns: Seq<ComponentInfo>| #[trigger]
                r2.holds(columns) == (self.0.lacks(columns) && self.1.lacks(columns) && self.2.lacks(columns)) by {
                assert(r2.holds(columns) == (g1.holds(columns) && h2.holds(columns)));
            }
        }
        let x3 = self.3.lack_rule();
        let ghost g2 = r2;
        let ghost h3 = x3;
        let r3 = Reject::Both(Box::new(r2), Box::new(x3));
        proof {
            assert forall|columns: Seq<ComponentInfo>| #[trigger]
                r3.holds(columns) == (self.0.lacks(columns) && self.1.lacks(columns) && self.2.lacks(columns) && self.3.lacks(columns)) by {
                assert(r3.holds(columns) == (g2.holds(columns) && h3.holds(columns)));
            }
        }
        r3
    }

    fn filter_archetype(&self, archetype: &Archetype) -> (r: bool) {
        if !self.0.filter_archetype(archetype) {
            return false;
        }
        if !self.1.filter_archetype(archetype) {
            return false;
        }
        if !self.2.filter_archetype(archetype) {
            return false;
        }
        if !self.3.filter_archetype(archetype) {
            return false;
        }
        true
    }
}

/// 5 filters together reject what one of them rejects, and listen on
/// what any of them listens on.
impl<A: FilterComponents, B: FilterComponents, C: FilterComponents, D: FilterComponents, E: FilterComponents> FilterComponents for (A, B, C, D, E) {
    open spec fn rejects(&self, columns: Seq<ComponentInfo>) -> bool {
        self.0.rejects(columns)
            || self.1.rejects(columns)
            || self.2.rejects(columns)
            || self.3.rejects(columns)
            || self.4.rejects(columns)
    }

    open spec fn withouts(&self) -> Seq<ComponentIndex> {
        self.0.withouts()
            + self.1.withouts()
            + self.2.withouts()
            + self.3.withouts()
            + self.4.withouts()
    }

    open spec fn listens(&self) -> Seq<(ComponentIndex, bool)> {
        self.0.listens()
            + self.1.listens()
            + self.2.listens()
            + self.3.listens()
            + self.4.listens()
    }

    fn init_read_write(&self, rw: &mut ReadWrite) {
        self.0.init_read_write(rw);
        self.1.init_read_write(rw);
        proof {
            assert(rw.withouts@ =~= old(rw).withouts@ + (self.0.withouts() + self.1.withouts()));
            assert(rw.listeners@ =~= old(rw).listeners@ + (self.0.listens() + self.1.listens()));
        }
        self.2.init_read_write(rw);
        proof {
            assert(rw.withouts@ =~= old(rw).withouts@ + (self.0.withouts() + self.1.withouts() + self.2.withouts()));
            assert(rw.listeners@ =~= old(rw).listeners@ + (self.0.listens() + self.1.listens() + self.2.listens()));
        }
        self.3.init_read_write(rw);
        proof {
            assert(rw.withouts@ =~= old(rw).withouts@ + (self.0.withouts() + self.1.withouts() + self.2.withouts() + self.3.withouts()));
            assert(rw.listeners@ =~= old(rw).listeners@ + (self.0.listens() + self.1.listens() + self.2.listens() + self.3.listens()));
        }
        self.4.init_read_write(rw);
        proof {
            assert(rw.withouts@ =~= old(rw).withouts@ + (self.0.withouts() + self.1.withouts() + self.2.withouts() + self.3.withouts() + self.4.withouts()));
            assert(rw.listeners@ =~= old(rw).listeners@ + (self.0.listens() + self.1.listens() + self.2.listens() + self.3.listens() + self.4.listens()));
        }
    }

    fn rejection(&self) -> (r: Reject) {
        let r0 = self.0.rejection();
        let x1 = self.1.rejection();
        let ghost g0 = r0;
        let ghost h1 = x1;
        let r1 = Reject::Either(Box::new(r0), Box::new(x1));
        proof {
            assert forall|columns: Seq<ComponentInfo>| #[trigger]
                r1.holds(columns) == (self.0.rejects(columns) || self.1.rejects(columns)) by {
                assert(r1.holds(columns) == (g0.holds(columns) || h1.holds(columns)));
            }
        }
        let x2 = self.2.rejection();
        let ghost g1 = r1;
        let ghost h2 = x2;
        let r2 = Reject::Either(Box::new(r1), Box::new(x2));
        proof {
            assert forall|columns: Seq<ComponentInfo>| #[trigger]
                r2.holds(columns) == (self.0.rejects(columns) || self.1.rejects(columns) || self.2.rejects(columns)) by {
                assert(r2.holds(columns) == (g1.holds(columns) || h2.holds(columns)));
            }
        }
        let x3 = self.3.rejection();
        let ghost g2 = r2;
        let ghost h3 = x3;
        let r3 = Reject::Either(Box::new(r2), Box::new(x3));
        proof {
            assert forall|columns: Seq<ComponentInfo>| #[trigger]
                r3.holds(columns) == (self.0.rejects(columns) || self.1.rejects(columns) || self.2.rejects(columns) || self.3.rejects(columns)) by {
                assert(r3.holds(columns) == (g2.holds(columns) || h3.holds(columns)));
            }
        }
        let x4 = self.4.rejection();
        let ghost g3 = r3;
        let ghost h4 = x4;
        let r4 = Reject::Either(Box::new(r3), Box::new(x4));
        proof {
            assert forall|columns: Seq<ComponentInfo>| #[trigger]
                r4.holds(columns) == (self.0.rejects(columns) || self.1.rejects(columns) || self.2.rejects(columns) || self.3.rejects(columns) || self.4.rejects(columns)) by {
                assert(r4.holds(columns) == (g3.holds(columns) || h4.holds(columns)));
            }
        }
        r4
    }

    fn archetype_filter(&self, archetype: &Archetype) -> (r: bool) {
        if self.0.archetype_filter(archetype) {
            return true;
        }
        if self.1.archetype_filter(archetype) {
            return true;
        }
        if self.2.archetype_filter(archetype) {
            return true;
        }
        if self.3.archetype_filter(archetype) {
            return true;
        }
        self.4.archetype_filter(archetype)
    }
}

/// 5 conditions under an `Or` fail together only: one that holds is
/// enough.
impl<A: FilterArchetype, B: FilterArchetype, C: FilterArchetype, D: FilterArchetype, E: FilterArchetype> FilterArchetype for (A, B, C, D, E) {
    open spec fn lacks(&self, columns: Seq<ComponentInfo>) -> bool {
        self.0.lacks(columns)
            && self.1.lacks(columns)
            && self.2.lacks(columns)
            && self.3.lacks(columns)
            && self.4.lacks(columns)
    }

    fn lack_rule(&self) -> (r: Reject) {
        let r0 = self.0.lack_rule();
        let x1 = self.1.lack_rule();
        let ghost g0 = r0;
        let ghost h1 = x1;
        let r1 = Reject::Both(Box::new(r0), Box::new(x1));
        proof {
            assert forall|columns: Seq<ComponentInfo>| #[trigger]
                r1.holds(columns) == (self.0.lacks(columns) && self.1.lacks(columns)) by {
                assert(r1.holds(columns) == (g0.holds(columns) && h1.holds(columns)));
            }
        }
        let x2 = self.2.lack_rule();
        let ghost g1 = r1;
        let ghost h2 = x2;
        let r2 = Reject::Both(Box::new(r1), Box::new(x2));
        proof {
            assert forall|columns: Seq<ComponentInfo>| #[trigger]
                r2.holds(columns) == (self.0.lacks(columns) && self.1.lacks(columns) && self.2.lacks(columns)) by {
                assert(r2.holds(columns) == (g1.holds(columns) && h2.holds(columns)));
            }
        }
        let x3 = self.3.lack_rule();
        let ghost g2 = r2;
        let ghost h3 = x3;
        let r3 = Reject::Both(Box::new(r2), Box::new(x3));
        proof {
            assert forall|columns: Seq<ComponentInfo>| #[trigger]
                r3.holds(columns) == (self.0.lacks(columns) && self.1.lacks(columns) && self.2.lacks(columns) && self.3.lacks(columns)) by {
                assert(r3.holds(columns) == (g2.holds(columns) && h3.holds(columns)));
            }
        }
        let x4 = self.4.lack_rule();
        let ghost g3 = r3;
        let ghost h4 = x4;
        let r4 = Reject::Both(Box::new(r3), Box::new(x4));
        proof {
            assert forall|columns: Seq<ComponentInfo>| #[trigger]
                r4.holds(columns) == (self.0.lacks(columns) && self.1.lacks(columns) && self.2.lacks(columns) && self.3.lacks(columns) && self.4.lacks(columns)) by {
                assert(r4.holds(columns) == (g3.holds(columns) && h4.holds(columns)));
            }
        }
        r4
    }

    fn filter_archetype(&self, archetype: &Archetype) -> (r: bool) {
        if !self.0.filter_archetype(archetype) {
            return false;
        }
        if !self.1.filter_archetype(archetype) {
            return false;
        }
        if !self.2.filter_archetype(archetype) {
            return false;
        }
        if !self.3.filter_archetype(archetype) {
            return false;
        }
        if !self.4.filter_archetype(archetype) {
            return false;
        }
        true
    }
}

/// 6 filters together reject what one of them rejects, and listen on
/// what any of them listens on.
impl<A: FilterComponents, B: FilterComponents, C: FilterComponents, D: FilterComponents, E: FilterComponents, F: FilterComponents> FilterComponents for (A, B, C, D, E, F) {
    open spec fn rejects(&self, columns: Seq<ComponentInfo>) -> bool {
        self.0.rejects(columns)
            || self.1.rejects(columns)
            || self.2.rejects(columns)
            || self.3.rejects(columns)
            || self.4.rejects(columns)
            || self.5.rejects(columns)
    }

    open spec fn withouts(&self) -> Seq<ComponentIndex> {
        self.0.withouts()
            + self.1.withouts()
            + self.2.withouts()
            + self.3.withouts()
            + self.4.withouts()
            + self.5.withouts()
    }

    open spec fn listens(&self) -> Seq<(ComponentIndex, bool)> {
        self.0.listens()
            + self.1.listens()
            + self.2.listens()
            + self.3.listens()
            + self.4.listens()
            + self.5.listens()
    }

    fn init_read_write(&self, rw: &mut ReadWrite) {
        self.0.init_read_write(rw);
        self.1.init_read_write(rw);
        proof {
            assert(rw.withouts@ =~= old(rw).withouts@ + (self.0.withouts() + self.1.withouts()));
            assert(rw.listeners@ =~= old(rw).listeners@ + (self.0.listens() + self.1.listens()));
        }
        self.2.init_read_write(rw);
        proof {
            assert(rw.withouts@ =~= old(rw).withouts@ + (self.0.withouts() + self.1.withouts() + self.2.withouts()));
            assert(rw.listeners@ =~= old(rw).listeners@ + (self.0.listens() + self.1.listens() + self.2.listens()));
        }
        self.3.init_read_write(rw);
        proof {
            assert(rw.withouts@ =~= old(rw).withouts@ + (self.0.withouts() + self.1.withouts() + self.2.withouts() + self.3.withouts()));
            assert(rw.listeners@ =~= old(rw).listeners@ + (self.0.listens() + self.1.listens() + self.2.listens() + self.3.listens()));
        }
        self.4.init_read_write(rw);
        proof {
            assert(rw.withouts@ =~= old(rw).withouts@ + (self.0.withouts() + self.1.withouts() + self.2.withouts() + self.3.withouts() + self.4.withouts()));
            assert(rw.listeners@ =~= old(rw).listeners@ + (self.0.listens() + self.1.listens() + self.2.listens() + self.3.listens() + self.4.listens()));
        }
        self.5.init_read_write(rw);
        proof {
            assert(rw.withouts@ =~= old(rw).withouts@ + (self.0.withouts() + self.1.withouts() + self.2.withouts() + self.3.withouts() + self.4.withouts() + self.5.withouts()));
            assert(rw.listeners@ =~= old(rw).listeners@ + (self.0.listens() + self.1.listens() + self.2.listens() + self.3.listens() + self.4.listens() + self.5.listens()));
        }
    }

    fn rejection(&self) -> (r: Reject) {
        let r0 = self.0.rejection();
        let x1 = self.1.rejection();
        let ghost g0 = r0;
        let ghost h1 = x1;
        let r1 = Reject::Either(Box::new(r0), Box::new(x1));
        proof {
            assert forall|columns: Seq<ComponentInfo>| #[trigger]
                r1.holds(columns) == (self.0.rejects(columns) || self.1.rejects(columns)) by {
                assert(r1.holds(columns) == (g0.holds(columns) || h1.holds(columns)));
            }
        }
        let x2 = self.2.rejection();
        let ghost g1 = r1;
        let ghost h2 = x2;
        let r2 = Reject::Either(Box::new(r1), Box::new(x2));
        proof {
            assert forall|columns: Seq<ComponentInfo>| #[trigger]
                r2.holds(columns) == (self.0.rejects(columns) || self.1.rejects(columns) || self.2.rejects(columns)) by {
                assert(r2.holds(columns) == (g1.holds(columns) || h2.holds(columns)));
            }
        }
        let x3 = self.3.rejection();
        let ghost g2 = r2;
        let ghost h3 = x3;
        let r3 = Reject::Either(Box::new(r2), Box::new(x3));
        proof {
            assert forall|columns: Seq<ComponentInfo>| #[trigger]
                r3.holds(columns) == (self.0.rejects(columns) || self.1.rejects(columns) || self.2.rejects(columns) || self.3.rejects(columns)) by {
                assert(r3.holds(columns) == (g2.holds(columns) || h3.holds(columns)));
            }
        }
        let x4 = self.4.rejection();
        let ghost g3 = r3;
        let ghost h4 = x4;
        let r4 = Reject::Either(Box::new(r3), Box::new(x4));
        proof {
            assert forall|columns: Seq<ComponentInfo>| #[trigger]
                r4.holds(columns) == (self.0.rejects(columns) || self.1.rejects(columns) || self.2.rejects(columns) || self.3.rejects(columns) || self.4.rejects(columns)) by {
                assert(r4.holds(columns) == (g3.holds(columns) || h4.holds(columns)));
            }
        }
        let x5 = self.5.rejection();
        let ghost g4 = r4;
        let ghost h5 = x5;
        let r5 = Reject::Either(Box::new(r4), Box::new(x5));
        proof {
            assert forall|columns: Seq<ComponentInfo>| #[trigger]
                r5.holds(columns) == (self.0.rejects(columns) || self.1.rejects(columns) || self.2.rejects(columns) || self.3.rejects(columns) || self.4.rejects(columns) || self.5.rejects(columns)) by {
                assert(r5.holds(columns) == (g4.holds(columns) || h5.holds(columns)));
            }
        }
        r5
    }

    fn archetype_filter(&self, archetype: &Archetype) -> (r: bool) {
        if self.0.archetype_filter(archetype) {
            return true;
        }
        if self.1.archetype_filter(archetype) {
            return true;
        }
        if self.2.archetype_filter(archetype) {
            return true;
        }
        if self.3.archetype_filter(archetype) {
            return true;
        }
        if self.4.archetype_filter(archetype) {
            return true;
        }
        self.5.archetype_filter(archetype)
    }
}

/// 6 conditions under an `Or` fail together only: one that holds is
/// enough.
impl<A: FilterArchetype, B: FilterArchetype, C: FilterArchetype, D: FilterArchetype, E: FilterArchetype, F: FilterArchetype> FilterArchetype for (A, B, C, D, E, F) {
    open spec fn lacks(&self, columns: Seq<ComponentInfo>) -> bool {
        self.0.lacks(columns)
            && self.1.lacks(columns)
            && self.2.lacks(columns)
            && self.3.lacks(columns)
            && self.4.lacks(columns)
            && self.5.lacks(columns)
    }

    fn lack_rule(&self) -> (r: Reject) {
        let r0 = self.0.lack_rule();
        let x1 = self.1.lack_rule();
        let ghost g0 = r0;
        let ghost h1 = x1;
        let r1 = Reject::Both(Box::new(r0), Box::new(x1));
        proof {
            assert forall|columns: Seq<ComponentInfo>| #[trigger]
                r1.holds(columns) == (self.0.lacks(columns) && self.1.lacks(columns)) by {
                assert(r1.holds(columns) == (g0.holds(columns) && h1.holds(columns)));
            }
        }
        let x2 = self.2.lack_rule();
        let ghost g1 = r1;
        let ghost h2 = x2;
        let r2 = Reject::Both(Box::new(r1), Box::new(x2));
        proof {
            assert forall|columns: Seq<ComponentInfo>| #[trigger]
                r2.holds(columns) == (self.0.lacks(columns) && self.1.lacks(columns) && self.2.lacks(columns)) by {
                assert(r2.holds(columns) == (g1.holds(columns) && h2.holds(columns)));
            }
        }
        let x3 = self.3.lack_rule();
        let ghost g2 = r2;
        let ghost h3 = x3;
        let r3 = Reject::Both(Box::new(r2), Box::new(x3));
        proof {
            assert forall|columns: Seq<ComponentInfo>| #[trigger]
                r3.holds(columns) == (self.0.lacks(columns) && self.1.lacks(columns) && self.2.lacks(columns) && self.3.lacks(columns)) by {
                assert(r3.holds(columns) == (g2.holds(columns) && h3.holds(columns)));
            }
        }
        let x4 = self.4.lack_rule();
        let ghost g3 = r3;
        let ghost h4 = x4;
        let r4 = Reject::Both(Box::new(r3), Box::new(x4));
        proof {
            assert forall|columns: Seq<ComponentInfo>| #[trigger]
                r4.holds(columns) == (self.0.lacks(columns) && self.1.lacks(columns) && self.2.lacks(columns) && self.3.lacks(columns) && self.4.lacks(columns)) by {
                assert(r4.holds(columns) == (g3.holds(columns) && h4.holds(columns)));
            }
        }
        let x5 = self.5.lack_rule();
        let ghost g4 = r4;
        let ghost h5 = x5;
        let r5 = Reject::Both(Box::new(r4), Box::new(x5));
        proof {
            assert forall|columns: Seq<ComponentInfo>| #[trigger]
                r5.holds(columns) == (self.0.lacks(columns) && self.1.lacks(columns) && self.2.lacks(columns) && self.3.lacks(columns) && self.4.lacks(columns) && self.5.lacks(columns)) by {
                assert(r5.holds(columns) == (g4.holds(columns) && h5.holds(columns)));
            }
        }
        r5
    }

    fn filter_archetype(&self, archetype: &Archetype) -> (r: bool) {
        if !self.0.filter_archetype(archetype) {
            return false;
        }
        if !self.1.filter_archetype(archetype) {
            return false;
        }
        if !self.2.filter_archetype(archetype) {
            return false;
        }
        if !self.3.filter_archetype(archetype) {
            return false;
        }
        if !self.4.filter_archetype(archetype) {
            return false;
        }
        if !self.5.filter_archetype(archetype) {
            return false;
        }
        true
    }
}

/// 7 filters together reject what one of them rejects, and listen on
/// what any of them listens on.
impl<A: FilterComponents, B: FilterComponents, C: FilterComponents, D: FilterComponents, E: FilterComponents, F: FilterComponents, G: FilterComponents> FilterComponents for (A, B, C, D, E, F, G) {
    open spec fn rejects(&self, columns: Seq<ComponentInfo>) -> bool {
        self.0.rejects(columns)
            || self.1.rejects(columns)
            || self.2.rejects(columns)
            || self.3.rejects(columns)
            || self.4.rejects(columns)
            || self.5.rejects(columns)
            || self.6.rejects(columns)
    }

    open spec fn withouts(&self) -> Seq<ComponentIndex> {
        self.0.withouts()
            + self.1.withouts()
            + self.2.withouts()
            + self.3.withouts()
            + self.4.withouts()
            + self.5.withouts()
            + self.6.withouts()
    }

    open spec fn listens(&self) -> Seq<(ComponentIndex, bool)> {
        self.0.listens()
            + self.1.listens()
            + self.2.listens()
            + self.3.listens()
            + self.4.listens()
            + self.5.listens()
            + self.6.listens()
    }

    fn init_read_write(&self, rw: &mut ReadWrite) {
        self.0.init_read_write(rw);
        self.1.init_read_write(rw);
        proof {
            assert(rw.withouts@ =~= old(rw).withouts@ + (self.0.withouts() + self.1.withouts()));
            assert(rw.listeners@ =~= old(rw).listeners@ + (self.0.listens() + self.1.listens()));
        }
        self.2.init_read_write(rw);
        proof {
            assert(rw.withouts@ =~= old(rw).withouts@ + (self.0.withouts() + self.1.withouts() + self.2.withouts()));
            assert(rw.listeners@ =~= old(rw).listeners@ + (self.0.listens() + self.1.listens() + self.2.listens()));
        }
        self.3.init_read_write(rw);
        proof {
            assert(rw.withouts@ =~= old(rw).withouts@ + (self.0.withouts() + self.1.withouts() + self.2.withouts() + self.3.withouts()));
            assert(rw.listeners@ =~= old(rw).listeners@ + (self.0.listens() + self.1.listens() + self.2.listens() + self.3.listens()));
        }
        self.4.init_read_write(rw);
        proof {
            assert(rw.withouts@ =~= old(rw).withouts@ + (self.0.withouts() + self.1.withouts() + self.2.withouts() + self.3.withouts() + self.4.withouts()));
            assert(rw.listeners@ =~= old(rw).listeners@ + (self.0.listens() + self.1.listens() + self.2.listens() + self.3.listens() + self.4.listens()));
        }
        self.5.init_read_write(rw);
        proof {
            assert(rw.withouts@ =~= old(rw).withouts@ + (self.0.withouts() + self.1.withouts() + self.2.withouts() + self.3.withouts() + self.4.withouts() + self.5.withouts()));
            assert(rw.listeners@ =~= old(rw).listeners@ + (self.0.listens() + self.1.listens() + self.2.listens() + self.3.listens() + self.4.listens() + self.5.listens()));
        }
        self.6.init_read_write(rw);
        proof {
            assert(rw.withouts@ =~= old(rw).withouts@ + (self.0.withouts() + self.1.withouts() + self.2.withouts() + self.3.withouts() + self.4.withouts() + self.5.withouts() + self.6.withouts()));
            assert(rw.listeners@ =~= old(rw).listeners@ + (self.0.listens() + self.1.listens() + self.2.listens() + self.3.listens() + self.4.listens() + self.5.listens() + self.6.listens()));
        }
    }

    fn rejection(&self) -> (r: Reject) {
        let r0 = self.0.rejection();
        let x1 = self.1.rejection();
        let ghost g0 = r0;
        let ghost h1 = x1;
        let r1 = Reject::Either(Box::new(r0), Box::new(x1));
        proof {
            assert forall|columns: Seq<ComponentInfo>| #[trigger]
                r1.holds(columns) == (self.0.rejects(columns) || self.1.rejects(columns)) by {
                assert(r1.holds(columns) == (g0.holds(columns) || h1.holds(columns)));
            }
        }
        let x2 = self.2.rejection();
        let ghost g1 = r1;
        let ghost h2 = x2;
        let r2 = Reject::Either(Box::new(r1), Box::new(x2));
        proof {
            assert forall|columns: Seq<ComponentInfo>| #[trigger]
                r2.holds(columns) == (self.0.rejects(columns) || self.1.rejects(columns) || self.2.rejects(columns)) by {
                assert(r2.holds(columns) == (g1.holds(columns) || h2.holds(columns)));
            }
        }
        let x3 = self.3.rejection();
        let ghost g2 = r2;
        let ghost h3 = x3;
        let r3 = Reject::Either(Box::new(r2), Box::new(x3));
        proof {
            assert forall|columns: Seq<ComponentInfo>| #[trigger]
                r3.holds(columns) == (self.0.rejects(columns) || self.1.rejects(columns) || self.2.rejects(columns) || self.3.rejects(columns)) by {
                assert(r3.holds(columns) == (g2.holds(columns) || h3.holds(columns)));
            }
        }
        let x4 = self.4.rejection();
        let ghost g3 = r3;
        let ghost h4 = x4;
        let r4 = Reject::Either(Box::new(r3), Box::new(x4));
        proof {
            assert forall|columns: Seq<ComponentInfo>| #[trigger]
                r4.holds(columns) == (self.0.rejects(columns) || self.1.rejects(columns) || self.2.rejects(columns) || self.3.rejects(columns) || self.4.rejects(columns)) by {
                assert(r4.holds(columns) == (g3.holds(columns) || h4.holds(columns)));
            }
        }
        let x5 = self.5.rejection();
        let ghost g4 = r4;
        let ghost h5 = x5;
        let r5 = Reject::Either(Box::new(r4), Box::new(x5));
        proof {
            assert forall|columns: Seq<ComponentInfo>| #[trigger]
                r5.holds(columns) == (self.0.rejects(columns) || self.1.rejects(columns) || self.2.rejects(columns) || self.3.rejects(columns) || self.4.rejects(columns) || self.5.rejects(columns)) by {
                assert(r5.holds(columns) == (g4.holds(columns) || h5.holds(columns)));
            }
        }
        let x6 = self.6.rejection();
        let ghost g5 = r5;
        let ghost h6 = x6;
        let r6 = Reject::Either(Box::new(r5), Box::new(x6));
        proof {
            assert forall|columns: Seq<ComponentInfo>| #[trigger]
                r6.holds(columns) == (self.0.rejects(columns) || self.1.rejects(columns) || self.2.rejects(columns) || self.3.rejects(columns) || self.4.rejects(columns) || self.5.rejects(columns) || self.6.rejects(columns)) by {
                assert(r6.holds(columns) == (g5.holds(columns) || h6.holds(columns)));
            }
        }
        r6
    }

    fn archetype_filter(&self, archetype: &Archetype) -> (r: bool) {
        if self.0.archetype_filter(archetype) {
            return true;
        }
        if self.1.archetype_filter(archetype) {
            return true;
        }
        if self.2.archetype_filter(archetype) {
            return true;
        }
        if self.3.archetype_filter(archetype) {
            return true;
        }
        if self.4.archetype_filter(archetype) {
            return true;
        }
        if self.5.archetype_filter(archetype) {
            return true;
        }
        self.6.archetype_filter(archetype)
    }
}

/// 7 conditions under an `Or` fail together only: one that holds is
/// enough.
impl<A: FilterArchetype, B: FilterArchetype, C: FilterArchetype, D: FilterArchetype, E: FilterArchetype, F: FilterArchetype, G: FilterArchetype> FilterArchetype for (A, B, C, D, E, F, G) {
    open spec fn lacks(&self, columns: Seq<ComponentInfo>) -> bool {
        self.0.lacks(columns)
            && self.1.lacks(columns)
            && self.2.lacks(columns)
            && self.3.lacks(columns)
            && self.4.lacks(columns)
            && self.5.lacks(columns)
            && self.6.lacks(columns)
    }

    fn lack_rule(&self) -> (r: Reject) {
        let r0 = self.0.lack_rule();
        let x1 = self.1.lack_rule();
        let ghost g0 = r0;
        let ghost h1 = x1;
        let r1 = Reject::Both(Box::new(r0), Box::new(x1));
        proof {
            assert forall|columns: Seq<ComponentInfo>| #[trigger]
                r1.holds(columns) == (self.0.lacks(columns) && self.1.lacks(columns)) by {
                assert(r1.holds(columns) == (g0.holds(columns) && h1.holds(columns)));
            }
        }
        let x2 = self.2.lack_rule();
        let ghost g1 = r1;
        let ghost h2 = x2;
        let r2 = Reject::Both(Box::new(r1), Box::new(x2));
        proof {
            assert forall|columns: Seq<ComponentInfo>| #[trigger]
                r2.holds(columns) == (self.0.lacks(columns) && self.1.lacks(columns) && self.2.lacks(columns)) by {
                assert(r2.holds(columns) == (g1.holds(columns) && h2.holds(columns)));
            }
        }
        let x3 = self.3.lack_rule();
        let ghost g2 = r2;
        let ghost h3 = x3;
        let r3 = Reject::Both(Box::new(r2), Box::new(x3));
        proof {
            assert forall|columns: Seq<ComponentInfo>| #[trigger]
                r3.holds(columns) == (self.0.lacks(columns) && self.1.lacks(columns) && self.2.lacks(columns) && self.3.lacks(columns)) by {
                assert(r3.holds(columns) == (g2.holds(columns) && h3.holds(columns)));
            }
        }
        let x4 = self.4.lack_rule();
        let ghost g3 = r3;
        let ghost h4 = x4;
        let r4 = Reject::Both(Box::new(r3), Box::new(x4));
        proof {
            assert forall|columns: Seq<ComponentInfo>| #[trigger]
                r4.holds(columns) == (self.0.lacks(columns) && self.1.lacks(columns) && self.2.lacks(columns) && self.3.lacks(columns) && self.4.lacks(columns)) by {
                assert(r4.holds(columns) == (g3.holds(columns) && h4.holds(columns)));
            }
        }
        let x5 = self.5.lack_rule();
        let ghost g4 = r4;
        let ghost h5 = x5;
        let r5 = Reject::Both(Box::new(r4), Box::new(x5));
        proof {
            assert forall|columns: Seq<ComponentInfo>| #[trigger]
                r5.holds(columns) == (self.0.lacks(columns) && self.1.lacks(columns) && self.2.lacks(columns) && self.3.lacks(columns) && self.4.lacks(columns) && self.5.lacks(columns)) by {
                assert(r5.holds(columns) == (g4.holds(columns) && h5.holds(columns)));
            }
        }
        let x6 = self.6.lack_rule();
        let ghost g5 = r5;
        let ghost h6 = x6;
        let r6 = Reject::Both(Box::new(r5), Box::new(x6));
        proof {
            assert forall|columns: Seq<ComponentInfo>| #[trigger]
                r6.holds(columns) == (self.0.lacks(columns) && self.1.lacks(columns) && self.2.lacks(columns) && self.3.lacks(columns) && self.4.lacks(columns) && self.5.lacks(columns) && self.6.lacks(columns)) by {
                assert(r6.holds(columns) == (g5.holds(columns) && h6.holds(columns)));
            }
        }
        r6
    }

    fn filter_archetype(&self, archetype: &Archetype) -> (r: bool) {
        if !self.0.filter_archetype(archetype) {
            return false;
        }
        if !self.1.filter_archetype(archetype) {
            return false;
        }
        if !self.2.filter_archetype(archetype) {
            return false;
        }
        if !self.3.filter_archetype(archetype) {
            return false;
        }
        if !self.4.filter_archetype(archetype) {
            return false;
        }
        if !self.5.filter_archetype(archetype) {
            return false;
        }
        if !self.6.filter_archetype(archetype) {
            return false;
        }
        true
    }
}

/// 8 filters together reject what one of them rejects, and listen on
/// what any of them listens on.
impl<A: FilterComponents, B: FilterComponents, C: FilterComponents, D: FilterComponents, E: FilterComponents, F: FilterComponents, G: FilterComponents, H: FilterComponents> FilterComponents for (A, B, C, D, E, F, G, H) {
    open spec fn rejects(&self, columns: Seq<ComponentInfo>) -> bool {
        self.0.rejects(columns)
            || self.1.rejects(columns)
            || self.2.rejects(columns)
            || self.3.rejects(columns)
            || self.4.rejects(columns)
            || self.5.rejects(columns)
            || self.6.rejects(columns)
            || self.7.rejects(columns)
    }

    open spec fn withouts(&self) -> Seq<ComponentIndex> {
        self.0.withouts()
            + self.1.withouts()
            + self.2.withouts()
            + self.3.withouts()
            + self.4.withouts()
            + self.5.withouts()
            + self.6.withouts()
            + self.7.withouts()
    }

    open spec fn listens(&self) -> Seq<(ComponentIndex, bool)> {
        self.0.listens()
            + self.1.listens()
            + self.2.listens()
            + self.3.listens()
            + self.4.listens()
            + self.5.listens()
            + self.6.listens()
            + self.7.listens()
    }

    fn init_read_write(&self, rw: &mut ReadWrite) {
        self.0.init_read_write(rw);
        self.1.init_read_write(rw);
        proof {
            assert(rw.withouts@ =~= old(rw).withouts@ + (self.0.withouts() + self.1.withouts()));
            assert(rw.listeners@ =~= old(rw).listeners@ + (self.0.listens() + self.1.listens()));
        }
        self.2.init_read_write(rw);
        proof {
            assert(rw.withouts@ =~= old(rw).withouts@ + (self.0.withouts() + self.1.withouts() + self.2.withouts()));
            assert(rw.listeners@ =~= old(rw).listeners@ + (self.0.listens() + self.1.listens() + self.2.listens()));
        }
        self.3.init_read_write(rw);
        proof {
            assert(rw.withouts@ =~= old(rw).withouts@ + (self.0.withouts() + self.1.withouts() + self.2.withouts() + self.3.withouts()));
            assert(rw.listeners@ =~= old(rw).listeners@ + (self.0.listens() + self.1.listens() + self.2.listens() + self.3.listens()));
        }
        self.4.init_read_write(rw);
        proof {
            assert(rw.withouts@ =~= old(rw).withouts@ + (self.0.withouts() + self.1.withouts() + self.2.withouts() + self.3.withouts() + self.4.withouts()));
            assert(rw.listeners@ =~= old(rw).listeners@ + (self.0.listens() + self.1.listens() + self.2.listens() + self.3.listens() + self.4.listens()));
        }
        self.5.init_read_write(rw);
        proof {
            assert(rw.withouts@ =~= old(rw).withouts@ + (self.0.withouts() + self.1.withouts() + self.2.withouts() + self.3.withouts() + self.4.withouts() + self.5.withouts()));
            assert(rw.listeners@ =~= old(rw).listeners@ + (self.0.listens() + self.1.listens() + self.2.listens() + self.3.listens() + self.4.listens() + self.5.listens()));
        }
        self.6.init_read_write(rw);
        proof {
            assert(rw.withouts@ =~= old(rw).withouts@ + (self.0.withouts() + self.1.withouts() + self.2.withouts() + self.3.withouts() + self.4.withouts() + self.5.withouts() + self.6.withouts()));
            assert(rw.listeners@ =~= old(rw).listeners@ + (self.0.listens() + self.1.listens() + self.2.listens() + self.3.listens() + self.4.listens() + self.5.listens() + self.6.listens()));
        }
        self.7.init_read_write(rw);
        proof {
            assert(rw.withouts@ =~= old(rw).withouts@ + (self.0.withouts() + self.1.withouts() + self.2.withouts() + self.3.withouts() + self.4.withouts() + self.5.withouts() + self.6.withouts() + self.7.withouts()));
            assert(rw.listeners@ =~= old(rw).listeners@ + (self.0.listens() + self.1.listens() + self.2.listens() + self.3.listens() + self.4.listens() + self.5.listens() + self.6.listens() + self.7.listens()));
        }
    }

    fn rejection(&self) -> (r: Reject) {
        let r0 = self.0.rejection();
        let x1 = self.1.rejection();
        let ghost g0 = r0;
        let ghost h1 = x1;
        let r1 = Reject::Either(Box::new(r0), Box::new(x1));
        proof {
            assert forall|columns: Seq<ComponentInfo>| #[trigger]
                r1.holds(columns) == (self.0.rejects(columns) || self.1.rejects(columns)) by {
                assert(r1.holds(columns) == (g0.holds(columns) || h1.holds(columns)));
            }
        }
        let x2 = self.2.rejection();
        let ghost g1 = r1;
        let ghost h2 = x2;
        let r2 = Reject::Either(Box::new(r1), Box::new(x2));
        proof {
            assert forall|columns: Seq<ComponentInfo>| #[trigger]
                r2.holds(columns) == (self.0.rejects(columns) || self.1.rejects(columns) || self.2.rejects(columns)) by {
                assert(r2.holds(columns) == (g1.holds(columns) || h2.holds(columns)));
            }
        }
        let x3 = self.3.rejection();
        let ghost g2 = r2;
        let ghost h3 = x3;
        let r3 = Reject::Either(Box::new(r2), Box::new(x3));
        proof {
            assert forall|columns: Seq<ComponentInfo>| #[trigger]
                r3.holds(columns) == (self.0.rejects(columns) || self.1.rejects(columns) || self.2.rejects(columns) || self.3.rejects(columns)) by {
                assert(r3.holds(columns) == (g2.holds(columns) || h3.holds(columns)));
            }
        }
        let x4 = self.4.rejection();
        let ghost g3 = r3;
        let ghost h4 = x4;
        let r4 = Reject::Either(Box::new(r3), Box::new(x4));
        proof {
            assert forall|columns: Seq<ComponentInfo>| #[trigger]
                r4.holds(columns) == (self.0.rejects(columns) || self.1.rejects(columns) || self.2.rejects(columns) || self.3.rejects(columns) || self.4.rejects(columns)) by {
                assert(r4.holds(columns) == (g3.holds(columns) || h4.holds(columns)));
            }
        }
        let x5 = self.5.rejection();
        let ghost g4 = r4;
        let ghost h5 = x5;
        let r5 = Reject::Either(Box::new(r4), Box::new(x5));
        proof {
            assert forall|columns: Seq<ComponentInfo>| #[trigger]
                r5.holds(columns) == (self.0.rejects(columns) || self.1.rejects(columns) || self.2.rejects(columns) || self.3.rejects(columns) || self.4.rejects(columns) || self.5.rejects(columns)) by {
                assert(r5.holds(columns) == (g4.holds(columns) || h5.holds(columns)));
            }
        }
        let x6 = self.6.rejection();
        let ghost g5 = r5;
        let ghost h6 = x6;
        let r6 = Reject::Either(Box::new(r5), Box::new(x6));
        proof {
            assert forall|columns: Seq<ComponentInfo>| #[trigger]
                r6.holds(columns) == (self.0.rejects(columns) || self.1.rejects(columns) || self.2.rejects(columns) || self.3.rejects(columns) || self.4.rejects(columns) || self.5.rejects(columns) || self.6.rejects(columns)) by {
                assert(r6.holds(columns) == (g5.holds(columns) || h6.holds(columns)));
            }
        }
        let x7 = self.7.rejection();
        let ghost g6 = r6;
        let ghost h7 = x7;
        let r7 = Reject::Either(Box::new(r6), Box::new(x7));
        proof {
            assert forall|columns: Seq<ComponentInfo>| #[trigger]
                r7.holds(columns) == (self.0.rejects(columns) || self.1.rejects(columns) || self.2.rejects(columns) || self.3.rejects(columns) || self.4.rejects(columns) || self.5.rejects(columns) || self.6.rejects(columns) || self.7.rejects(columns)) by {
                assert(r7.holds(columns) == (g6.holds(columns) || h7.holds(columns)));
            }
        }
        r7
    }

    fn archetype_filter(&self, archetype: &Archetype) -> (r: bool) {
        if self.0.archetype_filter(archetype) {
            return true;
        }
        if self.1.archetype_filter(archetype) {
            return true;
        }
        if self.2.archetype_filter(archetype) {
            return true;
        }
        if self.3.archetype_filter(archetype) {
            return true;
        }
        if self.4.archetype_filter(archetype) {
            return true;
        }
        if self.5.archetype_filter(archetype) {
            return true;
        }
        if self.6.archetype_filter(archetype) {
            return true;
        }
        self.7.archetype_filter(archetype)
    }
}

/// 8 conditions under an `Or` fail together only: one that holds is
/// enough.
impl<A: FilterArchetype, B: FilterArchetype, C: FilterArchetype, D: FilterArchetype, E: FilterArchetype, F: FilterArchetype, G: FilterArchetype, H: FilterArchetype> FilterArchetype for (A, B, C, D, E, F, G, H) {
    open spec fn lacks(&self, columns: Seq<ComponentInfo>) -> bool {
        self.0.lacks(columns)
            && self.1.lacks(columns)
            && self.2.lacks(columns)
            && self.3.lacks(columns)
            && self.4.lacks(columns)
            && self.5.lacks(columns)
            && self.6.lacks(columns)
            && self.7.lacks(columns)
    }

    fn lack_rule(&self) -> (r: Reject) {
        let r0 = self.0.lack_rule();
        let x1 = self.1.lack_rule();
        let ghost g0 = r0;
        let ghost h1 = x1;
        let r1 = Reject::Both(Box::new(r0), Box::new(x1));
        proof {
            assert forall|columns: Seq<ComponentInfo>| #[trigger]
                r1.holds(columns) == (self.0.lacks(columns) && self.1.lacks(columns)) by {
                assert(r1.holds(columns) == (g0.holds(columns) && h1.holds(columns)));
            }
        }
        let x2 = self.2.lack_rule();
        let ghost g1 = r1;
        let ghost h2 = x2;
        let r2 = Reject::Both(Box::new(r1), Box::new(x2));
        proof {
            assert forall|columns: Seq<ComponentInfo>| #[trigger]
                r2.holds(columns) == (self.0.lacks(columns) && self.1.lacks(columns) && self.2.lacks(columns)) by {
                assert(r2.holds(columns) == (g1.holds(columns) && h2.holds(columns)));
            }
        }
        let x3 = self.3.lack_rule();
        let ghost g2 = r2;
        let ghost h3 = x3;
        let r3 = Reject::Both(Box::new(r2), Box::new(x3));
        proof {
            assert forall|columns: Seq<ComponentInfo>| #[trigger]
                r3.holds(columns) == (self.0.lacks(columns) && self.1.lacks(columns) && self.2.lacks(columns) && self.3.lacks(columns)) by {
                assert(r3.holds(columns) == (g2.holds(columns) && h3.holds(columns)));
            }
        }
        let x4 = self.4.lack_rule();
        let ghost g3 = r3;
        let ghost h4 = x4;
        let r4 = Reject::Both(Box::new(r3), Box::new(x4));
        proof {
            assert forall|columns: Seq<ComponentInfo>| #[trigger]
                r4.holds(columns) == (self.0.lacks(columns) && self.1.lacks(columns) && self.2.lacks(columns) && self.3.lacks(columns) && self.4.lacks(columns)) by {
                assert(r4.holds(columns) == (g3.holds(columns) && h4.holds(columns)));
            }
        }
        let x5 = self.5.lack_rule();
        let ghost g4 = r4;
        let ghost h5 = x5;
        let r5 = Reject::Both(Box::new(r4), Box::new(x5));
        proof {
            assert forall|columns: Seq<ComponentInfo>| #[trigger]
                r5.holds(columns) == (self.0.lacks(columns) && self.1.lacks(columns) && self.2.lacks(columns) && self.3.lacks(columns) && self.4.lacks(columns) && self.5.lacks(columns)) by {
                assert(r5.holds(columns) == (g4.holds(columns) && h5.holds(columns)));
            }
        }
        let x6 = self.6.lack_rule();
        let ghost g5 = r5;
        let ghost h6 = x6;
        let r6 = Reject::Both(Box::new(r5), Box::new(x6));
        proof {
            assert forall|columns: Seq<ComponentInfo>| #[trigger]
                r6.holds(columns) == (self.0.lacks(columns) && self.1.lacks(columns) && self.2.lacks(columns) && self.3.lacks(columns) && self.4.lacks(columns) && self.5.lacks(columns) && self.6.lacks(columns)) by {
                assert(r6.holds(columns) == (g5.holds(columns) && h6.holds(columns)));
            }
        }
        let x7 = self.7.lack_rule();
        let ghost g6 = r6;
        let ghost h7 = x7;
        let r7 = Reject::Both(Box::new(r6), Box::new(x7));
        proof {
            assert forall|columns: Seq<ComponentInfo>| #[trigger]
                r7.holds(columns) == (self.0.lacks(columns) && self.1.lacks(columns) && self.2.lacks(columns) && self.3.lacks(columns) && self.4.lacks(columns) && self.5.lacks(columns) && self.6.lacks(columns) && self.7.lacks(columns)) by {
                assert(r7.holds(columns) == (g6.holds(columns) && h7.holds(columns)));
            }
        }
        r7
    }

    fn filter_archetype(&self, archetype: &Archetype) -> (r: bool) {
        if !self.0.filter_archetype(archetype) {
            return false;
        }
        if !self.1.filter_archetype(archetype) {
            return false;
        }
        if !self.2.filter_archetype(archetype) {
            return false;
        }
        if !self.3.filter_archetype(archetype) {
            return false;
        }
        if !self.4.filter_archetype(archetype) {
            return false;
        }
        if !self.5.filter_archetype(archetype) {
            return false;
        }
        if !self.6.filter_archetype(archetype) {
            return false;
        }
        if !self.7.filter_archetype(archetype) {
            return false;
        }
        true
    }
}

/// 9 filters together reject what one of them rejects, and listen on
/// what any of them listens on.
impl<A: FilterComponents, B: FilterComponents, C: FilterComponents, D: FilterComponents, E: FilterComponents, F: FilterComponents, G: FilterComponents, H: FilterComponents, I: FilterComponents> FilterComponents for (A, B, C, D, E, F, G, H, I) {
    open spec fn rejects(&self, columns: Seq<ComponentInfo>) -> bool {
        self.0.rejects(columns)
            || self.1.rejects(columns)
            || self.2.rejects(columns)
            || self.3.rejects(columns)
            || self.4.rejects(columns)
            || self.5.rejects(columns)
            || self.6.rejects(columns)
            || self.7.rejects(columns)
            || self.8.rejects(columns)
    }

    open spec fn withouts(&self) -> Seq<ComponentIndex> {
        self.0.withouts()
            + self.1.withouts()
            + self.2.withouts()
            + self.3.withouts()
            + self.4.withouts()
            + self.5.withouts()
            + self.6.withouts()
            + self.7.withouts()
            + self.8.withouts()
    }

    open spec fn listens(&self) -> Seq<(ComponentIndex, bool)> {
        self.0.listens()
            + self.1.listens()
            + self.2.listens()
            + self.3.listens()
            + self.4.listens()
            + self.5.listens()
            + self.6.listens()
            + self.7.listens()
            + self.8.listens()
    }

    fn init_read_write(&self, rw: &mut ReadWrite) {
        self.0.init_read_write(rw);
        self.1.init_read_write(rw);
        proof {
            assert(rw.withouts@ =~= old(rw).withouts@ + (self.0.withouts() + self.1.withouts()));
            assert(rw.listeners@ =~= old(rw).listeners@ + (self.0.listens() + self.1.listens()));
        }
        self.2.init_read_write(rw);
        proof {
            assert(rw.withouts@ =~= old(rw).withouts@ + (self.0.withouts() + self.1.withouts() + self.2.withouts()));
            assert(rw.listeners@ =~= old(rw).listeners@ + (self.0.listens() + self.1.listens() + self.2.listens()));
        }
        self.3.init_read_write(rw);
        proof {
            assert(rw.withouts@ =~= old(rw).withouts@ + (self.0.withouts() + self.1.withouts() + self.2.withouts() + self.3.withouts()));
            assert(rw.listeners@ =~= old(rw).listeners@ + (self.0.listens() + self.1.listens() + self.2.listens() + self.3.listens()));
        }
        self.4.init_read_write(rw);
        proof {
            assert(rw.withouts@ =~= old(rw).withouts@ + (self.0.withouts() + self.1.withouts() + self.2.withouts() + self.3.withouts() + self.4.withouts()));
            assert(rw.listeners@ =~= old(rw).listeners@ + (self.0.listens() + self.1.listens() + self.2.listens() + self.3.listens() + self.4.listens()));
        }
        self.5.init_read_write(rw);
        proof {
            assert(rw.withouts@ =~= old(rw).withouts@ + (self.0.withouts() + self.1.withouts() + self.2.withouts() + self.3.withouts() + self.4.withouts() + self.5.withouts()));
            assert(rw.listeners@ =~= old(rw).listeners@ + (self.0.listens() + self.1.listens() + self.2.listens() + self.3.listens() + self.4.listens() + self.5.listens()));
        }
        self.6.init_read_write(rw);
        proof {
            assert(rw.withouts@ =~= old(rw).withouts@ + (self.0.withouts() + self.1.withouts() + self.2.withouts() + self.3.withouts() + self.4.withouts() + self.5.withouts() + self.6.withouts()));
            assert(rw.listeners@ =~= old(rw).listeners@ + (self.0.listens() + self.1.listens() + self.2.listens() + self.3.listens() + self.4.listens() + self.5.listens() + self.6.listens()));
        }
        self.7.init_read_write(rw);
        proof {
            assert(rw.withouts@ =~= old(rw).withouts@ + (self.0.withouts() + self.1.withouts() + self.2.withouts() + self.3.withouts() + self.4.withouts() + self.5.withouts() + self.6.withouts() + self.7.withouts()));
            assert(rw.listeners@ =~= old(rw).listeners@ + (self.0.listens() + self.1.listens() + self.2.listens() + self.3.listens() + self.4.listens() + self.5.listens() + self.6.listens() + self.7.listens()));
        }
        self.8.init_read_write(rw);
        proof {
            assert(rw.withouts@ =~= old(rw).withouts@ + (self.0.withouts() + self.1.withouts() + self.2.withouts() + self.3.withouts() + self.4.withouts() + self.5.withouts() + self.6.withouts() + self.7.withouts() + self.8.withouts()));
            assert(rw.listeners@ =~= old(rw).listeners@ + (self.0.listens() + self.1.listens() + self.2.listens() + self.3.listens() + self.4.listens() + self.5.listens() + self.6.listens() + self.7.listens() + self.8.listens()));
        }
    }

    fn rejection(&self) -> (r: Reject) {
        let r0 = self.0.rejection();
        let x1 = self.1.rejection();
        let ghost g0 = r0;
        let ghost h1 = x1;
        let r1 = Reject::Either(Box::new(r0), Box::new(x1));
        proof {
            assert forall|columns: Seq<ComponentInfo>| #[trigger]
                r1.holds(columns) == (self.0.rejects(columns) || self.1.rejects(columns)) by {
                assert(r1.holds(columns) == (g0.holds(columns) || h1.holds(columns)));
            }
        }
        let x2 = self.2.rejection();
        let ghost g1 = r1;
        let ghost h2 = x2;
        let r2 = Reject::Either(Box::new(r1), Box::new(x2));
        proof {
            assert forall|columns: Seq<ComponentInfo>| #[trigger]
                r2.holds(columns) == (self.0.rejects(columns) || self.1.rejects(columns) || self.2.rejects(columns)) by {
                assert(r2.holds(columns) == (g1.holds(columns) || h2.holds(columns)));
            }
        }
        let x3 = self.3.rejection();
        let ghost g2 = r2;
        let ghost h3 = x3;
        let r3 = Reject::Either(Box::new(r2), Box::new(x3));
        proof {
            assert forall|columns: Seq<ComponentInfo>| #[trigger]
                r3.holds(columns) == (self.0.rejects(columns) || self.1.rejects(columns) || self.2.rejects(columns) || self.3.rejects(columns)) by {
                assert(r3.holds(columns) == (g2.holds(columns) || h3.holds(columns)));
            }
        }
        let x4 = self.4.rejection();
        let ghost g3 = r3;
        let ghost h4 = x4;
        let r4 = Reject::Either(Box::new(r3), Box::new(x4));
        proof {
            assert forall|columns: Seq<ComponentInfo>| #[trigger]
                r4.holds(columns) == (self.0.rejects(columns) || self.1.rejects(columns) || self.2.rejects(columns) || self.3.rejects(columns) || self.4.rejects(columns)) by {
                assert(r4.holds(columns) == (g3.holds(columns) || h4.holds(columns)));
            }
        }
        let x5 = self.5.rejection();
        let ghost g4 = r4;
        let ghost h5 = x5;
        let r5 = Reject::Either(Box::new(r4), Box::new(x5));
        proof {
            assert forall|columns: Seq<ComponentInfo>| #[trigger]
                r5.holds(columns) == (self.0.rejects(columns) || self.1.rejects(columns) || self.2.rejects(columns) || self.3.rejects(columns) || self.4.rejects(columns) || self.5.rejects(columns)) by {
                assert(r5.holds(columns) == (g4.holds(columns) || h5.holds(columns)));
            }
        }
        let x6 = self.6.rejection();
        let ghost g5 = r5;
        let ghost h6 = x6;
        let r6 = Reject::Either(Box::new(r5), Box::new(x6));
        proof {
            assert forall|columns: Seq<ComponentInfo>| #[trigger]
                r6.holds(columns) == (self.0.rejects(columns) || self.1.rejects(columns) || self.2.rejects(columns) || self.3.rejects(columns) || self.4.rejects(columns) || self.5.rejects(columns) || self.6.rejects(columns)) by {
                assert(r6.holds(columns) == (g5.holds(columns) || h6.holds(columns)));
            }
        }
        let x7 = self.7.rejection();
        let ghost g6 = r6;
        let ghost h7 = x7;
        let r7 = Reject::Either(Box::new(r6), Box::new(x7));
        proof {
            assert forall|columns: Seq<ComponentInfo>| #[trigger]
                r7.holds(columns) == (self.0.rejects(columns) || self.1.rejects(columns) || self.2.rejects(columns) || self.3.rejects(columns) || self.4.rejects(columns) || self.5.rejects(columns) || self.6.rejects(columns) || self.7.rejects(columns)) by {
                assert(r7.holds(columns) == (g6.holds(columns) || h7.holds(columns)));
            }
        }
        let x8 = self.8.rejection();
        let ghost g7 = r7;
        let ghost h8 = x8;
        let r8 = Reject::Either(Box::new(r7), Box::new(x8));
        proof {
            assert forall|columns: Seq<ComponentInfo>| #[trigger]
                r8.holds(columns) == (self.0.rejects(columns) || self.1.rejects(columns) || self.2.rejects(columns) || self.3.rejects(columns) || self.4.rejects(columns) || self.5.rejects(columns) || self.6.rejects(columns) || self.7.rejects(columns) || self.8.rejects(columns)) by {
                assert(r8.holds(columns) == (g7.holds(columns) || h8.holds(columns)));
            }
        }
        r8
    }

    fn archetype_filter(&self, archetype: &Archetype) -> (r: bool) {
        if self.0.archetype_filter(archetype) {
            return true;
        }
        if self.1.archetype_filter(archetype) {
            return true;
        }
        if self.2.archetype_filter(archetype) {
            return true;
        }
        if self.3.archetype_filter(archetype) {
            return true;
        }
        if self.4.archetype_filter(archetype) {
            return true;
        }
        if self.5.archetype_filter(archetype) {
            return true;
        }
        if self.6.archetype_filter(archetype) {
            return true;
        }
        if self.7.archetype_filter(archetype) {
            return true;
        }
        self.8.archetype_filter(archetype)
    }
}

/// 9 conditions under an `Or` fail together only: one that holds is
/// enough.
impl<A: FilterArchetype, B: FilterArchetype, C: FilterArchetype, D: FilterArchetype, E: FilterArchetype, F: FilterArchetype, G: FilterArchetype, H: FilterArchetype, I: FilterArchetype> FilterArchetype for (A, B, C, D, E, F, G, H, I) {
    open spec fn lacks(&self, columns: Seq<ComponentInfo>) -> bool {
        self.0.lacks(columns)
            && self.1.lacks(columns)
            && self.2.lacks(columns)
            && self.3.lacks(columns)
            && self.4.lacks(columns)
            && self.5.lacks(columns)
            && self.6.lacks(columns)
            && self.7.lacks(columns)
            && self.8.lacks(columns)
    }

    fn lack_rule(&self) -> (r: Reject) {
        let r0 = self.0.lack_rule();
        let x1 = self.1.lack_rule();
        let ghost g0 = r0;
        let ghost h1 = x1;
        let r1 = Reject::Both(Box::new(r0), Box::new(x1));
        proof {
            assert forall|columns: Seq<ComponentInfo>| #[trigger]
                r1.holds(columns) == (self.0.lacks(columns) && self.1.lacks(columns)) by {
                assert(r1.holds(columns) == (g0.holds(columns) && h1.holds(columns)));
            }
        }
        let x2 = self.2.lack_rule();
        let ghost g1 = r1;
        let ghost h2 = x2;
        let r2 = Reject::Both(Box::new(r1), Box::new(x2));
        proof {
            assert forall|columns: Seq<ComponentInfo>| #[trigger]
                r2.holds(columns) == (self.0.lacks(columns) && self.1.lacks(columns) && self.2.lacks(columns)) by {
                assert(r2.holds(columns) == (g1.holds(columns) && h2.holds(columns)));
            }
        }
        let x3 = self.3.lack_rule();
        let ghost g2 = r2;
        let ghost h3 = x3;
        let r3 = Reject::Both(Box::new(r2), Box::new(x3));
        proof {
            assert forall|columns: Seq<ComponentInfo>| #[trigger]
                r3.holds(columns) == (self.0.lacks(columns) && self.1.lacks(columns) && self.2.lacks(columns) && self.3.lacks(columns)) by {
                assert(r3.holds(columns) == (g2.holds(columns) && h3.holds(columns)));
            }
        }
        let x4 = self.4.lack_rule();
        let ghost g3 = r3;
        let ghost h4 = x4;
        let r4 = Reject::Both(Box::new(r3), Box::new(x4));
        proof {
            assert forall|columns: Seq<ComponentInfo>| #[trigger]
                r4.holds(columns) == (self.0.lacks(columns) && self.1.lacks(columns) && self.2.lacks(columns) && self.3.lacks(columns) && self.4.lacks(columns)) by {
                assert(r4.holds(columns) == (g3.holds(columns) && h4.holds(columns)));
            }
        }
        let x5 = self.5.lack_rule();
        let ghost g4 = r4;
        let ghost h5 = x5;
        let r5 = Reject::Both(Box::new(r4), Box::new(x5));
        proof {
            assert forall|columns: Seq<ComponentInfo>| #[trigger]
                r5.holds(columns) == (self.0.lacks(columns) && self.1.lacks(columns) && self.2.lacks(columns) && self.3.lacks(columns) && self.4.lacks(columns) && self.5.lacks(columns)) by {
                assert(r5.holds(columns) == (g4.holds(columns) && h5.holds(columns)));
            }
        }
        let x6 = self.6.lack_rule();
        let ghost g5 = r5;
        let ghost h6 = x6;
        let r6 = Reject::Both(Box::new(r5), Box::new(x6));
        proof {
            assert forall|columns: Seq<ComponentInfo>| #[trigger]
                r6.holds(columns) == (self.0.lacks(columns) && self.1.lacks(columns) && self.2.lacks(columns) && self.3.lacks(columns) && self.4.lacks(columns) && self.5.lacks(columns) && self.6.lacks(columns)) by {
                assert(r6.holds(columns) == (g5.holds(columns) && h6.holds(columns)));
            }
        }
        let x7 = self.7.lack_rule();
        let ghost g6 = r6;
        let ghost h7 = x7;
        let r7 = Reject::Both(Box::new(r6), Box::new(x7));
        proof {
            assert forall|columns: Seq<ComponentInfo>| #[trigger]
                r7.holds(columns) == (self.0.lacks(columns) && self.1.lacks(columns) && self.2.lacks(columns) && self.3.lacks(columns) && self.4.lacks(columns) && self.5.lacks(columns) && self.6.lacks(columns) && self.7.lacks(columns)) by {
                assert(r7.holds(columns) == (g6.holds(columns) && h7.holds(columns)));
            }
        }
        let x8 = self.8.lack_rule();
        let ghost g7 = r7;
        let ghost h8 = x8;
        let r8 = Reject::Both(Box::new(r7), Box::new(x8));
        proof {
            assert forall|columns: Seq<ComponentInfo>| #[trigger]
                r8.holds(columns) == (self.0.lacks(columns) && self.1.lacks(columns) && self.2.lacks(columns) && self.3.lacks(columns) && self.4.lacks(columns) && self.5.lacks(columns) && self.6.lacks(columns) && self.7.lacks(columns) && self.8.lacks(columns)) by {
                assert(r8.holds(columns) == (g7.holds(columns) && h8.holds(columns)));
            }
        }
        r8
    }

    fn filter_archetype(&self, archetype: &Archetype) -> (r: bool) {
        if !self.0.filter_archetype(archetype) {
            return false;
        }
        if !self.1.filter_archetype(archetype) {
            return false;
        }
        if !self.2.filter_archetype(archetype) {
            return false;
        }
        if !self.3.filter_archetype(archetype) {
            return false;
        }
        if !self.4.filter_archetype(archetype) {
            return false;
        }
        if !self.5.filter_archetype(archetype) {
            return false;
        }
        if !self.6.filter_archetype(archetype) {
            return false;
        }
        if !self.7.filter_archetype(archetype) {
            return false;
        }
        if !self.8.filter_archetype(archetype) {
            return false;
        }
        true
    }
}

/// 10 filters together reject what one of them rejects, and listen on
/// what any of them listens on.
impl<A: FilterComponents, B: FilterComponents, C: FilterComponents, D: FilterComponents, E: FilterComponents, F: FilterComponents, G: FilterComponents, H: FilterComponents, I: FilterComponents, J: FilterComponents> FilterComponents for (A, B, C, D, E, F, G, H, I, J) {
    open spec fn rejects(&self, columns: Seq<ComponentInfo>) -> bool {
        self.0.rejects(columns)
            || self.1.rejects(columns)
            || self.2.rejects(columns)
            || self.3.rejects(columns)
            || self.4.rejects(columns)
            || self.5.rejects(columns)
            || self.6.rejects(columns)
            || self.7.rejects(columns)
            || self.8.rejects(columns)
            || self.9.rejects(columns)
    }

    open spec fn withouts(&self) -> Seq<ComponentIndex> {
        self.0.withouts()
            + self.1.withouts()
            + self.2.withouts()
            + self.3.withouts()
            + self.4.withouts()
            + self.5.withouts()
            + self.6.withouts()
            + self.7.withouts()
            + self.8.withouts()
            + self.9.withouts()
    }

    open spec fn listens(&self) -> Seq<(ComponentIndex, bool)> {
        self.0.listens()
            + self.1.listens()
            + self.2.listens()
            + self.3.listens()
            + self.4.listens()
            + self.5.listens()
            + self.6.listens()
            + self.7.listens()
            + self.8.listens()
            + self.9.listens()
    }

    fn init_read_write(&self, rw: &mut ReadWrite) {
        self.0.init_read_write(rw);
        self.1.init_read_write(rw);
        proof {
            assert(rw.withouts@ =~= old(rw).withouts@ + (self.0.withouts() + self.1.withouts()));
            assert(rw.listeners@ =~= old(rw).listeners@ + (self.0.listens() + self.1.listens()));
        }
        self.2.init_read_write(rw);
        proof {
            assert(rw.withouts@ =~= old(rw).withouts@ + (self.0.withouts() + self.1.withouts() + self.2.withouts()));
            assert(rw.listeners@ =~= old(rw).listeners@ + (self.0.listens() + self.1.listens() + self.2.listens()));
        }
        self.3.init_read_write(rw);
        proof {
            assert(rw.withouts@ =~= old(rw).withouts@ + (self.0.withouts() + self.1.withouts() + self.2.withouts() + self.3.withouts()));
            assert(rw.listeners@ =~= old(rw).listeners@ + (self.0.listens() + self.1.listens() + self.2.listens() + self.3.listens()));
        }
        self.4.init_read_write(rw);
        proof {
            assert(rw.withouts@ =~= old(rw).withouts@ + (self.0.withouts() + self.1.withouts() + self.2.withouts() + self.3.withouts() + self.4.withouts()));
            assert(rw.listeners@ =~= old(rw).listeners@ + (self.0.listens() + self.1.listens() + self.2.listens() + self.3.listens() + self.4.listens()));
        }
        self.5.init_read_write(rw);
        proof {
            assert(rw.withouts@ =~= old(rw).withouts@ + (self.0.withouts() + self.1.withouts() + self.2.withouts() + self.3.withouts() + self.4.withouts() + self.5.withouts()));
            assert(rw.listeners@ =~= old(rw).listeners@ + (self.0.listens() + self.1.listens() + self.2.listens() + self.3.listens() + self.4.listens() + self.5.listens()));
        }
        self.6.init_read_write(rw);
        proof {
            assert(rw.withouts@ =~= old(rw).withouts@ + (self.0.withouts() + self.1.withouts() + self.2.withouts() + self.3.withouts() + self.4.withouts() + self.5.withouts() + self.6.withouts()));
            assert(rw.listeners@ =~= old(rw).listeners@ + (self.0.listens() + self.1.listens() + self.2.listens() + self.3.listens() + self.4.listens() + self.5.listens() + self.6.listens()));
        }
        self.7.init_read_write(rw);
        proof {
            assert(rw.withouts@ =~= old(rw).withouts@ + (self.0.withouts() + self.1.withouts() + self.2.withouts() + self.3.withouts() + self.4.withouts() + self.5.withouts() + self.6.withouts() + self.7.withouts()));
            assert(rw.listeners@ =~= old(rw).listeners@ + (self.0.listens() + self.1.listens() + self.2.listens() + self.3.listens() + self.4.listens() + self.5.listens() + self.6.listens() + self.7.listens()));
        }
        self.8.init_read_write(rw);
        proof {
            assert(rw.withouts@ =~= old(rw).withouts@ + (self.0.withouts() + self.1.withouts() + self.2.withouts() + self.3.withouts() + self.4.withouts() + self.5.withouts() + self.6.withouts() + self.7.withouts() + self.8.withouts()));
            assert(rw.listeners@ =~= old(rw).listeners@ + (self.0.listens() + self.1.listens() + self.2.listens() + self.3.listens() + self.4.listens() + self.5.listens() + self.6.listens() + self.7.listens() + self.8.listens()));
        }
        self.9.init_read_write(rw);
        proof {
            assert(rw.withouts@ =~= old(rw).withouts@ + (self.0.withouts() + self.1.withouts() + self.2.withouts() + self.3.withouts() + self.4.withouts() + self.5.withouts() + self.6.withouts() + self.7.withouts() + self.8.withouts() + self.9.withouts()));
            assert(rw.listeners@ =~= old(rw).listeners@ + (self.0.listens() + self.1.listens() + self.2.listens() + self.3.listens() + self.4.listens() + self.5.listens() + self.6.listens() + self.7.listens() + self.8.listens() + self.9.listens()));
        }
    }

    fn rejection(&self) -> (r: Reject) {
        let r0 = self.0.rejection();
        let x1 = self.1.rejection();
        let ghost g0 = r0;
        let ghost h1 = x1;
        let r1 = Reject::Either(Box::new(r0), Box::new(x1));
        proof {
            assert forall|columns: Seq<ComponentInfo>| #[trigger]
                r1.holds(columns) == (self.0.rejects(columns) || self.1.rejects(columns)) by {
                assert(r1.holds(columns) == (g0.holds(columns) || h1.holds(columns)));
            }
        }
        let x2 = self.2.rejection();
        let ghost g1 = r1;
        let ghost h2 = x2;
        let r2 = Reject::Either(Box::new(r1), Box::new(x2));
        proof {
            assert forall|columns: Seq<ComponentInfo>| #[trigger]
                r2.holds(columns) == (self.0.rejects(columns) || self.1.rejects(columns) || self.2.rejects(columns)) by {
                assert(r2.holds(columns) == (g1.holds(columns) || h2.holds(columns)));
            }
        }
        let x3 = self.3.rejection();
        let ghost g2 = r2;
        let ghost h3 = x3;
        let r3 = Reject::Either(Box::new(r2), Box::new(x3));
        proof {
            assert forall|columns: Seq<ComponentInfo>| #[trigger]
                r3.holds(columns) == (self.0.rejects(columns) || self.1.rejects(columns) || self.2.rejects(columns) || self.3.rejects(columns)) by {
                assert(r3.holds(columns) == (g2.holds(columns) || h3.holds(columns)));
            }
        }
        let x4 = self.4.rejection();
        let ghost g3 = r3;
        let ghost h4 = x4;
        let r4 = Reject::Either(Box::new(r3), Box::new(x4));
        proof {
            assert forall|columns: Seq<ComponentInfo>| #[trigger]
                r4.holds(columns) == (self.0.rejects(columns) || self.1.rejects(columns) || self.2.rejects(columns) || self.3.rejects(columns) || self.4.rejects(columns)) by {
                assert(r4.holds(columns) == (g3.holds(columns) || h4.holds(columns)));
            }
        }
        let x5 = self.5.rejection();
        let ghost g4 = r4;
        let ghost h5 = x5;
        let r5 = Reject::Either(Box::new(r4), Box::new(x5));
        proof {
            assert forall|columns: Seq<ComponentInfo>| #[trigger]
                r5.holds(columns) == (self.0.rejects(columns) || self.1.rejects(columns) || self.2.rejects(columns) || self.3.rejects(columns) || self.4.rejects(columns) || self.5.rejects(columns)) by {
                assert(r5.holds(columns) == (g4.holds(columns) || h5.holds(columns)));
            }
        }
        let x6 = self.6.rejection();
        let ghost g5 = r5;
        let ghost h6 = x6;
        let r6 = Reject::Either(Box::new(r5), Box::new(x6));
        proof {
            assert forall|columns: Seq<ComponentInfo>| #[trigger]
                r6.holds(columns) == (self.0.rejects(columns) || self.1.rejects(columns) || self.2.rejects(columns) || self.3.rejects(columns) || self.4.rejects(columns) || self.5.rejects(columns) || self.6.rejects(columns)) by {
                assert(r6.holds(columns) == (g5.holds(columns) || h6.holds(columns)));
            }
        }
        let x7 = self.7.rejection();
        let ghost g6 = r6;
        let ghost h7 = x7;
        let r7 = Reject::Either(Box::new(r6), Box::new(x7));
        proof {
            assert forall|columns: Seq<ComponentInfo>| #[trigger]
                r7.holds(columns) == (self.0.rejects(columns) || self.1.rejects(columns) || self.2.rejects(columns) || self.3.rejects(columns) || self.4.rejects(columns) || self.5.rejects(columns) || self.6.rejects(columns) || self.7.rejects(columns)) by {
                assert(r7.holds(columns) == (g6.holds(columns) || h7.holds(columns)));
            }
        }
        let x8 = self.8.rejection();
        let ghost g7 = r7;
        let ghost h8 = x8;
        let r8 = Reject::Either(Box::new(r7), Box::new(x8));
        proof {
            assert forall|columns: Seq<ComponentInfo>| #[trigger]
                r8.holds(columns) == (self.0.rejects(columns) || self.1.rejects(columns) || self.2.rejects(columns) || self.3.rejects(columns) || self.4.rejects(columns) || self.5.rejects(columns) || self.6.rejects(columns) || self.7.rejects(columns) || self.8.rejects(columns)) by {
                assert(r8.holds(columns) == (g7.holds(columns) || h8.holds(columns)));
            }
        }
        let x9 = self.9.rejection();
        let ghost g8 = r8;
        let ghost h9 = x9;
        let r9 = Reject::Either(Box::new(r8), Box::new(x9));
        proof {
            assert forall|columns: Seq<ComponentInfo>| #[trigger]
                r9.holds(columns) == (self.0.rejects(columns) || self.1.rejects(columns) || self.2.rejects(columns) || self.3.rejects(columns) || self.4.rejects(columns) || self.5.rejects(columns) || self.6.rejects(columns) || self.7.rejects(columns) || self.8.rejects(columns) || self.9.rejects(columns)) by {
                assert(r9.holds(columns) == (g8.holds(columns) || h9.holds(columns)));
            }
        }
        r9
    }

    fn archetype_filter(&self, archetype: &Archetype) -> (r: bool) {
        if self.0.archetype_filter(archetype) {
            return true;
        }
        if self.1.archetype_filter(archetype) {
            return true;
        }
        if self.2.archetype_filter(archetype) {
            return true;
        }
        if self.3.archetype_filter(archetype) {
            return true;
        }
        if self.4.archetype_filter(archetype) {
            return true;
        }
        if self.5.archetype_filter(archetype) {
            return true;
        }
        if self.6.archetype_filter(archetype) {
            return true;
        }
        if self.7.archetype_filter(archetype) {
            return true;
        }
        if self.8.archetype_filter(archetype) {
            return true;
        }
        self.9.archetype_filter(archetype)
    }
}

/// 10 conditions under an `Or` fail together only: one that holds is
/// enough.
impl<A: FilterArchetype, B: FilterArchetype, C: FilterArchetype, D: FilterArchetype, E: FilterArchetype, F: FilterArchetype, G: FilterArchetype, H: FilterArchetype, I: FilterArchetype, J: FilterArchetype> FilterArchetype for (A, B, C, D, E, F, G, H, I, J) {
    open spec fn lacks(&self, columns: Seq<ComponentInfo>) -> bool {
        self.0.lacks(columns)
            && self.1.lacks(columns)
            && self.2.lacks(columns)
            && self.3.lacks(columns)
            && self.4.lacks(columns)
            && self.5.lacks(columns)
            && self.6.lacks(columns)
            && self.7.lacks(columns)
            && self.8.lacks(columns)
            && self.9.lacks(columns)
    }

    fn lack_rule(&self) -> (r: Reject) {
        let r0 = self.0.lack_rule();
        let x1 = self.1.lack_rule();
        let ghost g0 = r0;
        let ghost h1 = x1;
        let r1 = Reject::Both(Box::new(r0), Box::new(x1));
        proof {
            assert forall|columns: Seq<ComponentInfo>| #[trigger]
                r1.holds(columns) == (self.0.lacks(columns) && self.1.lacks(columns)) by {
                assert(r1.holds(columns) == (g0.holds(columns) && h1.holds(columns)));
            }
        }
        let x2 = self.2.lack_rule();
        let ghost g1 = r1;
        let ghost h2 = x2;
        let r2 = Reject::Both(Box::new(r1), Box::new(x2));
        proof {
            assert forall|columns: Seq<ComponentInfo>| #[trigger]
                r2.holds(columns) == (self.0.lacks(columns) && self.1.lacks(columns) && self.2.lacks(columns)) by {
                assert(r2.holds(columns) == (g1.holds(columns) && h2.holds(columns)));
            }
        }
        let x3 = self.3.lack_rule();
        let ghost g2 = r2;
        let ghost h3 = x3;
        let r3 = Reject::Both(Box::new(r2), Box::new(x3));
        proof {
            assert forall|columns: Seq<ComponentInfo>| #[trigger]
                r3.holds(columns) == (self.0.lacks(columns) && self.1.lacks(columns) && self.2.lacks(columns) && self.3.lacks(columns)) by {
                assert(r3.holds(columns) == (g2.holds(columns) && h3.holds(columns)));
            }
        }
        let x4 = self.4.lack_rule();
        let ghost g3 = r3;
        let ghost h4 = x4;
        let r4 = Reject::Both(Box::new(r3), Box::new(x4));
        proof {
            assert forall|columns: Seq<ComponentInfo>| #[trigger]
                r4.holds(columns) == (self.0.lacks(columns) && self.1.lacks(columns) && self.2.lacks(columns) && self.3.lacks(columns) && self.4.lacks(columns)) by {
                assert(r4.holds(columns) == (g3.holds(columns) && h4.holds(columns)));
            }
        }
        let x5 = self.5.lack_rule();
        let ghost g4 = r4;
        let ghost h5 = x5;
        let r5 = Reject::Both(Box::new(r4), Box::new(x5));
        proof {
            assert forall|columns: Seq<ComponentInfo>| #[trigger]
                r5.holds(columns) == (self.0.lacks(columns) && self.1.lacks(columns) && self.2.lacks(columns) && self.3.lacks(columns) && self.4.lacks(columns) && self.5.lacks(columns)) by {
                assert(r5.holds(columns) == (g4.holds(columns) && h5.holds(columns)));
            }
        }
        let x6 = self.6.lack_rule();
        let ghost g5 = r5;
        let ghost h6 = x6;
        let r6 = Reject::Both(Box::new(r5), Box::new(x6));
        proof {
            assert forall|columns: Seq<ComponentInfo>| #[trigger]
                r6.holds(columns) == (self.0.lacks(columns) && self.1.lacks(columns) && self.2.lacks(columns) && self.3.lacks(columns) && self.4.lacks(columns) && self.5.lacks(columns) && self.6.lacks(columns)) by {
                assert(r6.holds(columns) == (g5.holds(columns) && h6.holds(columns)));
            }
        }
        let x7 = self.7.lack_rule();
        let ghost g6 = r6;
        let ghost h7 = x7;
        let r7 = Reject::Both(Box::new(r6), Box::new(x7));
        proof {
            assert forall|columns: Seq<ComponentInfo>| #[trigger]
                r7.holds(columns) == (self.0.lacks(columns) && self.1.lacks(columns) && self.2.lacks(columns) && self.3.lacks(columns) && self.4.lacks(columns) && self.5.lacks(columns) && self.6.lacks(columns) && self.7.lacks(columns)) by {
                assert(r7.holds(columns) == (g6.holds(columns) && h7.holds(columns)));
            }
        }
        let x8 = self.8.lack_rule();
        let ghost g7 = r7;
        let ghost h8 = x8;
        let r8 = Reject::Both(Box::new(r7), Box::new(x8));
        proof {
            assert forall|columns: Seq<ComponentInfo>| #[trigger]
                r8.holds(columns) == (self.0.lacks(columns) && self.1.lacks(columns) && self.2.lacks(columns) && self.3.lacks(columns) && self.4.lacks(columns) && self.5.lacks(columns) && self.6.lacks(columns) && self.7.lacks(columns) && self.8.lacks(columns)) by {
                assert(r8.holds(columns) == (g7.holds(columns) && h8.holds(columns)));
            }
        }
        let x9 = self.9.lack_rule();
        let ghost g8 = r8;
        let ghost h9 = x9;
        let r9 = Reject::Both(Box::new(r8), Box::new(x9));
        proof {
            assert forall|columns: Seq<ComponentInfo>| #[trigger]
                r9.holds(columns) == (self.0.lacks(columns) && self.1.lacks(columns) && self.2.lacks(columns) && self.3.lacks(columns) && self.4.lacks(columns) && self.5.lacks(columns) && self.6.lacks(columns) && self.7.lacks(columns) && self.8.lacks(columns) && self.9.lacks(columns)) by {
                assert(r9.holds(columns) == (g8.holds(columns) && h9.holds(columns)));
            }
        }
        r9
    }

    fn filter_archetype(&self, archetype: &Archetype) -> (r: bool) {
        if !self.0.filter_archetype(archetype) {
            return false;
        }
        if !self.1.filter_archetype(archetype) {
            return false;
        }
        if !self.2.filter_archetype(archetype) {
            return false;
        }
        if !self.3.filter_archetype(archetype) {
            return false;
        }
        if !self.4.filter_archetype(archetype) {
            return false;
        }
        if !self.5.filter_archetype(archetype) {
            return false;
        }
        if !self.6.filter_archetype(archetype) {
            return false;
        }
        if !self.7.filter_archetype(archetype) {
            return false;
        }
        if !self.8.filter_archetype(archetype) {
            return false;
        }
        if !self.9.filter_archetype(archetype) {
            return false;
        }
        true
    }
}

/// 11 filters together reject what one of them rejects, and listen on
/// what any of them listens on.
impl<A: FilterComponents, B: FilterComponents, C: FilterComponents, D: FilterComponents, E: FilterComponents, F: FilterComponents, G: FilterComponents, H: FilterComponents, I: FilterComponents, J: FilterComponents, K: FilterComponents> FilterComponents for (A, B, C, D, E, F, G, H, I, J, K) {
    open spec fn rejects(&self, columns: Seq<ComponentInfo>) -> bool {
        self.0.rejects(columns)
            || self.1.rejects(columns)
            || self.2.rejects(columns)
            || self.3.rejects(columns)
            || self.4.rejects(columns)
            || self.5.rejects(columns)
            || self.6.rejects(columns)
            || self.7.rejects(columns)
            || self.8.rejects(columns)
            || self.9.rejects(columns)
            || self.10.rejects(columns)
    }

    open spec fn withouts(&self) -> Seq<ComponentIndex> {
        self.0.withouts()
            + self.1.withouts()
            + self.2.withouts()
            + self.3.withouts()
            + self.4.withouts()
            + self.5.withouts()
            + self.6.withouts()
            + self.7.withouts()
            + self.8.withouts()
            + self.9.withouts()
            + self.10.withouts()
    }

    open spec fn listens(&self) -> Seq<(ComponentIndex, bool)> {
        self.0.listens()
            + self.1.listens()
            + self.2.listens()
            + self.3.listens()
            + self.4.listens()
            + self.5.listens()
            + self.6.listens()
            + self.7.listens()
            + self.8.listens()
            + self.9.listens()
            + self.10.listens()
    }

    fn init_read_write(&self, rw: &mut ReadWrite) {
        self.0.init_read_write(rw);
        self.1.init_read_write(rw);
        proof {
            assert(rw.withouts@ =~= old(rw).withouts@ + (self.0.withouts() + self.1.withouts()));
            assert(rw.listeners@ =~= old(rw).listeners@ + (self.0.listens() + self.1.listens()));
        }
        self.2.init_read_write(rw);
        proof {
            assert(rw.withouts@ =~= old(rw).withouts@ + (self.0.withouts() + self.1.withouts() + self.2.withouts()));
            assert(rw.listeners@ =~= old(rw).listeners@ + (self.0.listens() + self.1.listens() + self.2.listens()));
        }
        self.3.init_read_write(rw);
        proof {
            assert(rw.withouts@ =~= old(rw).withouts@ + (self.0.withouts() + self.1.withouts() + self.2.withouts() + self.3.withouts()));
            assert(rw.listeners@ =~= old(rw).listeners@ + (self.0.listens() + self.1.listens() + self.2.listens() + self.3.listens()));
        }
        self.4.init_read_write(rw);
        proof {
            assert(rw.withouts@ =~= old(rw).withouts@ + (self.0.withouts() + self.1.withouts() + self.2.withouts() + self.3.withouts() + self.4.withouts()));
            assert(rw.listeners@ =~= old(rw).listeners@ + (self.0.listens() + self.1.listens() + self.2.listens() + self.3.listens() + self.4.listens()));
        }
        self.5.init_read_write(rw);
        proof {
            assert(rw.withouts@ =~= old(rw).withouts@ + (self.0.withouts() + self.1.withouts() + self.2.withouts() + self.3.withouts() + self.4.withouts() + self.5.withouts()));
            assert(rw.listeners@ =~= old(rw).listeners@ + (self.0.listens() + self.1.listens() + self.2.listens() + self.3.listens() + self.4.listens() + self.5.listens()));
        }
        self.6.init_read_write(rw);
        proof {
            assert(rw.withouts@ =~= old(rw).withouts@ + (self.0.withouts() + self.1.withouts() + self.2.withouts() + self.3.withouts() + self.4.withouts() + self.5.withouts() + self.6.withouts()));
            assert(rw.listeners@ =~= old(rw).listeners@ + (self.0.listens() + self.1.listens() + self.2.listens() + self.3.listens() + self.4.listens() + self.5.listens() + self.6.listens()));
        }
        self.7.init_read_write(rw);
        proof {
            assert(rw.withouts@ =~= old(rw).withouts@ + (self.0.withouts() + self.1.withouts() + self.2.withouts() + self.3.withouts() + self.4.withouts() + self.5.withouts() + self.6.withouts() + self.7.withouts()));
            assert(rw.listeners@ =~= old(rw).listeners@ + (self.0.listens() + self.1.listens() + self.2.listens() + self.3.listens() + self.4.listens() + self.5.listens() + self.6.listens() + self.7.listens()));
        }
        self.8.init_read_write(rw);
        proof {
            assert(rw.withouts@ =~= old(rw).withouts@ + (self.0.withouts() + self.1.withouts() + self.2.withouts() + self.3.withouts() + self.4.withouts() + self.5.withouts() + self.6.withouts() + self.7.withouts() + self.8.withouts()));
            assert(rw.listeners@ =~= old(rw).listeners@ + (self.0.listens() + self.1.listens() + self.2.listens() + self.3.listens() + self.4.listens() + self.5.listens() + self.6.listens() + self.7.listens() + self.8.listens()));
        }
        self.9.init_read_write(rw);
        proof {
            assert(rw.withouts@ =~= old(rw).withouts@ + (self.0.withouts() + self.1.withouts() + self.2.withouts() + self.3.withouts() + self.4.withouts() + self.5.withouts() + self.6.withouts() + self.7.withouts() + self.8.withouts() + self.9.withouts()));
            assert(rw.listeners@ =~= old(rw).listeners@ + (self.0.listens() + self.1.listens() + self.2.listens() + self.3.listens() + self.4.listens() + self.5.listens() + self.6.listens() + self.7.listens() + self.8.listens() + self.9.listens()));
        }
        self.10.init_read_write(rw);
        proof {
            assert(rw.withouts@ =~= old(rw).withouts@ + (self.0.withouts() + self.1.withouts() + self.2.withouts() + self.3.withouts() + self.4.withouts() + self.5.withouts() + self.6.withouts() + self.7.withouts() + self.8.withouts() + self.9.withouts() + self.10.withouts()));
            assert(rw.listeners@ =~= old(rw).listeners@ + (self.0.listens() + self.1.listens() + self.2.listens() + self.3.listens() + self.4.listens() + self.5.listens() + self.6.listens() + self.7.listens() + self.8.listens() + self.9.listens() + self.10.listens()));
        }
    }

    fn rejection(&self) -> (r: Reject) {
        let r0 = self.0.rejection();
        let x1 = self.1.rejection();
        let ghost g0 = r0;
        let ghost h1 = x1;
        let r1 = Reject::Either(Box::new(r0), Box::new(x1));
        proof {
            assert forall|columns: Seq<ComponentInfo>| #[trigger]
                r1.holds(columns) == (self.0.rejects(columns) || self.1.rejects(columns)) by {
                assert(r1.holds(columns) == (g0.holds(columns) || h1.holds(columns)));
            }
        }
        let x2 = self.2.rejection();
        let ghost g1 = r1;
        let ghost h2 = x2;
        let r2 = Reject::Either(Box::new(r1), Box::new(x2));
        proof {
            assert forall|columns: Seq<ComponentInfo>| #[trigger]
                r2.holds(columns) == (self.0.rejects(columns) || self.1.rejects(columns) || self.2.rejects(columns)) by {
                assert(r2.holds(columns) == (g1.holds(columns) || h2.holds(columns)));
            }
        }
        let x3 = self.3.rejection();
        let ghost g2 = r2;
        let ghost h3 = x3;
        let r3 = Reject::Either(Box::new(r2), Box::new(x3));
        proof {
            assert forall|columns: Seq<ComponentInfo>| #[trigger]
                r3.holds(columns) == (self.0.rejects(columns) || self.1.rejects(columns) || self.2.rejects(columns) || self.3.rejects(columns)) by {
                assert(r3.holds(columns) == (g2.holds(columns) || h3.holds(columns)));
            }
        }
        let x4 = self.4.rejection();
        let ghost g3 = r3;
        let ghost h4 = x4;
        let r4 = Reject::Either(Box::new(r3), Box::new(x4));
        proof {
            assert forall|columns: Seq<ComponentInfo>| #[trigger]
                r4.holds(columns) == (self.0.rejects(columns) || self.1.rejects(columns) || self.2.rejects(columns) || self.3.rejects(columns) || self.4.rejects(columns)) by {
                assert(r4.holds(columns) == (g3.holds(columns) || h4.holds(columns)));
            }
        }
        let x5 = self.5.rejection();
        let ghost g4 = r4;
        let ghost h5 = x5;
        let r5 = Reject::Either(Box::new(r4), Box::new(x5));
        proof {
            assert forall|columns: Seq<ComponentInfo>| #[trigger]
                r5.holds(columns) == (self.0.rejects(columns) || self.1.rejects(columns) || self.2.rejects(columns) || self.3.rejects(columns) || self.4.rejects(columns) || self.5.rejects(columns)) by {
                assert(r5.holds(columns) == (g4.holds(columns) || h5.holds(columns)));
            }
        }
        let x6 = self.6.rejection();
        let ghost g5 = r5;
        let ghost h6 = x6;
        let r6 = Reject::Either(Box::new(r5), Box::new(x6));
        proof {
            assert forall|columns: Seq<ComponentInfo>| #[trigger]
                r6.holds(columns) == (self.0.rejects(columns) || self.1.rejects(columns) || self.2.rejects(columns) || self.3.rejects(columns) || self.4.rejects(columns) || self.5.rejects(columns) || self.6.rejects(columns)) by {
                assert(r6.holds(columns) == (g5.holds(columns) || h6.holds(columns)));
            }
        }
        let x7 = self.7.rejection();
        let ghost g6 = r6;
        let ghost h7 = x7;
        let r7 = Reject::Either(Box::new(r6), Box::new(x7));
        proof {
            assert forall|columns: Seq<ComponentInfo>| #[trigger]
                r7.holds(columns) == (self.0.rejects(columns) || self.1.rejects(columns) || self.2.rejects(columns) || self.3.rejects(columns) || self.4.rejects(columns) || self.5.rejects(columns) || self.6.rejects(columns) || self.7.rejects(columns)) by {
                assert(r7.holds(columns) == (g6.holds(columns) || h7.holds(columns)));
            }
        }
        let x8 = self.8.rejection();
        let ghost g7 = r7;
        let ghost h8 = x8;
        let r8 = Reject::Either(Box::new(r7), Box::new(x8));
        proof {
            assert forall|columns: Seq<ComponentInfo>| #[trigger]
                r8.holds(columns) == (self.0.rejects(columns) || self.1.rejects(columns) || self.2.rejects(columns) || self.3.rejects(columns) || self.4.rejects(columns) || self.5.rejects(columns) || self.6.rejects(columns) || self.7.rejects(columns) || self.8.rejects(columns)) by {
                assert(r8.holds(columns) == (g7.holds(columns) || h8.holds(columns)));
            }
        }
        let x9 = self.9.rejection();
        let ghost g8 = r8;
        let ghost h9 = x9;
        let r9 = Reject::Either(Box::new(r8), Box::new(x9));
        proof {
            assert forall|columns: Seq<ComponentInfo>| #[trigger]
                r9.holds(columns) == (self.0.rejects(columns) || self.1.rejects(columns) || self.2.rejects(columns) || self.3.rejects(columns) || self.4.rejects(columns) || self.5.rejects(columns) || self.6.rejects(columns) || self.7.rejects(columns) || self.8.rejects(columns) || self.9.rejects(columns)) by {
                assert(r9.holds(columns) == (g8.holds(columns) || h9.holds(columns)));
            }
        }
        let x10 = self.10.rejection();
        let ghost g9 = r9;
        let ghost h10 = x10;
        let r10 = Reject::Either(Box::new(r9), Box::new(x10));
        proof {
            assert forall|columns: Seq<ComponentInfo>| #[trigger]
                r10.holds(columns) == (self.0.rejects(columns) || self.1.rejects(columns) || self.2.rejects(columns) || self.3.rejects(columns) || self.4.rejects(columns) || self.5.rejects(columns) || self.6.rejects(columns) || self.7.rejects(columns) || self.8.rejects(columns) || self.9.rejects(columns) || self.10.rejects(columns)) by {
                assert(r10.holds(columns) == (g9.holds(columns) || h10.holds(columns)));
            }
        }
        r10
    }

    fn archetype_filter(&self, archetype: &Archetype) -> (r: bool) {
        if self.0.archetype_filter(archetype) {
            return true;
        }
        if self.1.archetype_filter(archetype) {
            return true;
        }
        if self.2.archetype_filter(archetype) {
            return true;
        }
        if self.3.archetype_filter(archetype) {
            return true;
        }
        if self.4.archetype_filter(archetype) {
            return true;
        }
        if self.5.archetype_filter(archetype) {
            return true;
        }
        if self.6.archetype_filter(archetype) {
            return true;
        }
        if self.7.archetype_filter(archetype) {
            return true;
        }
        if self.8.archetype_filter(archetype) {
            return true;
        }
        if self.9.archetype_filter(archetype) {
            return true;
        }
        self.10.archetype_filter(archetype)
    }
}

/// 11 conditions under an `Or` fail together only: one that holds is
/// enough.
impl<A: FilterArchetype, B: FilterArchetype, C: FilterArchetype, D: FilterArchetype, E: FilterArchetype, F: FilterArchetype, G: FilterArchetype, H: FilterArchetype, I: FilterArchetype, J: FilterArchetype, K: FilterArchetype> FilterArchetype for (A, B, C, D, E, F, G, H, I, J, K) {
    open spec fn lacks(&self, columns: Seq<ComponentInfo>) -> bool {
        self.0.lacks(columns)
            && self.1.lacks(columns)
            && self.2.lacks(columns)
            && self.3.lacks(columns)
            && self.4.lacks(columns)
            && self.5.lacks(columns)
            && self.6.lacks(columns)
            && self.7.lacks(columns)
            && self.8.lacks(columns)
            && self.9.lacks(columns)
            && self.10.lacks(columns)
    }

    fn lack_rule(&self) -> (r: Reject) {
        let r0 = self.0.lack_rule();
        let x1 = self.1.lack_rule();
        let ghost g0 = r0;
        let ghost h1 = x1;
        let r1 = Reject::Both(Box::new(r0), Box::new(x1));
        proof {
            assert forall|columns: Seq<ComponentInfo>| #[trigger]
                r1.holds(columns) == (self.0.lacks(columns) && self.1.lacks(columns)) by {
                assert(r1.holds(columns) == (g0.holds(columns) && h1.holds(columns)));
            }
        }
        let x2 = self.2.lack_rule();
        let ghost g1 = r1;
        let ghost h2 = x2;
        let r2 = Reject::Both(Box::new(r1), Box::new(x2));
        proof {
            assert forall|columns: Seq<ComponentInfo>| #[trigger]
                r2.holds(columns) == (self.0.lacks(columns) && self.1.lacks(columns) && self.2.lacks(columns)) by {
                assert(r2.holds(columns) == (g1.holds(columns) && h2.holds(columns)));
            }
        }
        let x3 = self.3.lack_rule();
        let ghost g2 = r2;
        let ghost h3 = x3;
        let r3 = Reject::Both(Box::new(r2), Box::new(x3));
        proof {
            assert forall|columns: Seq<ComponentInfo>| #[trigger]
                r3.holds(columns) == (self.0.lacks(columns) && self.1.lacks(columns) && self.2.lacks(columns) && self.3.lacks(columns)) by {
                assert(r3.holds(columns) == (g2.holds(columns) && h3.holds(columns)));
            }
        }
        let x4 = self.4.lack_rule();
        let ghost g3 = r3;
        let ghost h4 = x4;
        let r4 = Reject::Both(Box::new(r3), Box::new(x4));
        proof {
            assert forall|columns: Seq<ComponentInfo>| #[trigger]
                r4.holds(columns) == (self.0.lacks(columns) && self.1.lacks(columns) && self.2.lacks(columns) && self.3.lacks(columns) && self.4.lacks(columns)) by {
                assert(r4.holds(columns) == (g3.holds(columns) && h4.holds(columns)));
            }
        }
        let x5 = self.5.lack_rule();
        let ghost g4 = r4;
        let ghost h5 = x5;
        let r5 = Reject::Both(Box::new(r4), Box::new(x5));
        proof {
            assert forall|columns: Seq<ComponentInfo>| #[trigger]
                r5.holds(columns) == (self.0.lacks(columns) && self.1.lacks(columns) && self.2.lacks(columns) && self.3.lacks(columns) && self.4.lacks(columns) && self.5.lacks(columns)) by {
                assert(r5.holds(columns) == (g4.holds(columns) && h5.holds(columns)));
            }
        }
        let x6 = self.6.lack_rule();
        let ghost g5 = r5;
        let ghost h6 = x6;
        let r6 = Reject::Both(Box::new(r5), Box::new(x6));
        proof {
            assert forall|columns: Seq<ComponentInfo>| #[trigger]
                r6.holds(columns) == (self.0.lacks(columns) && self.1.lacks(columns) && self.2.lacks(columns) && self.3.lacks(columns) && self.4.lacks(columns) && self.5.lacks(columns) && self.6.lacks(columns)) by {
                assert(r6.holds(columns) == (g5.holds(columns) && h6.holds(columns)));
            }
        }
        let x7 = self.7.lack_rule();
        let ghost g6 = r6;
        let ghost h7 = x7;
        let r7 = Reject::Both(Box::new(r6), Box::new(x7));
        proof {
            assert forall|columns: Seq<ComponentInfo>| #[trigger]
                r7.holds(columns) == (self.0.lacks(columns) && self.1.lacks(columns) && self.2.lacks(columns) && self.3.lacks(columns) && self.4.lacks(columns) && self.5.lacks(columns) && self.6.lacks(columns) && self.7.lacks(columns)) by {
                assert(r7.holds(columns) == (g6.holds(columns) && h7.holds(columns)));
            }
        }
        let x8 = self.8.lack_rule();
        let ghost g7 = r7;
        let ghost h8 = x8;
        let r8 = Reject::Both(Box::new(r7), Box::new(x8));
        proof {
            assert forall|columns: Seq<ComponentInfo>| #[trigger]
                r8.holds(columns) == (self.0.lacks(columns) && self.1.lacks(columns) && self.2.lacks(columns) && self.3.lacks(columns) && self.4.lacks(columns) && self.5.lacks(columns) && self.6.lacks(columns) && self.7.lacks(columns) && self.8.lacks(columns)) by {
                assert(r8.holds(columns) == (g7.holds(columns) && h8.holds(columns)));
            }
        }
        let x9 = self.9.lack_rule();
        let ghost g8 = r8;
        let ghost h9 = x9;
        let r9 = Reject::Both(Box::new(r8), Box::new(x9));
        proof {
            assert forall|columns: Seq<ComponentInfo>| #[trigger]
                r9.holds(columns) == (self.0.lacks(columns) && self.1.lacks(columns) && self.2.lacks(columns) && self.3.lacks(columns) && self.4.lacks(columns) && self.5.lacks(columns) && self.6.lacks(columns) && self.7.lacks(columns) && self.8.lacks(columns) && self.9.lacks(columns)) by {
                assert(r9.holds(columns) == (g8.holds(columns) && h9.holds(columns)));
            }
        }
        let x10 = self.10.lack_rule();
        let ghost g9 = r9;
        let ghost h10 = x10;
        let r10 = Reject::Both(Box::new(r9), Box::new(x10));
        proof {
            assert forall|columns: Seq<ComponentInfo>| #[trigger]
                r10.holds(columns) == (self.0.lacks(columns) && self.1.lacks(columns) && self.2.lacks(columns) && self.3.lacks(columns) && self.4.lacks(columns) && self.5.lacks(columns) && self.6.lacks(columns) && self.7.lacks(columns) && self.8.lacks(columns) && self.9.lacks(columns) && self.10.lacks(columns)) by {
                assert(r10.holds(columns) == (g9.holds(columns) && h10.holds(columns)));
            }
        }
        r10
    }

    fn filter_archetype(&self, archetype: &Archetype) -> (r: bool) {
        if !self.0.filter_archetype(archetype) {
            return false;
        }
        if !self.1.filter_archetype(archetype) {
            return false;
        }
        if !self.2.filter_archetype(archetype) {
            return false;
        }
        if !self.3.filter_archetype(archetype) {
            return false;
        }
        if !self.4.filter_archetype(archetype) {
            return false;
        }
        if !self.5.filter_archetype(archetype) {
            return false;
        }
        if !self.6.filter_archetype(archetype) {
            return false;
        }
        if !self.7.filter_archetype(archetype) {
            return false;
        }
        if !self.8.filter_archetype(archetype) {
            return false;
        }
        if !self.9.filter_archetype(archetype) {
            return false;
        }
        if !self.10.filter_archetype(archetype) {
            return false;
        }
        true
    }
}

/// 12 filters together reject what one of them rejects, and listen on
/// what any of them listens on.
impl<A: FilterComponents, B: FilterComponents, C: FilterComponents, D: FilterComponents, E: FilterComponents, F: FilterComponents, G: FilterComponents, H: FilterComponents, I: FilterComponents, J: FilterComponents, K: FilterComponents, L: FilterComponents> FilterComponents for (A, B, C, D, E, F, G, H, I, J, K, L) {
    open spec fn rejects(&self, columns: Seq<ComponentInfo>) -> bool {
        self.0.rejects(columns)
            || self.1.rejects(columns)
            || self.2.rejects(columns)
            || self.3.rejects(columns)
            || self.4.rejects(columns)
            || self.5.rejects(columns)
            || self.6.rejects(columns)
            || self.7.rejects(columns)
            || self.8.rejects(columns)
            || self.9.rejects(columns)
            || self.10.rejects(columns)
            || self.11.rejects(columns)
    }

    open spec fn withouts(&self) -> Seq<ComponentIndex> {
        self.0.withouts()
            + self.1.withouts()
            + self.2.withouts()
            + self.3.withouts()
            + self.4.withouts()
            + self.5.withouts()
            + self.6.withouts()
            + self.7.withouts()
            + self.8.withouts()
            + self.9.withouts()
            + self.10.withouts()
            + self.11.withouts()
    }

    open spec fn listens(&self) -> Seq<(ComponentIndex, bool)> {
        self.0.listens()
            + self.1.listens()
            + self.2.listens()
            + self.3.listens()
            + self.4.listens()
            + self.5.listens()
            + self.6.listens()
            + self.7.listens()
            + self.8.listens()
            + self.9.listens()
            + self.10.listens()
            + self.11.listens()
    }

    fn init_read_write(&self, rw: &mut ReadWrite) {
        self.0.init_read_write(rw);
        self.1.init_read_write(rw);
        proof {
            assert(rw.withouts@ =~= old(rw).withouts@ + (self.0.withouts() + self.1.withouts()));
            assert(rw.listeners@ =~= old(rw).listeners@ + (self.0.listens() + self.1.listens()));
        }
        self.2.init_read_write(rw);
        proof {
            assert(rw.withouts@ =~= old(rw).withouts@ + (self.0.withouts() + self.1.withouts() + self.2.withouts()));
            assert(rw.listeners@ =~= old(rw).listeners@ + (self.0.listens() + self.1.listens() + self.2.listens()));
        }
        self.3.init_read_write(rw);
        proof {
            assert(rw.withouts@ =~= old(rw).withouts@ + (self.0.withouts() + self.1.withouts() + self.2.withouts() + self.3.withouts()));
            assert(rw.listeners@ =~= old(rw).listeners@ + (self.0.listens() + self.1.listens() + self.2.listens() + self.3.listens()));
        }
        self.4.init_read_write(rw);
        proof {
            assert(rw.withouts@ =~= old(rw).withouts@ + (self.0.withouts() + self.1.withouts() + self.2.withouts() + self.3.withouts() + self.4.withouts()));
            assert(rw.listeners@ =~= old(rw).listeners@ + (self.0.listens() + self.1.listens() + self.2.listens() + self.3.listens() + self.4.listens()));
        }
        self.5.init_read_write(rw);
        proof {
            assert(rw.withouts@ =~= old(rw).withouts@ + (self.0.withouts() + self.1.withouts() + self.2.withouts() + self.3.withouts() + self.4.withouts() + self.5.withouts()));
            assert(rw.listeners@ =~= old(rw).listeners@ + (self.0.listens() + self.1.listens() + self.2.listens() + self.3.listens() + self.4.listens() + self.5.listens()));
        }
        self.6.init_read_write(rw);
        proof {
            assert(rw.withouts@ =~= old(rw).withouts@ + (self.0.withouts() + self.1.withouts() + self.2.withouts() + self.3.withouts() + self.4.withouts() + self.5.withouts() + self.6.withouts()));
            assert(rw.listeners@ =~= old(rw).listeners@ + (self.0.listens() + self.1.listens() + self.2.listens() + self.3.listens() + self.4.listens() + self.5.listens() + self.6.listens()));
        }
        self.7.init_read_write(rw);
        proof {
            assert(rw.withouts@ =~= old(rw).withouts@ + (self.0.withouts() + self.1.withouts() + self.2.withouts() + self.3.withouts() + self.4.withouts() + self.5.withouts() + self.6.withouts() + self.7.withouts()));
            assert(rw.listeners@ =~= old(rw).listeners@ + (self.0.listens() + self.1.listens() + self.2.listens() + self.3.listens() + self.4.listens() + self.5.listens() + self.6.listens() + self.7.listens()));
        }
        self.8.init_read_write(rw);
        proof {
            assert(rw.withouts@ =~= old(rw).withouts@ + (self.0.withouts() + self.1.withouts() + self.2.withouts() + self.3.withouts() + self.4.withouts() + self.5.withouts() + self.6.withouts() + self.7.withouts() + self.8.withouts()));
            assert(rw.listeners@ =~= old(rw).listeners@ + (self.0.listens() + self.1.listens() + self.2.listens() + self.3.listens() + self.4.listens() + self.5.listens() + self.6.listens() + self.7.listens() + self.8.listens()));
        }
        self.9.init_read_write(rw);
        proof {
            assert(rw.withouts@ =~= old(rw).withouts@ + (self.0.withouts() + self.1.withouts() + self.2.withouts() + self.3.withouts() + self.4.withouts() + self.5.withouts() + self.6.withouts() + self.7.withouts() + self.8.withouts() + self.9.withouts()));
            assert(rw.listeners@ =~= old(rw).listeners@ + (self.0.listens() + self.1.listens() + self.2.listens() + self.3.listens() + self.4.listens() + self.5.listens() + self.6.listens() + self.7.listens() + self.8.listens() + self.9.listens()));
        }
        self.10.init_read_write(rw);
        proof {
            assert(rw.withouts@ =~= old(rw).withouts@ + (self.0.withouts() + self.1.withouts() + self.2.withouts() + self.3.withouts() + self.4.withouts() + self.5.withouts() + self.6.withouts() + self.7.withouts() + self.8.withouts() + self.9.withouts() + self.10.withouts()));
            assert(rw.listeners@ =~= old(rw).listeners@ + (self.0.listens() + self.1.listens() + self.2.listens() + self.3.listens() + self.4.listens() + self.5.listens() + self.6.listens() + self.7.listens() + self.8.listens() + self.9.listens() + self.10.listens()));
        }
        self.11.init_read_write(rw);
        proof {
            assert(rw.withouts@ =~= old(rw).withouts@ + (self.0.withouts() + self.1.withouts() + self.2.withouts() + self.3.withouts() + self.4.withouts() + self.5.withouts() + self.6.withouts() + self.7.withouts() + self.8.withouts() + self.9.withouts() + self.10.withouts() + self.11.withouts()));
            assert(rw.listeners@ =~= old(rw).listeners@ + (self.0.listens() + self.1.listens() + self.2.listens() + self.3.listens() + self.4.listens() + self.5.listens() + self.6.listens() + self.7.listens() + self.8.listens() + self.9.listens() + self.10.listens() + self.11.listens()));
        }
    }

    fn rejection(&self) -> (r: Reject) {
        let r0 = self.0.rejection();
        let x1 = self.1.rejection();
        let ghost g0 = r0;
        let ghost h1 = x1;
        let r1 = Reject::Either(Box::new(r0), Box::new(x1));
        proof {
            assert forall|columns: Seq<ComponentInfo>| #[trigger]
                r1.holds(columns) == (self.0.rejects(columns) || self.1.rejects(columns)) by {
                assert(r1.holds(columns) == (g0.holds(columns) || h1.holds(columns)));
            }
        }
        let x2 = self.2.rejection();
        let ghost g1 = r1;
        let ghost h2 = x2;
        let r2 = Reject::Either(Box::new(r1), Box::new(x2));
        proof {
            assert forall|columns: Seq<ComponentInfo>| #[trigger]
                r2.holds(columns) == (self.0.rejects(columns) || self.1.rejects(columns) || self.2.rejects(columns)) by {
                assert(r2.holds(columns) == (g1.holds(columns) || h2.holds(columns)));
            }
        }
        let x3 = self.3.rejection();
        let ghost g2 = r2;
        let ghost h3 = x3;
        let r3 = Reject::Either(Box::new(r2), Box::new(x3));
        proof {
            assert forall|columns: Seq<ComponentInfo>| #[trigger]
                r3.holds(columns) == (self.0.rejects(columns) || self.1.rejects(columns) || self.2.rejects(columns) || self.3.rejects(columns)) by {
                assert(r3.holds(columns) == (g2.holds(columns) || h3.holds(columns)));
            }
        }
        let x4 = self.4.rejection();
        let ghost g3 = r3;
        let ghost h4 = x4;
        let r4 = Reject::Either(Box::new(r3), Box::new(x4));
        proof {
            assert forall|columns: Seq<ComponentInfo>| #[trigger]
                r4.holds(columns) == (self.0.rejects(columns) || self.1.rejects(columns) || self.2.rejects(columns) || self.3.rejects(columns) || self.4.rejects(columns)) by {
                assert(r4.holds(columns) == (g3.holds(columns) || h4.holds(columns)));
            }
        }
        let x5 = self.5.rejection();
        let ghost g4 = r4;
        let ghost h5 = x5;
        let r5 = Reject::Either(Box::new(r4), Box::new(x5));
        proof {
            assert forall|columns: Seq<ComponentInfo>| #[trigger]
                r5.holds(columns) == (self.0.rejects(columns) || self.1.rejects(columns) || self.2.rejects(columns) || self.3.rejects(columns) || self.4.rejects(columns) || self.5.rejects(columns)) by {
                assert(r5.holds(columns) == (g4.holds(columns) || h5.holds(columns)));
            }
        }
        let x6 = self.6.rejection();
        let ghost g5 = r5;
        let ghost h6 = x6;
        let r6 = Reject::Either(Box::new(r5), Box::new(x6));
        proof {
            assert forall|columns: Seq<ComponentInfo>| #[trigger]
                r6.holds(columns) == (self.0.rejects(columns) || self.1.rejects(columns) || self.2.rejects(columns) || self.3.rejects(columns) || self.4.rejects(columns) || self.5.rejects(columns) || self.6.rejects(columns)) by {
                assert(r6.holds(columns) == (g5.holds(columns) || h6.holds(columns)));
            }
        }
        let x7 = self.7.rejection();
        let ghost g6 = r6;
        let ghost h7 = x7;
        let r7 = Reject::Either(Box::new(r6), Box::new(x7));
        proof {
            assert forall|columns: Seq<ComponentInfo>| #[trigger]
                r7.holds(columns) == (self.0.rejects(columns) || self.1.rejects(columns) || self.2.rejects(columns) || self.3.rejects(columns) || self.4.rejects(columns) || self.5.rejects(columns) || self.6.rejects(columns) || self.7.rejects(columns)) by {
                assert(r7.holds(columns) == (g6.holds(columns) || h7.holds(columns)));
            }
        }
        let x8 = self.8.rejection();
        let ghost g7 = r7;
        let ghost h8 = x8;
        let r8 = Reject::Either(Box::new(r7), Box::new(x8));
        proof {
            assert forall|columns: Seq<ComponentInfo>| #[trigger]
                r8.holds(columns) == (self.0.rejects(columns) || self.1.rejects(columns) || self.2.rejects(columns) || self.3.rejects(columns) || self.4.rejects(columns) || self.5.rejects(columns) || self.6.rejects(columns) || self.7.rejects(columns) || self.8.rejects(columns)) by {
                assert(r8.holds(columns) == (g7.holds(columns) || h8.holds(columns)));
            }
        }
        let x9 = self.9.rejection();
        let ghost g8 = r8;
        let ghost h9 = x9;
        let r9 = Reject::Either(Box::new(r8), Box::new(x9));
        proof {
            assert forall|columns: Seq<ComponentInfo>| #[trigger]
                r9.holds(columns) == (self.0.rejects(columns) || self.1.rejects(columns) || self.2.rejects(columns) || self.3.rejects(columns) || self.4.rejects(columns) || self.5.rejects(columns) || self.6.rejects(columns) || self.7.rejects(columns) || self.8.rejects(columns) || self.9.rejects(columns)) by {
                assert(r9.holds(columns) == (g8.holds(columns) || h9.holds(columns)));
            }
        }
        let x10 = self.10.rejection();
        let ghost g9 = r9;
        let ghost h10 = x10;
        let r10 = Reject::Either(Box::new(r9), Box::new(x10));
        proof {
            assert forall|columns: Seq<ComponentInfo>| #[trigger]
                r10.holds(columns) == (self.0.rejects(columns) || self.1.rejects(columns) || self.2.rejects(columns) || self.3.rejects(columns) || self.4.rejects(columns) || self.5.rejects(columns) || self.6.rejects(columns) || self.7.rejects(columns) || self.8.rejects(columns) || self.9.rejects(columns) || self.10.rejects(columns)) by {
                assert(r10.holds(columns) == (g9.holds(columns) || h10.holds(columns)));
            }
        }
        let x11 = self.11.rejection();
        let ghost g10 = r10;
        let ghost h11 = x11;
        let r11 = Reject::Either(Box::new(r10), Box::new(x11));
        proof {
            assert forall|columns: Seq<ComponentInfo>| #[trigger]
                r11.holds(columns) == (self.0.rejects(columns) || self.1.rejects(columns) || self.2.rejects(columns) || self.3.rejects(columns) || self.4.rejects(columns) || self.5.rejects(columns) || self.6.rejects(columns) || self.7.rejects(columns) || self.8.rejects(columns) || self.9.rejects(columns) || self.10.rejects(columns) || self.11.rejects(columns)) by {
                assert(r11.holds(columns) == (g10.holds(columns) || h11.holds(columns)));
            }
        }
        r11
    }

    fn archetype_filter(&self, archetype: &Archetype) -> (r: bool) {
        if self.0.archetype_filter(archetype) {
            return true;
        }
        if self.1.archetype_filter(archetype) {
            return true;
        }
        if self.2.archetype_filter(archetype) {
            return true;
        }
        if self.3.archetype_filter(archetype) {
            return true;
        }
        if self.4.archetype_filter(archetype) {
            return true;
        }
        if self.5.archetype_filter(archetype) {
            return true;
        }
        if self.6.archetype_filter(archetype) {
            return true;
        }
        if self.7.archetype_filter(archetype) {
            return true;
        }
        if self.8.archetype_filter(archetype) {
            return true;
        }
        if self.9.archetype_filter(archetype) {
            return true;
        }
        if self.10.archetype_filter(archetype) {
            return true;
        }
        self.11.archetype_filter(archetype)
    }
}

/// 12 conditions under an `Or` fail together only: one that holds is
/// enough.
impl<A: FilterArchetype, B: FilterArchetype, C: FilterArchetype, D: FilterArchetype, E: FilterArchetype, F: FilterArchetype, G: FilterArchetype, H: FilterArchetype, I: FilterArchetype, J: FilterArchetype, K: FilterArchetype, L: FilterArchetype> FilterArchetype for (A, B, C, D, E, F, G, H, I, J, K, L) {
    open spec fn lacks(&self, columns: Seq<ComponentInfo>) -> bool {
        self.0.lacks(columns)
            && self.1.lacks(columns)
            && self.2.lacks(columns)
            && self.3.lacks(columns)
            && self.4.lacks(columns)
            && self.5.lacks(columns)
            && self.6.lacks(columns)
            && self.7.lacks(columns)
            && self.8.lacks(columns)
            && self.9.lacks(columns)
            && self.10.lacks(columns)
            && self.11.lacks(columns)
    }

    fn lack_rule(&self) -> (r: Reject) {
        let r0 = self.0.lack_rule();
        let x1 = self.1.lack_rule();
        let ghost g0 = r0;
        let ghost h1 = x1;
        let r1 = Reject::Both(Box::new(r0), Box::new(x1));
        proof {
            assert forall|columns: Seq<ComponentInfo>| #[trigger]
                r1.holds(columns) == (self.0.lacks(columns) && self.1.lacks(columns)) by {
                assert(r1.holds(columns) == (g0.holds(columns) && h1.holds(columns)));
            }
        }
        let x2 = self.2.lack_rule();
        let ghost g1 = r1;
        let ghost h2 = x2;
        let r2 = Reject::Both(Box::new(r1), Box::new(x2));
        proof {
            assert forall|columns: Seq<ComponentInfo>| #[trigger]
                r2.holds(columns) == (self.0.lacks(columns) && self.1.lacks(columns) && self.2.lacks(columns)) by {
                assert(r2.holds(columns) == (g1.holds(columns) && h2.holds(columns)));
            }
        }
        let x3 = self.3.lack_rule();
        let ghost g2 = r2;
        let ghost h3 = x3;
        let r3 = Reject::Both(Box::new(r2), Box::new(x3));
        proof {
            assert forall|columns: Seq<ComponentInfo>| #[trigger]
                r3.holds(columns) == (self.0.lacks(columns) && self.1.lacks(columns) && self.2.lacks(columns) && self.3.lacks(columns)) by {
                assert(r3.holds(columns) == (g2.holds(columns) && h3.holds(columns)));
            }
        }
        let x4 = self.4.lack_rule();
        let ghost g3 = r3;
        let ghost h4 = x4;
        let r4 = Reject::Both(Box::new(r3), Box::new(x4));
        proof {
            assert forall|columns: Seq<ComponentInfo>| #[trigger]
                r4.holds(columns) == (self.0.lacks(columns) && self.1.lacks(columns) && self.2.lacks(columns) && self.3.lacks(columns) && self.4.lacks(columns)) by {
                assert(r4.holds(columns) == (g3.holds(columns) && h4.holds(columns)));
            }
        }
        let x5 = self.5.lack_rule();
        let ghost g4 = r4;
        let ghost h5 = x5;
        let r5 = Reject::Both(Box::new(r4), Box::new(x5));
        proof {
            assert forall|columns: Seq<ComponentInfo>| #[trigger]
                r5.holds(columns) == (self.0.lacks(columns) && self.1.lacks(columns) && self.2.lacks(columns) && self.3.lacks(columns) && self.4.lacks(columns) && self.5.lacks(columns)) by {
                assert(r5.holds(columns) == (g4.holds(columns) && h5.holds(columns)));
            }
        }
        let x6 = self.6.lack_rule();
        let ghost g5 = r5;
        let ghost h6 = x6;
        let r6 = Reject::Both(Box::new(r5), Box::new(x6));
        proof {
            assert forall|columns: Seq<ComponentInfo>| #[trigger]
                r6.holds(columns) == (self.0.lacks(columns) && self.1.lacks(columns) && self.2.lacks(columns) && self.3.lacks(columns) && self.4.lacks(columns) && self.5.lacks(columns) && self.6.lacks(columns)) by {
                assert(r6.holds(columns) == (g5.holds(columns) && h6.holds(columns)));
            }
        }
        let x7 = self.7.lack_rule();
        let ghost g6 = r6;
        let ghost h7 = x7;
        let r7 = Reject::Both(Box::new(r6), Box::new(x7));
        proof {
            assert forall|columns: Seq<ComponentInfo>| #[trigger]
                r7.holds(columns) == (self.0.lacks(columns) && self.1.lacks(columns) && self.2.lacks(columns) && self.3.lacks(columns) && self.4.lacks(columns) && self.5.lacks(columns) && self.6.lacks(columns) && self.7.lacks(columns)) by {
                assert(r7.holds(columns) == (g6.holds(columns) && h7.holds(columns)));
            }
        }
        let x8 = self.8.lack_rule();
        let ghost g7 = r7;
        let ghost h8 = x8;
        let r8 = Reject::Both(Box::new(r7), Box::new(x8));
        proof {
            assert forall|columns: Seq<ComponentInfo>| #[trigger]
                r8.holds(columns) == (self.0.lacks(columns) && self.1.lacks(columns) && self.2.lacks(columns) && self.3.lacks(columns) && self.4.lacks(columns) && self.5.lacks(columns) && self.6.lacks(columns) && self.7.lacks(columns) && self.8.lacks(columns)) by {
                assert(r8.holds(columns) == (g7.holds(columns) && h8.holds(columns)));
            }
        }
        let x9 = self.9.lack_rule();
        let ghost g8 = r8;
        let ghost h9 = x9;
        let r9 = Reject::Both(Box::new(r8), Box::new(x9));
        proof {
            assert forall|columns: Seq<ComponentInfo>| #[trigger]
                r9.holds(columns) == (self.0.lacks(columns) && self.1.lacks(columns) && self.2.lacks(columns) && self.3.lacks(columns) && self.4.lacks(columns) && self.5.lacks(columns) && self.6.lacks(columns) && self.7.lacks(columns) && self.8.lacks(columns) && self.9.lacks(columns)) by {
                assert(r9.holds(columns) == (g8.holds(columns) && h9.holds(columns)));
            }
        }
        let x10 = self.10.lack_rule();
        let ghost g9 = r9;
        let ghost h10 = x10;
        let r10 = Reject::Both(Box::new(r9), Box::new(x10));
        proof {
            assert forall|columns: Seq<ComponentInfo>| #[trigger]
                r10.holds(columns) == (self.0.lacks(columns) && self.1.lacks(columns) && self.2.lacks(columns) && self.3.lacks(columns) && self.4.lacks(columns) && self.5.lacks(columns) && self.6.lacks(columns) && self.7.lacks(columns) && self.8.lacks(columns) && self.9.lacks(columns) && self.10.lacks(columns)) by {
                assert(r10.holds(columns) == (g9.holds(columns) && h10.holds(columns)));
            }
        }
        let x11 = self.11.lack_rule();
        let ghost g10 = r10;
        let ghost h11 = x11;
        let r11 = Reject::Both(Box::new(r10), Box::new(x11));
        proof {
            assert forall|columns: Seq<ComponentInfo>| #[trigger]
                r11.holds(columns) == (self.0.lacks(columns) && self.1.lacks(columns) && self.2.lacks(columns) && self.3.lacks(columns) && self.4.lacks(columns) && self.5.lacks(columns) && self.6.lacks(columns) && self.7.lacks(columns) && self.8.lacks(columns) && self.9.lacks(columns) && self.10.lacks(columns) && self.11.lacks(columns)) by {
                assert(r11.holds(columns) == (g10.holds(columns) && h11.holds(columns)));
            }
        }
        r11
    }

    fn filter_archetype(&self, archetype: &Archetype) -> (r: bool) {
        if !self.0.filter_archetype(archetype) {
            return false;
        }
        if !self.1.filter_archetype(archetype) {
            return false;
        }
        if !self.2.filter_archetype(archetype) {
            return false;
        }
        if !self.3.filter_archetype(archetype) {
            return false;
        }
        if !self.4.filter_archetype(archetype) {
            return false;
        }
        if !self.5.filter_archetype(archetype) {
            return false;
        }
        if !self.6.filter_archetype(archetype) {
            return false;
        }
        if !self.7.filter_archetype(archetype) {
            return false;
        }
        if !self.8.filter_archetype(archetype) {
            return false;
        }
        if !self.9.filter_archetype(archetype) {
            return false;
        }
        if !self.10.filter_archetype(archetype) {
            return false;
        }
        if !self.11.filter_archetype(archetype) {
            return false;
        }
        true
    }
}

/// 13 filters together reject what one of them rejects, and listen on
/// what any of them listens on.
impl<A: FilterComponents, B: FilterComponents, C: FilterComponents, D: FilterComponents, E: FilterComponents, F: FilterComponents, G: FilterComponents, H: FilterComponents, I: FilterComponents, J: FilterComponents, K: FilterComponents, L: FilterComponents, M: FilterComponents> FilterComponents for (A, B, C, D, E, F, G, H, I, J, K, L, M) {
    open spec fn rejects(&self, columns: Seq<ComponentInfo>) -> bool {
        self.0.rejects(columns)
            || self.1.rejects(columns)
            || self.2.rejects(columns)
            || self.3.rejects(columns)
            || self.4.rejects(columns)
            || self.5.rejects(columns)
            || self.6.rejects(columns)
            || self.7.rejects(columns)
            || self.8.rejects(columns)
            || self.9.rejects(columns)
            || self.10.rejects(columns)
            || self.11.rejects(columns)
            || self.12.rejects(columns)
    }

    open spec fn withouts(&self) -> Seq<ComponentIndex> {
        self.0.withouts()
            + self.1.withouts()
            + self.2.withouts()
            + self.3.withouts()
            + self.4.withouts()
            + self.5.withouts()
            + self.6.withouts()
            + self.7.withouts()
            + self.8.withouts()
            + self.9.withouts()
            + self.10.withouts()
            + self.11.withouts()
            + self.12.withouts()
    }

    open spec fn listens(&self) -> Seq<(ComponentIndex, bool)> {
        self.0.listens()
            + self.1.listens()
            + self.2.listens()
            + self.3.listens()
            + self.4.listens()
            + self.5.listens()
            + self.6.listens()
            + self.7.listens()
            + self.8.listens()
            + self.9.listens()
            + self.10.listens()
            + self.11.listens()
            + self.12.listens()
    }

    fn init_read_write(&self, rw: &mut ReadWrite) {
        self.0.init_read_write(rw);
        self.1.init_read_write(rw);
        proof {
            assert(rw.withouts@ =~= old(rw).withouts@ + (self.0.withouts() + self.1.withouts()));
            assert(rw.listeners@ =~= old(rw).listeners@ + (self.0.listens() + self.1.listens()));
        }
        self.2.init_read_write(rw);
        proof {
            assert(rw.withouts@ =~= old(rw).withouts@ + (self.0.withouts() + self.1.withouts() + self.2.withouts()));
            assert(rw.listeners@ =~= old(rw).listeners@ + (self.0.listens() + self.1.listens() + self.2.listens()));
        }
        self.3.init_read_write(rw);
        proof {
            assert(rw.withouts@ =~= old(rw).withouts@ + (self.0.withouts() + self.1.withouts() + self.2.withouts() + self.3.withouts()));
            assert(rw.listeners@ =~= old(rw).listeners@ + (self.0.listens() + self.1.listens() + self.2.listens() + self.3.listens()));
        }
        self.4.init_read_write(rw);
        proof {
            assert(rw.withouts@ =~= old(rw).withouts@ + (self.0.withouts() + self.1.withouts() + self.2.withouts() + self.3.withouts() + self.4.withouts()));
            assert(rw.listeners@ =~= old(rw).listeners@ + (self.0.listens() + self.1.listens() + self.2.listens() + self.3.listens() + self.4.listens()));
        }
        self.5.init_read_write(rw);
        proof {
            assert(rw.withouts@ =~= old(rw).withouts@ + (self.0.withouts() + self.1.withouts() + self.2.withouts() + self.3.withouts() + self.4.withouts() + self.5.withouts()));
            assert(rw.listeners@ =~= old(rw).listeners@ + (self.0.listens() + self.1.listens() + self.2.listens() + self.3.listens() + self.4.listens() + self.5.listens()));
        }
        self.6.init_read_write(rw);
        proof {
            assert(rw.withouts@ =~= old(rw).withouts@ + (self.0.withouts() + self.1.withouts() + self.2.withouts() + self.3.withouts() + self.4.withouts() + self.5.withouts() + self.6.withouts()));
            assert(rw.listeners@ =~= old(rw).listeners@ + (self.0.listens() + self.1.listens() + self.2.listens() + self.3.listens() + self.4.listens() + self.5.listens() + self.6.listens()));
        }
        self.7.init_read_write(rw);
        proof {
            assert(rw.withouts@ =~= old(rw).withouts@ + (self.0.withouts() + self.1.withouts() + self.2.withouts() + self.3.withouts() + self.4.withouts() + self.5.withouts() + self.6.withouts() + self.7.withouts()));
            assert(rw.listeners@ =~= old(rw).listeners@ + (self.0.listens() + self.1.listens() + self.2.listens() + self.3.listens() + self.4.listens() + self.5.listens() + self.6.listens() + self.7.listens()));
        }
        self.8.init_read_write(rw);
        proof {
            assert(rw.withouts@ =~= old(rw).withouts@ + (self.0.withouts() + self.1.withouts() + self.2.withouts() + self.3.withouts() + self.4.withouts() + self.5.withouts() + self.6.withouts() + self.7.withouts() + self.8.withouts()));
            assert(rw.listeners@ =~= old(rw).listeners@ + (self.0.listens() + self.1.listens() + self.2.listens() + self.3.listens() + self.4.listens() + self.5.listens() + self.6.listens() + self.7.listens() + self.8.listens()));
        }
        self.9.init_read_write(rw);
        proof {
            assert(rw.withouts@ =~= old(rw).withouts@ + (self.0.withouts() + self.1.withouts() + self.2.withouts() + self.3.withouts() + self.4.withouts() + self.5.withouts() + self.6.withouts() + self.7.withouts() + self.8.withouts() + self.9.withouts()));
            assert(rw.listeners@ =~= old(rw).listeners@ + (self.0.listens() + self.1.listens() + self.2.listens() + self.3.listens() + self.4.listens() + self.5.listens() + self.6.listens() + self.7.listens() + self.8.listens() + self.9.listens()));
        }
        self.10.init_read_write(rw);
        proof {
            assert(rw.withouts@ =~= old(rw).withouts@ + (self.0.withouts() + self.1.withouts() + self.2.withouts() + self.3.withouts() + self.4.withouts() + self.5.withouts() + self.6.withouts() + self.7.withouts() + self.8.withouts() + self.9.withouts() + self.10.withouts()));
            assert(rw.listeners@ =~= old(rw).listeners@ + (self.0.listens() + self.1.listens() + self.2.listens() + self.3.listens() + self.4.listens() + self.5.listens() + self.6.listens() + self.7.listens() + self.8.listens() + self.9.listens() + self.10.listens()));
        }
        self.11.init_read_write(rw);
        proof {
            assert(rw.withouts@ =~= old(rw).withouts@ + (self.0.withouts() + self.1.withouts() + self.2.withouts() + self.3.withouts() + self.4.withouts() + self.5.withouts() + self.6.withouts() + self.7.withouts() + self.8.withouts() + self.9.withouts() + self.10.withouts() + self.11.withouts()));
            assert(rw.listeners@ =~= old(rw).listeners@ + (self.0.listens() + self.1.listens() + self.2.listens() + self.3.listens() + self.4.listens() + self.5.listens() + self.6.listens() + self.7.listens() + self.8.listens() + self.9.listens() + self.10.listens() + self.11.listens()));
        }
        self.12.init_read_write(rw);
        proof {
            assert(rw.withouts@ =~= old(rw).withouts@ + (self.0.withouts() + self.1.withouts() + self.2.withouts() + self.3.withouts() + self.4.withouts() + self.5.withouts() + self.6.withouts() + self.7.withouts() + self.8.withouts() + self.9.withouts() + self.10.withouts() + self.11.withouts() + self.12.withouts()));
            assert(rw.listeners@ =~= old(rw).listeners@ + (self.0.listens() + self.1.listens() + self.2.listens() + self.3.listens() + self.4.listens() + self.5.listens() + self.6.listens() + self.7.listens() + self.8.listens() + self.9.listens() + self.10.listens() + self.11.listens() + self.12.listens()));
        }
    }

    fn rejection(&self) -> (r: Reject) {
        let r0 = self.0.rejection();
        let x1 = self.1.rejection();
        let ghost g0 = r0;
        let ghost h1 = x1;
        let r1 = Reject::Either(Box::new(r0), Box::new(x1));
        proof {
            assert forall|columns: Seq<ComponentInfo>| #[trigger]
                r1.holds(columns) == (self.0.rejects(columns) || self.1.rejects(columns)) by {
                assert(r1.holds(columns) == (g0.holds(columns) || h1.holds(columns)));
            }
        }
        let x2 = self.2.rejection();
        let ghost g1 = r1;
        let ghost h2 = x2;
        let r2 = Reject::Either(Box::new(r1), Box::new(x2));
        proof {
            assert forall|columns: Seq<ComponentInfo>| #[trigger]
                r2.holds(columns) == (self.0.rejects(columns) || self.1.rejects(columns) || self.2.rejects(columns)) by {
                assert(r2.holds(columns) == (g1.holds(columns) || h2.holds(columns)));
            }
        }
        let x3 = self.3.rejection();
        let ghost g2 = r2;
        let ghost h3 = x3;
        let r3 = Reject::Either(Box::new(r2), Box::new(x3));
        proof {
            assert forall|columns: Seq<ComponentInfo>| #[trigger]
                r3.holds(columns) == (self.0.rejects(columns) || self.1.rejects(columns) || self.2.rejects(columns) || self.3.rejects(columns)) by {
                assert(r3.holds(columns) == (g2.holds(columns) || h3.holds(columns)));
            }
        }
        let x4 = self.4.rejection();
        let ghost g3 = r3;
        let ghost h4 = x4;
        let r4 = Reject::Either(Box::new(r3), Box::new(x4));
        proof {
            assert forall|columns: Seq<ComponentInfo>| #[trigger]
                r4.holds(columns) == (self.0.rejects(columns) || self.1.rejects(columns) || self.2.rejects(columns) || self.3.rejects(columns) || self.4.rejects(columns)) by {
                assert(r4.holds(columns) == (g3.holds(columns) || h4.holds(columns)));
            }
        }
        let x5 = self.5.rejection();
        let ghost g4 = r4;
        let ghost h5 = x5;
        let r5 = Reject::Either(Box::new(r4), Box::new(x5));
        proof {
            assert forall|columns: Seq<ComponentInfo>| #[trigger]
                r5.holds(columns) == (self.0.rejects(columns) || self.1.rejects(columns) || self.2.rejects(columns) || self.3.rejects(columns) || self.4.rejects(columns) || self.5.rejects(columns)) by {
                assert(r5.holds(columns) == (g4.holds(columns) || h5.holds(columns)));
            }
        }
        let x6 = self.6.rejection();
        let ghost g5 = r5;
        let ghost h6 = x6;
        let r6 = Reject::Either(Box::new(r5), Box::new(x6));
        proof {
            assert forall|columns: Seq<ComponentInfo>| #[trigger]
                r6.holds(columns) == (self.0.rejects(columns) || self.1.rejects(columns) || self.2.rejects(columns) || self.3.rejects(columns) || self.4.rejects(columns) || self.5.rejects(columns) || self.6.rejects(columns)) by {
                assert(r6.holds(columns) == (g5.holds(columns) || h6.holds(columns)));
            }
        }
        let x7 = self.7.rejection();
        let ghost g6 = r6;
        let ghost h7 = x7;
        let r7 = Reject::Either(Box::new(r6), Box::new(x7));
        proof {
            assert forall|columns: Seq<ComponentInfo>| #[trigger]
                r7.holds(columns) == (self.0.rejects(columns) || self.1.rejects(columns) || self.2.rejects(columns) || self.3.rejects(columns) || self.4.rejects(columns) || self.5.rejects(columns) || self.6.rejects(columns) || self.7.rejects(columns)) by {
                assert(r7.holds(columns) == (g6.holds(columns) || h7.holds(columns)));
            }
        }
        let x8 = self.8.rejection();
        let ghost g7 = r7;
        let ghost h8 = x8;
        let r8 = Reject::Either(Box::new(r7), Box::new(x8));
        proof {
            assert forall|columns: Seq<ComponentInfo>| #[trigger]
                r8.holds(columns) == (self.0.rejects(columns) || self.1.rejects(columns) || self.2.rejects(columns) || self.3.rejects(columns) || self.4.rejects(columns) || self.5.rejects(columns) || self.6.rejects(columns) || self.7.rejects(columns) || self.8.rejects(columns)) by {
                assert(r8.holds(columns) == (g7.holds(columns) || h8.holds(columns)));
            }
        }
        let x9 = self.9.rejection();
        let ghost g8 = r8;
        let ghost h9 = x9;
        let r9 = Reject::Either(Box::new(r8), Box::new(x9));
        proof {
            assert forall|columns: Seq<ComponentInfo>| #[trigger]
                r9.holds(columns) == (self.0.rejects(columns) || self.1.rejects(columns) || self.2.rejects(columns) || self.3.rejects(columns) || self.4.rejects(columns) || self.5.rejects(columns) || self.6.rejects(columns) || self.7.rejects(columns) || self.8.rejects(columns) || self.9.rejects(columns)) by {
                assert(r9.holds(columns) == (g8.holds(columns) || h9.holds(columns)));
            }
        }
        let x10 = self.10.rejection();
        let ghost g9 = r9;
        let ghost h10 = x10;
        let r10 = Reject::Either(Box::new(r9), Box::new(x10));
        proof {
            assert forall|columns: Seq<ComponentInfo>| #[trigger]
                r10.holds(columns) == (self.0.rejects(columns) || self.1.rejects(columns) || self.2.rejects(columns) || self.3.rejects(columns) || self.4.rejects(columns) || self.5.rejects(columns) || self.6.rejects(columns) || self.7.rejects(columns) || self.8.rejects(columns) || self.9.rejects(columns) || self.10.rejects(columns)) by {
                assert(r10.holds(columns) == (g9.holds(columns) || h10.holds(columns)));
            }
        }
        let x11 = self.11.rejection();
        let ghost g10 = r10;
        let ghost h11 = x11;
        let r11 = Reject::Either(Box::new(r10), Box::new(x11));
        proof {
            assert forall|columns: Seq<ComponentInfo>| #[trigger]
                r11.holds(columns) == (self.0.rejects(columns) || self.1.rejects(columns) || self.2.rejects(columns) || self.3.rejects(columns) || self.4.rejects(columns) || self.5.rejects(columns) || self.6.rejects(columns) || self.7.rejects(columns) || self.8.rejects(columns) || self.9.rejects(columns) || self.10.rejects(columns) || self.11.rejects(columns)) by {
                assert(r11.holds(columns) == (g10.holds(columns) || h11.holds(columns)));
            }
        }
        let x12 = self.12.rejection();
        let ghost g11 = r11;
        let ghost h12 = x12;
        let r12 = Reject::Either(Box::new(r11), Box::new(x12));
        proof {
            assert forall|columns: Seq<ComponentInfo>| #[trigger]
                r12.holds(columns) == (self.0.rejects(columns) || self.1.rejects(columns) || self.2.rejects(columns) || self.3.rejects(columns) || self.4.rejects(columns) || self.5.rejects(columns) || self.6.rejects(columns) || self.7.rejects(columns) || self.8.rejects(columns) || self.9.rejects(columns) || self.10.rejects(columns) || self.11.rejects(columns) || self.12.rejects(columns)) by {
                assert(r12.holds(columns) == (g11.holds(columns) || h12.holds(columns)));
            }
        }
        r12
    }

    fn archetype_filter(&self, archetype: &Archetype) -> (r: bool) {
        if self.0.archetype_filter(archetype) {
            return true;
        }
        if self.1.archetype_filter(archetype) {
            return true;
        }
        if self.2.archetype_filter(archetype) {
            return true;
        }
        if self.3.archetype_filter(archetype) {
            return true;
        }
        if self.4.archetype_filter(archetype) {
            return true;
        }
        if self.5.archetype_filter(archetype) {
            return true;
        }
        if self.6.archetype_filter(archetype) {
            return true;
        }
        if self.7.archetype_filter(archetype) {
            return true;
        }
        if self.8.archetype_filter(archetype) {
            return true;
        }
        if self.9.archetype_filter(archetype) {
            return true;
        }
        if self.10.archetype_filter(archetype) {
            return true;
        }
        if self.11.archetype_filter(archetype) {
            return true;
        }
        self.12.archetype_filter(archetype)
    }
}

/// 13 conditions under an `Or` fail together only: one that holds is
/// enough.
impl<A: FilterArchetype, B: FilterArchetype, C: FilterArchetype, D: FilterArchetype, E: FilterArchetype, F: FilterArchetype, G: FilterArchetype, H: FilterArchetype, I: FilterArchetype, J: FilterArchetype, K: FilterArchetype, L: FilterArchetype, M: FilterArchetype> FilterArchetype for (A, B, C, D, E, F, G, H, I, J, K, L, M) {
    open spec fn lacks(&self, columns: Seq<ComponentInfo>) -> bool {
        self.0.lacks(columns)
            && self.1.lacks(columns)
            && self.2.lacks(columns)
            && self.3.lacks(columns)
            && self.4.lacks(columns)
            && self.5.lacks(columns)
            && self.6.lacks(columns)
            && self.7.lacks(columns)
            && self.8.lacks(columns)
            && self.9.lacks(columns)
            && self.10.lacks(columns)
            && self.11.lacks(columns)
            && self.12.lacks(columns)
    }

    fn lack_rule(&self) -> (r: Reject) {
        let r0 = self.0.lack_rule();
        let x1 = self.1.lack_rule();
        let ghost g0 = r0;
        let ghost h1 = x1;
        let r1 = Reject::Both(Box::new(r0), Box::new(x1));
        proof {
            assert forall|columns: Seq<ComponentInfo>| #[trigger]
                r1.holds(columns) == (self.0.lacks(columns) && self.1.lacks(columns)) by {
                assert(r1.holds(columns) == (g0.holds(columns) && h1.holds(columns)));
            }
        }
        let x2 = self.2.lack_rule();
        let ghost g1 = r1;
        let ghost h2 = x2;
        let r2 = Reject::Both(Box::new(r1), Box::new(x2));
        proof {
            assert forall|columns: Seq<ComponentInfo>| #[trigger]
                r2.holds(columns) == (self.0.lacks(columns) && self.1.lacks(columns) && self.2.lacks(columns)) by {
                assert(r2.holds(columns) == (g1.holds(columns) && h2.holds(columns)));
            }
        }
        let x3 = self.3.lack_rule();
        let ghost g2 = r2;
        let ghost h3 = x3;
        let r3 = Reject::Both(Box::new(r2), Box::new(x3));
        proof {
            assert forall|columns: Seq<ComponentInfo>| #[trigger]
                r3.holds(columns) == (self.0.lacks(columns) && self.1.lacks(columns) && self.2.lacks(columns) && self.3.lacks(columns)) by {
                assert(r3.holds(columns) == (g2.holds(columns) && h3.holds(columns)));
            }
        }
        let x4 = self.4.lack_rule();
        let ghost g3 = r3;
        let ghost h4 = x4;
        let r4 = Reject::Both(Box::new(r3), Box::new(x4));
        proof {
            assert forall|columns: Seq<ComponentInfo>| #[trigger]
                r4.holds(columns) == (self.0.lacks(columns) && self.1.lacks(columns) && self.2.lacks(columns) && self.3.lacks(columns) && self.4.lacks(columns)) by {
                assert(r4.holds(columns) == (g3.holds(columns) && h4.holds(columns)));
            }
        }
        let x5 = self.5.lack_rule();
        let ghost g4 = r4;
        let ghost h5 = x5;
        let r5 = Reject::Both(Box::new(r4), Box::new(x5));
        proof {
            assert forall|columns: Seq<ComponentInfo>| #[trigger]
                r5.holds(columns) == (self.0.lacks(columns) && self.1.lacks(columns) && self.2.lacks(columns) && self.3.lacks(columns) && self.4.lacks(columns) && self.5.lacks(columns)) by {
                assert(r5.holds(columns) == (g4.holds(columns) && h5.holds(columns)));
            }
        }
        let x6 = self.6.lack_rule();
        let ghost g5 = r5;
        let ghost h6 = x6;
        let r6 = Reject::Both(Box::new(r5), Box::new(x6));
        proof {
            assert forall|columns: Seq<ComponentInfo>| #[trigger]
                r6.holds(columns) == (self.0.lacks(columns) && self.1.lacks(columns) && self.2.lacks(columns) && self.3.lacks(columns) && self.4.lacks(columns) && self.5.lacks(columns) && self.6.lacks(columns)) by {
                assert(r6.holds(columns) == (g5.holds(columns) && h6.holds(columns)));
            }
        }
        let x7 = self.7.lack_rule();
        let ghost g6 = r6;
        let ghost h7 = x7;
        let r7 = Reject::Both(Box::new(r6), Box::new(x7));
        proof {
            assert forall|columns: Seq<ComponentInfo>| #[trigger]
                r7.holds(columns) == (self.0.lacks(columns) && self.1.lacks(columns) && self.2.lacks(columns) && self.3.lacks(columns) && self.4.lacks(columns) && self.5.lacks(columns) && self.6.lacks(columns) && self.7.lacks(columns)) by {
                assert(r7.holds(columns) == (g6.holds(columns) && h7.holds(columns)));
            }
        }
        let x8 = self.8.lack_rule();
        let ghost g7 = r7;
        let ghost h8 = x8;
        let r8 = Reject::Both(Box::new(r7), Box::new(x8));
        proof {
            assert forall|columns: Seq<ComponentInfo>| #[trigger]
                r8.holds(columns) == (self.0.lacks(columns) && self.1.lacks(columns) && self.2.lacks(columns) && self.3.lacks(columns) && self.4.lacks(columns) && self.5.lacks(columns) && self.6.lacks(columns) && self.7.lacks(columns) && self.8.lacks(columns)) by {
                assert(r8.holds(columns) == (g7.holds(columns) && h8.holds(columns)));
            }
        }
        let x9 = self.9.lack_rule();
        let ghost g8 = r8;
        let ghost h9 = x9;
        let r9 = Reject::Both(Box::new(r8), Box::new(x9));
        proof {
            assert forall|columns: Seq<ComponentInfo>| #[trigger]
                r9.holds(columns) == (self.0.lacks(columns) && self.1.lacks(columns) && self.2.lacks(columns) && self.3.lacks(columns) && self.4.lacks(columns) && self.5.lacks(columns) && self.6.lacks(columns) && self.7.lacks(columns) && self.8.lacks(columns) && self.9.lacks(columns)) by {
                assert(r9.holds(columns) == (g8.holds(columns) && h9.holds(columns)));
            }
        }
        let x10 = self.10.lack_rule();
        let ghost g9 = r9;
        let ghost h10 = x10;
        let r10 = Reject::Both(Box::new(r9), Box::new(x10));
        proof {
            assert forall|columns: Seq<ComponentInfo>| #[trigger]
                r10.holds(columns) == (self.0.lacks(columns) && self.1.lacks(columns) && self.2.lacks(columns) && self.3.lacks(columns) && self.4.lacks(columns) && self.5.lacks(columns) && self.6.lacks(columns) && self.7.lacks(columns) && self.8.lacks(columns) && self.9.lacks(columns) && self.10.lacks(columns)) by {
                assert(r10.holds(columns) == (g9.holds(columns) && h10.holds(columns)));
            }
        }
        let x11 = self.11.lack_rule();
        let ghost g10 = r10;
        let ghost h11 = x11;
        let r11 = Reject::Both(Box::new(r10), Box::new(x11));
        proof {
            assert forall|columns: Seq<ComponentInfo>| #[trigger]
                r11.holds(columns) == (self.0.lacks(columns) && self.1.lacks(columns) && self.2.lacks(columns) && self.3.lacks(columns) && self.4.lacks(columns) && self.5.lacks(columns) && self.6.lacks(columns) && self.7.lacks(columns) && self.8.lacks(columns) && self.9.lacks(columns) && self.10.lacks(columns) && self.11.lacks(columns)) by {
                assert(r11.holds(columns) == (g10.holds(columns) && h11.holds(columns)));
            }
        }
        let x12 = self.12.lack_rule();
        let ghost g11 = r11;
        let ghost h12 = x12;
        let r12 = Reject::Both(Box::new(r11), Box::new(x12));
        proof {
            assert forall|columns: Seq<ComponentInfo>| #[trigger]
                r12.holds(columns) == (self.0.lacks(columns) && self.1.lacks(columns) && self.2.lacks(columns) && self.3.lacks(columns) && self.4.lacks(columns) && self.5.lacks(columns) && self.6.lacks(columns) && self.7.lacks(columns) && self.8.lacks(columns) && self.9.lacks(columns) && self.10.lacks(columns) && self.11.lacks(columns) && self.12.lacks(columns)) by {
                assert(r12.holds(columns) == (g11.holds(columns) && h12.holds(columns)));
            }
        }
        r12
    }

    fn filter_archetype(&self, archetype: &Archetype) -> (r: bool) {
        if !self.0.filter_archetype(archetype) {
            return false;
        }
        if !self.1.filter_archetype(archetype) {
            return false;
        }
        if !self.2.filter_archetype(archetype) {
            return false;
        }
        if !self.3.filter_archetype(archetype) {
            return false;
        }
        if !self.4.filter_archetype(archetype) {
            return false;
        }
        if !self.5.filter_archetype(archetype) {
            return false;
        }
        if !self.6.filter_archetype(archetype) {
            return false;
        }
        if !self.7.filter_archetype(archetype) {
            return false;
        }
        if !self.8.filter_archetype(archetype) {
            return false;
        }
        if !self.9.filter_archetype(archetype) {
            return false;
        }
        if !self.10.filter_archetype(archetype) {
            return false;
        }
        if !self.11.filter_archetype(archetype) {
            return false;
        }
        if !self.12.filter_archetype(archetype) {
            return false;
        }
        true
    }
}

/// 14 filters together reject what one of them rejects, and listen on
/// what any of them listens on.
impl<A: FilterComponents, B: FilterComponents, C: FilterComponents, D: FilterComponents, E: FilterComponents, F: FilterComponents, G: FilterComponents, H: FilterComponents, I: FilterComponents, J: FilterComponents, K: FilterComponents, L: FilterComponents, M: FilterComponents, N: FilterComponents> FilterComponents for (A, B, C, D, E, F, G, H, I, J, K, L, M, N) {
    open spec fn rejects(&self, columns: Seq<ComponentInfo>) -> bool {
        self.0.rejects(columns)
            || self.1.rejects(columns)
            || self.2.rejects(columns)
            || self.3.rejects(columns)
            || self.4.rejects(columns)
            || self.5.rejects(columns)
            || self.6.rejects(columns)
            || self.7.rejects(columns)
            || self.8.rejects(columns)
            || self.9.rejects(columns)
            || self.10.rejects(columns)
            || self.11.rejects(columns)
            || self.12.rejects(columns)
            || self.13.rejects(columns)
    }

    open spec fn withouts(&self) -> Seq<ComponentIndex> {
        self.0.withouts()
            + self.1.withouts()
            + self.2.withouts()
            + self.3.withouts()
            + self.4.withouts()
            + self.5.withouts()
            + self.6.withouts()
            + self.7.withouts()
            + self.8.withouts()
            + self.9.withouts()
            + self.10.withouts()
            + self.11.withouts()
            + self.12.withouts()
            + self.13.withouts()
    }

    open spec fn listens(&self) -> Seq<(ComponentIndex, bool)> {
        self.0.listens()
            + self.1.listens()
            + self.2.listens()
            + self.3.listens()
            + self.4.listens()
            + self.5.listens()
            + self.6.listens()
            + self.7.listens()
            + self.8.listens()
            + self.9.listens()
            + self.10.listens()
            + self.11.listens()
            + self.12.listens()
            + self.13.listens()
    }

    fn init_read_write(&self, rw: &mut ReadWrite) {
        self.0.init_read_write(rw);
        self.1.init_read_write(rw);
        proof {
            assert(rw.withouts@ =~= old(rw).withouts@ + (self.0.withouts() + self.1.withouts()));
            assert(rw.listeners@ =~= old(rw).listeners@ + (self.0.listens() + self.1.listens()));
        }
        self.2.init_read_write(rw);
        proof {
            assert(rw.withouts@ =~= old(rw).withouts@ + (self.0.withouts() + self.1.withouts() + self.2.withouts()));
            assert(rw.listeners@ =~= old(rw).listeners@ + (self.0.listens() + self.1.listens() + self.2.listens()));
        }
        self.3.init_read_write(rw);
        proof {
            assert(rw.withouts@ =~= old(rw).withouts@ + (self.0.withouts() + self.1.withouts() + self.2.withouts() + self.3.withouts()));
            assert(rw.listeners@ =~= old(rw).listeners@ + (self.0.listens() + self.1.listens() + self.2.listens() + self.3.listens()));
        }
        self.4.init_read_write(rw);
        proof {
            assert(rw.withouts@ =~= old(rw).withouts@ + (self.0.withouts() + self.1.withouts() + self.2.withouts() + self.3.withouts() + self.4.withouts()));
            assert(rw.listeners@ =~= old(rw).listeners@ + (self.0.listens() + self.1.listens() + self.2.listens() + self.3.listens() + self.4.listens()));
        }
        self.5.init_read_write(rw);
        proof {
            assert(rw.withouts@ =~= old(rw).withouts@ + (self.0.withouts() + self.1.withouts() + self.2.withouts() + self.3.withouts() + self.4.withouts() + self.5.withouts()));
            assert(rw.listeners@ =~= old(rw).listeners@ + (self.0.listens() + self.1.listens() + self.2.listens() + self.3.listens() + self.4.listens() + self.5.listens()));
        }
        self.6.init_read_write(rw);
        proof {
            assert(rw.withouts@ =~= old(rw).withouts@ + (self.0.withouts() + self.1.withouts() + self.2.withouts() + self.3.withouts() + self.4.withouts() + self.5.withouts() + self.6.withouts()));
            assert(rw.listeners@ =~= old(rw).listeners@ + (self.0.listens() + self.1.listens() + self.2.listens() + self.3.listens() + self.4.listens() + self.5.listens() + self.6.listens()));
        }
        self.7.init_read_write(rw);
        proof {
            assert(rw.withouts@ =~= old(rw).withouts@ + (self.0.withouts() + self.1.withouts() + self.2.withouts() + self.3.withouts() + self.4.withouts() + self.5.withouts() + self.6.withouts() + self.7.withouts()));
            assert(rw.listeners@ =~= old(rw).listeners@ + (self.0.listens() + self.1.listens() + self.2.listens() + self.3.listens() + self.4.listens() + self.5.listens() + self.6.listens() + self.7.listens()));
        }
        self.8.init_read_write(rw);
        proof {
            assert(rw.withouts@ =~= old(rw).withouts@ + (self.0.withouts() + self.1.withouts() + self.2.withouts() + self.3.withouts() + self.4.withouts() + self.5.withouts() + self.6.withouts() + self.7.withouts() + self.8.withouts()));
            assert(rw.listeners@ =~= old(rw).listeners@ + (self.0.listens() + self.1.listens() + self.2.listens() + self.3.listens() + self.4.listens() + self.5.listens() + self.6.listens() + self.7.listens() + self.8.listens()));
        }
        self.9.init_read_write(rw);
        proof {
            assert(rw.withouts@ =~= old(rw).withouts@ + (self.0.withouts() + self.1.withouts() + self.2.withouts() + self.3.withouts() + self.4.withouts() + self.5.withouts() + self.6.withouts() + self.7.withouts() + self.8.withouts() + self.9.withouts()));
            assert(rw.listeners@ =~= old(rw).listeners@ + (self.0.listens() + self.1.listens() + self.2.listens() + self.3.listens() + self.4.listens() + self.5.listens() + self.6.listens() + self.7.listens() + self.8.listens() + self.9.listens()));
        }
        self.10.init_read_write(rw);
        proof {
            assert(rw.withouts@ =~= old(rw).withouts@ + (self.0.withouts() + self.1.withouts() + self.2.withouts() + self.3.withouts() + self.4.withouts() + self.5.withouts() + self.6.withouts() + self.7.withouts() + self.8.withouts() + self.9.withouts() + self.10.withouts()));
            assert(rw.listeners@ =~= old(rw).listeners@ + (self.0.listens() + self.1.listens() + self.2.listens() + self.3.listens() + self.4.listens() + self.5.listens() + self.6.listens() + self.7.listens() + self.8.listens() + self.9.listens() + self.10.listens()));
        }
        self.11.init_read_write(rw);
        proof {
            assert(rw.withouts@ =~= old(rw).withouts@ + (self.0.withouts() + self.1.withouts() + self.2.withouts() + self.3.withouts() + self.4.withouts() + self.5.withouts() + self.6.withouts() + self.7.withouts() + self.8.withouts() + self.9.withouts() + self.10.withouts() + self.11.withouts()));
            assert(rw.listeners@ =~= old(rw).listeners@ + (self.0.listens() + self.1.listens() + self.2.listens() + self.3.listens() + self.4.listens() + self.5.listens() + self.6.listens() + self.7.listens() + self.8.listens() + self.9.listens() + self.10.listens() + self.11.listens()));
        }
        self.12.init_read_write(rw);
        proof {
            assert(rw.withouts@ =~= old(rw).withouts@ + (self.0.withouts() + self.1.withouts() + self.2.withouts() + self.3.withouts() + self.4.withouts() + self.5.withouts() + self.6.withouts() + self.7.withouts() + self.8.withouts() + self.9.withouts() + self.10.withouts() + self.11.withouts() + self.12.withouts()));
            assert(rw.listeners@ =~= old(rw).listeners@ + (self.0.listens() + self.1.listens() + self.2.listens() + self.3.listens() + self.4.listens() + self.5.listens() + self.6.listens() + self.7.listens() + self.8.listens() + self.9.listens() + self.10.listens() + self.11.listens() + self.12.listens()));
        }
        self.13.init_read_write(rw);
        proof {
            assert(rw.withouts@ =~= old(rw).withouts@ + (self.0.withouts() + self.1.withouts() + self.2.withouts() + self.3.withouts() + self.4.withouts() + self.5.withouts() + self.6.withouts() + self.7.withouts() + self.8.withouts() + self.9.withouts() + self.10.withouts() + self.11.withouts() + self.12.withouts() + self.13.withouts()));
            assert(rw.listeners@ =~= old(rw).listeners@ + (self.0.listens() + self.1.listens() + self.2.listens() + self.3.listens() + self.4.listens() + self.5.listens() + self.6.listens() + self.7.listens() + self.8.listens() + self.9.listens() + self.10.listens() + self.11.listens() + self.12.listens() + self.13.listens()));
        }
    }

    fn rejection(&self) -> (r: Reject) {
        let r0 = self.0.rejection();
        let x1 = self.1.rejection();
        let ghost g0 = r0;
        let ghost h1 = x1;
        let r1 = Reject::Either(Box::new(r0), Box::new(x1));
        proof {
            assert forall|columns: Seq<ComponentInfo>| #[trigger]
                r1.holds(columns) == (self.0.rejects(columns) || self.1.rejects(columns)) by {
                assert(r1.holds(columns) == (g0.holds(columns) || h1.holds(columns)));
            }
        }
        let x2 = self.2.rejection();
        let ghost g1 = r1;
        let ghost h2 = x2;
        let r2 = Reject::Either(Box::new(r1), Box::new(x2));
        proof {
            assert forall|columns: Seq<ComponentInfo>| #[trigger]
                r2.holds(columns) == (self.0.rejects(columns) || self.1.rejects(columns) || self.2.rejects(columns)) by {
                assert(r2.holds(columns) == (g1.holds(columns) || h2.holds(columns)));
            }
        }
        let x3 = self.3.rejection();
        let ghost g2 = r2;
        let ghost h3 = x3;
        let r3 = Reject::Either(Box::new(r2), Box::new(x3));
        proof {
            assert forall|columns: Seq<ComponentInfo>| #[trigger]
                r3.holds(columns) == (self.0.rejects(columns) || self.1.rejects(columns) || self.2.rejects(columns) || self.3.rejects(columns)) by {
                assert(r3.holds(columns) == (g2.holds(columns) || h3.holds(columns)));
            }
        }
        let x4 = self.4.rejection();
        let ghost g3 = r3;
        let ghost h4 = x4;
        let r4 = Reject::Either(Box::new(r3), Box::new(x4));
        proof {
            assert forall|columns: Seq<ComponentInfo>| #[trigger]
                r4.holds(columns) == (self.0.rejects(columns) || self.1.rejects(columns) || self.2.rejects(columns) || self.3.rejects(columns) || self.4.rejects(columns)) by {
                assert(r4.holds(columns) == (g3.holds(columns) || h4.holds(columns)));
            }
        }
        let x5 = self.5.rejection();
        let ghost g4 = r4;
        let ghost h5 = x5;
        let r5 = Reject::Either(Box::new(r4), Box::new(x5));
        proof {
            assert forall|columns: Seq<ComponentInfo>| #[trigger]
                r5.holds(columns) == (self.0.rejects(columns) || self.1.rejects(columns) || self.2.rejects(columns) || self.3.rejects(columns) || self.4.rejects(columns) || self.5.rejects(columns)) by {
                assert(r5.holds(columns) == (g4.holds(columns) || h5.holds(columns)));
            }
        }
        let x6 = self.6.rejection();
        let ghost g5 = r5;
        let ghost h6 = x6;
        let r6 = Reject::Either(Box::new(r5), Box::new(x6));
        proof {
            assert forall|columns: Seq<ComponentInfo>| #[trigger]
                r6.holds(columns) == (self.0.rejects(columns) || self.1.rejects(columns) || self.2.rejects(columns) || self.3.rejects(columns) || self.4.rejects(columns) || self.5.rejects(columns) || self.6.rejects(columns)) by {
                assert(r6.holds(columns) == (g5.holds(columns) || h6.holds(columns)));
            }
        }
        let x7 = self.7.rejection();
        let ghost g6 = r6;
        let ghost h7 = x7;
        let r7 = Reject::Either(Box::new(r6), Box::new(x7));
        proof {
            assert forall|columns: Seq<ComponentInfo>| #[trigger]
                r7.holds(columns) == (self.0.rejects(columns) || self.1.rejects(columns) || self.2.rejects(columns) || self.3.rejects(columns) || self.4.rejects(columns) || self.5.rejects(columns) || self.6.rejects(columns) || self.7.rejects(columns)) by {
                assert(r7.holds(columns) == (g6.holds(columns) || h7.holds(columns)));
            }
        }
        let x8 = self.8.rejection();
        let ghost g7 = r7;
        let ghost h8 = x8;
        let r8 = Reject::Either(Box::new(r7), Box::new(x8));
        proof {
            assert forall|columns: Seq<ComponentInfo>| #[trigger]
                r8.holds(columns) == (self.0.rejects(columns) || self.1.rejects(columns) || self.2.rejects(columns) || self.3.rejects(columns) || self.4.rejects(columns) || self.5.rejects(columns) || self.6.rejects(columns) || self.7.rejects(columns) || self.8.rejects(columns)) by {
                assert(r8.holds(columns) == (g7.holds(columns) || h8.holds(columns)));
            }
        }
        let x9 = self.9.rejection();
        let ghost g8 = r8;
        let ghost h9 = x9;
        let r9 = Reject::Either(Box::new(r8), Box::new(x9));
        proof {
            assert forall|columns: Seq<ComponentInfo>| #[trigger]
                r9.holds(columns) == (self.0.rejects(columns) || self.1.rejects(columns) || self.2.rejects(columns) || self.3.rejects(columns) || self.4.rejects(columns) || self.5.rejects(columns) || self.6.rejects(columns) || self.7.rejects(columns) || self.8.rejects(columns) || self.9.rejects(columns)) by {
                assert(r9.holds(columns) == (g8.holds(columns) || h9.holds(columns)));
            }
        }
        let x10 = self.10.rejection();
        let ghost g9 = r9;
        let ghost h10 = x10;
        let r10 = Reject::Either(Box::new(r9), Box::new(x10));
        proof {
            assert forall|columns: Seq<ComponentInfo>| #[trigger]
                r10.holds(columns) == (self.0.rejects(columns) || self.1.rejects(columns) || self.2.rejects(columns) || self.3.rejects(columns) || self.4.rejects(columns) || self.5.rejects(columns) || self.6.rejects(columns) || self.7.rejects(columns) || self.8.rejects(columns) || self.9.rejects(columns) || self.10.rejects(columns)) by {
                assert(r10.holds(columns) == (g9.holds(columns) || h10.holds(columns)));
            }
        }
        let x11 = self.11.rejection();
        let ghost g10 = r10;
        let ghost h11 = x11;
        let r11 = Reject::Either(Box::new(r10), Box::new(x11));
        proof {
            assert forall|columns: Seq<ComponentInfo>| #[trigger]
                r11.holds(columns) == (self.0.rejects(columns) || self.1.rejects(columns) || self.2.rejects(columns) || self.3.rejects(columns) || self.4.rejects(columns) || self.5.rejects(columns) || self.6.rejects(columns) || self.7.rejects(columns) || self.8.rejects(columns) || self.9.rejects(columns) || self.10.rejects(columns) || self.11.rejects(columns)) by {
                assert(r11.holds(columns) == (g10.holds(columns) || h11.holds(columns)));
            }
        }
        let x12 = self.12.rejection();
        let ghost g11 = r11;
        let ghost h12 = x12;
        let r12 = Reject::Either(Box::new(r11), Box::new(x12));
        proof {
            assert forall|columns: Seq<ComponentInfo>| #[trigger]
                r12.holds(columns) == (self.0.rejects(columns) || self.1.rejects(columns) || self.2.rejects(columns) || self.3.rejects(columns) || self.4.rejects(columns) || self.5.rejects(columns) || self.6.rejects(columns) || self.7.rejects(columns) || self.8.rejects(columns) || self.9.rejects(columns) || self.10.rejects(columns) || self.11.rejects(columns) || self.12.rejects(columns)) by {
                assert(r12.holds(columns) == (g11.holds(columns) || h12.holds(columns)));
            }
        }
        let x13 = self.13.rejection();
        let ghost g12 = r12;
        let ghost h13 = x13;
        let r13 = Reject::Either(Box::new(r12), Box::new(x13));
        proof {
            assert forall|columns: Seq<ComponentInfo>| #[trigger]
                r13.holds(columns) == (self.0.rejects(columns) || self.1.rejects(columns) || self.2.rejects(columns) || self.3.rejects(columns) || self.4.rejects(columns) || self.5.rejects(columns) || self.6.rejects(columns) || self.7.rejects(columns) || self.8.rejects(columns) || self.9.rejects(columns) || self.10.rejects(columns) || self.11.rejects(columns) || self.12.rejects(columns) || self.13.rejects(columns)) by {
                assert(r13.holds(columns) == (g12.holds(columns) || h13.holds(columns)));
            }
        }
        r13
    }

    fn archetype_filter(&self, archetype: &Archetype) -> (r: bool) {
        if self.0.archetype_filter(archetype) {
            return true;
        }
        if self.1.archetype_filter(archetype) {
            return true;
        }
        if self.2.archetype_filter(archetype) {
            return true;
        }
        if self.3.archetype_filter(archetype) {
            return true;
        }
        if self.4.archetype_filter(archetype) {
            return true;
        }
        if self.5.archetype_filter(archetype) {
            return true;
        }
        if self.6.archetype_filter(archetype) {
            return true;
        }
        if self.7.archetype_filter(archetype) {
            return true;
        }
        if self.8.archetype_filter(archetype) {
            return true;
        }
        if self.9.archetype_filter(archetype) {
            return true;
        }
        if self.10.archetype_filter(archetype) {
            return true;
        }
        if self.11.archetype_filter(archetype) {
            return true;
        }
        if self.12.archetype_filter(archetype) {
            return true;
        }
        self.13.archetype_filter(archetype)
    }
}

/// 14 conditions under an `Or` fail together only: one that holds is
/// enough.
impl<A: FilterArchetype, B: FilterArchetype, C: FilterArchetype, D: FilterArchetype, E: FilterArchetype, F: FilterArchetype, G: FilterArchetype, H: FilterArchetype, I: FilterArchetype, J: FilterArchetype, K: FilterArchetype, L: FilterArchetype, M: FilterArchetype, N: FilterArchetype> FilterArchetype for (A, B, C, D, E, F, G, H, I, J, K, L, M, N) {
    open spec fn lacks(&self, columns: Seq<ComponentInfo>) -> bool {
        self.0.lacks(columns)
            && self.1.lacks(columns)
            && self.2.lacks(columns)
            && self.3.lacks(columns)
            && self.4.lacks(columns)
            && self.5.lacks(columns)
            && self.6.lacks(columns)
            && self.7.lacks(columns)
            && self.8.lacks(columns)
            && self.9.lacks(columns)
            && self.10.lacks(columns)
            && self.11.lacks(columns)
            && self.12.lacks(columns)
            && self.13.lacks(columns)
    }

    fn lack_rule(&self) -> (r: Reject) {
        let r0 = self.0.lack_rule();
        let x1 = self.1.lack_rule();
        let ghost g0 = r0;
        let ghost h1 = x1;
        let r1 = Reject::Both(Box::new(r0), Box::new(x1));
        proof {
            assert forall|columns: Seq<ComponentInfo>| #[trigger]
                r1.holds(columns) == (self.0.lacks(columns) && self.1.lacks(columns)) by {
                assert(r1.holds(columns) == (g0.holds(columns) && h1.holds(columns)));
            }
        }
        let x2 = self.2.lack_rule();
        let ghost g1 = r1;
        let ghost h2 = x2;
        let r2 = Reject::Both(Box::new(r1), Box::new(x2));
        proof {
            assert forall|columns: Seq<ComponentInfo>| #[trigger]
                r2.holds(columns) == (self.0.lacks(columns) && self.1.lacks(columns) && self.2.lacks(columns)) by {
                assert(r2.holds(columns) == (g1.holds(columns) && h2.holds(columns)));
            }
        }
        let x3 = self.3.lack_rule();
        let ghost g2 = r2;
        let ghost h3 = x3;
        let r3 = Reject::Both(Box::new(r2), Box::new(x3));
        proof {
            assert forall|columns: Seq<ComponentInfo>| #[trigger]
                r3.holds(columns) == (self.0.lacks(columns) && self.1.lacks(columns) && self.2.lacks(columns) && self.3.lacks(columns)) by {
                assert(r3.holds(columns) == (g2.holds(columns) && h3.holds(columns)));
            }
        }
        let x4 = self.4.lack_rule();
        let ghost g3 = r3;
        let ghost h4 = x4;
        let r4 = Reject::Both(Box::new(r3), Box::new(x4));
        proof {
            assert forall|columns: Seq<ComponentInfo>| #[trigger]
                r4.holds(columns) == (self.0.lacks(columns) && self.1.lacks(columns) && self.2.lacks(columns) && self.3.lacks(columns) && self.4.lacks(columns)) by {
                assert(r4.holds(columns) == (g3.holds(columns) && h4.holds(columns)));
            }
        }
        let x5 = self.5.lack_rule();
        let ghost g4 = r4;
        let ghost h5 = x5;
        let r5 = Reject::Both(Box::new(r4), Box::new(x5));
        proof {
            assert forall|columns: Seq<ComponentInfo>| #[trigger]
                r5.holds(columns) == (self.0.lacks(columns) && self.1.lacks(columns) && self.2.lacks(columns) && self.3.lacks(columns) && self.4.lacks(columns) && self.5.lacks(columns)) by {
                assert(r5.holds(columns) == (g4.holds(columns) && h5.holds(columns)));
            }
        }
        let x6 = self.6.lack_rule();
        let ghost g5 = r5;
        let ghost h6 = x6;
        let r6 = Reject::Both(Box::new(r5), Box::new(x6));
        proof {
            assert forall|columns: Seq<ComponentInfo>| #[trigger]
                r6.holds(columns) == (self.0.lacks(columns) && self.1.lacks(columns) && self.2.lacks(columns) && self.3.lacks(columns) && self.4.lacks(columns) && self.5.lacks(columns) && self.6.lacks(columns)) by {
                assert(r6.holds(columns) == (g5.holds(columns) && h6.holds(columns)));
            }
        }
        let x7 = self.7.lack_rule();
        let ghost g6 = r6;
        let ghost h7 = x7;
        let r7 = Reject::Both(Box::new(r6), Box::new(x7));
        proof {
            assert forall|columns: Seq<ComponentInfo>| #[trigger]
                r7.holds(columns) == (self.0.lacks(columns) && self.1.lacks(columns) && self.2.lacks(columns) && self.3.lacks(columns) && self.4.lacks(columns) && self.5.lacks(columns) && self.6.lacks(columns) && self.7.lacks(columns)) by {
                assert(r7.holds(columns) == (g6.holds(columns) && h7.holds(columns)));
            }
        }
        let x8 = self.8.lack_rule();
        let ghost g7 = r7;
        let ghost h8 = x8;
        let r8 = Reject::Both(Box::new(r7), Box::new(x8));
        proof {
            assert forall|columns: Seq<ComponentInfo>| #[trigger]
                r8.holds(columns) == (self.0.lacks(columns) && self.1.lacks(columns) && self.2.lacks(columns) && self.3.lacks(columns) && self.4.lacks(columns) && self.5.lacks(columns) && self.6.lacks(columns) && self.7.lacks(columns) && self.8.lacks(columns)) by {
                assert(r8.holds(columns) == (g7.holds(columns) && h8.holds(columns)));
            }
        }
        let x9 = self.9.lack_rule();
        let ghost g8 = r8;
        let ghost h9 = x9;
        let r9 = Reject::Both(Box::new(r8), Box::new(x9));
        proof {
            assert forall|columns: Seq<ComponentInfo>| #[trigger]
                r9.holds(columns) == (self.0.lacks(columns) && self.1.lacks(columns) && self.2.lacks(columns) && self.3.lacks(columns) && self.4.lacks(columns) && self.5.lacks(columns) && self.6.lacks(columns) && self.7.lacks(columns) && self.8.lacks(columns) && self.9.lacks(columns)) by {
                assert(r9.holds(columns) == (g8.holds(columns) && h9.holds(columns)));
            }
        }
        let x10 = self.10.lack_rule();
        let ghost g9 = r9;
        let ghost h10 = x10;
        let r10 = Reject::Both(Box::new(r9), Box::new(x10));
        proof {
            assert forall|columns: Seq<ComponentInfo>| #[trigger]
                r10.holds(columns) == (self.0.lacks(columns) && self.1.lacks(columns) && self.2.lacks(columns) && self.3.lacks(columns) && self.4.lacks(columns) && self.5.lacks(columns) && self.6.lacks(columns) && self.7.lacks(columns) && self.8.lacks(columns) && self.9.lacks(columns) && self.10.lacks(columns)) by {
                assert(r10.holds(columns) == (g9.holds(columns) && h10.holds(columns)));
            }
        }
        let x11 = self.11.lack_rule();
        let ghost g10 = r10;
        let ghost h11 = x11;
        let r11 = Reject::Both(Box::new(r10), Box::new(x11));
        proof {
            assert forall|columns: Seq<ComponentInfo>| #[trigger]
                r11.holds(columns) == (self.0.lacks(columns) && self.1.lacks(columns) && self.2.lacks(columns) && self.3.lacks(columns) && self.4.lacks(columns) && self.5.lacks(columns) && self.6.lacks(columns) && self.7.lacks(columns) && self.8.lacks(columns) && self.9.lacks(columns) && self.10.lacks(columns) && self.11.lacks(columns)) by {
                assert(r11.holds(columns) == (g10.holds(columns) && h11.holds(columns)));
            }
        }
        let x12 = self.12.lack_rule();
        let ghost g11 = r11;
        let ghost h12 = x12;
        let r12 = Reject::Both(Box::new(r11), Box::new(x12));
        proof {
            assert forall|columns: Seq<ComponentInfo>| #[trigger]
                r12.holds(columns) == (self.0.lacks(columns) && self.1.lacks(columns) && self.2.lacks(columns) && self.3.lacks(columns) && self.4.lacks(columns) && self.5.lacks(columns) && self.6.lacks(columns) && self.7.lacks(columns) && self.8.lacks(columns) && self.9.lacks(columns) && self.10.lacks(columns) && self.11.lacks(columns) && self.12.lacks(columns)) by {
                assert(r12.holds(columns) == (g11.holds(columns) && h12.holds(columns)));
            }
        }
        let x13 = self.13.lack_rule();
        let ghost g12 = r12;
        let ghost h13 = x13;
        let r13 = Reject::Both(Box::new(r12), Box::new(x13));
        proof {
            assert forall|columns: Seq<ComponentInfo>| #[trigger]
                r13.holds(columns) == (self.0.lacks(columns) && self.1.lacks(columns) && self.2.lacks(columns) && self.3.lacks(columns) && self.4.lacks(columns) && self.5.lacks(columns) && self.6.lacks(columns) && self.7.lacks(columns) && self.8.lacks(columns) && self.9.lacks(columns) && self.10.lacks(columns) && self.11.lacks(columns) && self.12.lacks(columns) && self.13.lacks(columns)) by {
                assert(r13.holds(columns) == (g12.holds(columns) && h13.holds(columns)));
            }
        }
        r13
    }

    fn filter_archetype(&self, archetype: &Archetype) -> (r: bool) {
        if !self.0.filter_archetype(archetype) {
            return false;
        }
        if !self.1.filter_archetype(archetype) {
            return false;
        }
        if !self.2.filter_archetype(archetype) {
            return false;
        }
        if !self.3.filter_archetype(archetype) {
            return false;
        }
        if !self.4.filter_archetype(archetype) {
            return false;
        }
        if !self.5.filter_archetype(archetype) {
            return false;
        }
        if !self.6.filter_archetype(archetype) {
            return false;
        }
        if !self.7.filter_archetype(archetype) {
            return false;
        }
        if !self.8.filter_archetype(archetype) {
            return false;
        }
        if !self.9.filter_archetype(archetype) {
            return false;
        }
        if !self.10.filter_archetype(archetype) {
            return false;
        }
        if !self.11.filter_archetype(archetype) {
            return false;
        }
        if !self.12.filter_archetype(archetype) {
            return false;
        }
        if !self.13.filter_archetype(archetype) {
            return false;
        }
        true
    }
}

/// 15 filters together reject what one of them rejects, and listen on
/// what any of them listens on.
impl<A: FilterComponents, B: FilterComponents, C: FilterComponents, D: FilterComponents, E: FilterComponents, F: FilterComponents, G: FilterComponents, H: FilterComponents, I: FilterComponents, J: FilterComponents, K: FilterComponents, L: FilterComponents, M: FilterComponents, N: FilterComponents, O: FilterComponents> FilterComponents for (A, B, C, D, E, F, G, H, I, J, K, L, M, N, O) {
    open spec fn rejects(&self, columns: Seq<ComponentInfo>) -> bool {
        self.0.rejects(columns)
            || self.1.rejects(columns)
            || self.2.rejects(columns)
            || self.3.rejects(columns)
            || self.4.rejects(columns)
            || self.5.rejects(columns)
            || self.6.rejects(columns)
            || self.7.rejects(columns)
            || self.8.rejects(columns)
            || self.9.rejects(columns)
            || self.10.rejects(columns)
            || self.11.rejects(columns)
            || self.12.rejects(columns)
            || self.13.rejects(columns)
            || self.14.rejects(columns)
    }

    open spec fn withouts(&self) -> Seq<ComponentIndex> {
        self.0.withouts()
            + self.1.withouts()
            + self.2.withouts()
            + self.3.withouts()
            + self.4.withouts()
            + self.5.withouts()
            + self.6.withouts()
            + self.7.withouts()
            + self.8.withouts()
            + self.9.withouts()
            + self.10.withouts()
            + self.11.withouts()
            + self.12.withouts()
            + self.13.withouts()
            + self.14.withouts()
    }

    open spec fn listens(&self) -> Seq<(ComponentIndex, bool)> {
        self.0.listens()
            + self.1.listens()
            + self.2.listens()
            + self.3.listens()
            + self.4.listens()
            + self.5.listens()
            + self.6.listens()
            + self.7.listens()
            + self.8.listens()
            + self.9.listens()
            + self.10.listens()
            + self.11.listens()
            + self.12.listens()
            + self.13.listens()
            + self.14.listens()
    }

    fn init_read_write(&self, rw: &mut ReadWrite) {
        self.0.init_read_write(rw);
        self.1.init_read_write(rw);
        proof {
            assert(rw.withouts@ =~= old(rw).withouts@ + (self.0.withouts() + self.1.withouts()));
            assert(rw.listeners@ =~= old(rw).listeners@ + (self.0.listens() + self.1.listens()));
        }
        self.2.init_read_write(rw);
        proof {
            assert(rw.withouts@ =~= old(rw).withouts@ + (self.0.withouts() + self.1.withouts() + self.2.withouts()));
            assert(rw.listeners@ =~= old(rw).listeners@ + (self.0.listens() + self.1.listens() + self.2.listens()));
        }
        self.3.init_read_write(rw);
        proof {
            assert(rw.withouts@ =~= old(rw).withouts@ + (self.0.withouts() + self.1.withouts() + self.2.withouts() + self.3.withouts()));
            assert(rw.listeners@ =~= old(rw).listeners@ + (self.0.listens() + self.1.listens() + self.2.listens() + self.3.listens()));
        }
        self.4.init_read_write(rw);
        proof {
            assert(rw.withouts@ =~= old(rw).withouts@ + (self.0.withouts() + self.1.withouts() + self.2.withouts() + self.3.withouts() + self.4.withouts()));
            assert(rw.listeners@ =~= old(rw).listeners@ + (self.0.listens() + self.1.listens() + self.2.listens() + self.3.listens() + self.4.listens()));
        }
        self.5.init_read_write(rw);
        proof {
            assert(rw.withouts@ =~= old(rw).withouts@ + (self.0.withouts() + self.1.withouts() + self.2.withouts() + self.3.withouts() + self.4.withouts() + self.5.withouts()));
            assert(rw.listeners@ =~= old(rw).listeners@ + (self.0.listens() + self.1.listens() + self.2.listens() + self.3.listens() + self.4.listens() + self.5.listens()));
        }
        self.6.init_read_write(rw);
        proof {
            assert(rw.withouts@ =~= old(rw).withouts@ + (self.0.withouts() + self.1.withouts() + self.2.withouts() + self.3.withouts() + self.4.withouts() + self.5.withouts() + self.6.withouts()));
            assert(rw.listeners@ =~= old(rw).listeners@ + (self.0.listens() + self.1.listens() + self.2.listens() + self.3.listens() + self.4.listens() + self.5.listens() + self.6.listens()));
        }
        self.7.init_read_write(rw);
        proof {
            assert(rw.withouts@ =~= old(rw).withouts@ + (self.0.withouts() + self.1.withouts() + self.2.withouts() + self.3.withouts() + self.4.withouts() + self.5.withouts() + self.6.withouts() + self.7.withouts()));
            assert(rw.listeners@ =~= old(rw).listeners@ + (self.0.listens() + self.1.listens() + self.2.listens() + self.3.listens() + self.4.listens() + self.5.listens() + self.6.listens() + self.7.listens()));
        }
        self.8.init_read_write(rw);
        proof {
            assert(rw.withouts@ =~= old(rw).withouts@ + (self.0.withouts() + self.1.withouts() + self.2.withouts() + self.3.withouts() + self.4.withouts() + self.5.withouts() + self.6.withouts() + self.7.withouts() + self.8.withouts()));
            assert(rw.listeners@ =~= old(rw).listeners@ + (self.0.listens() + self.1.listens() + self.2.listens() + self.3.listens() + self.4.listens() + self.5.listens() + self.6.listens() + self.7.listens() + self.8.listens()));
        }
        self.9.init_read_write(rw);
        proof {
            assert(rw.withouts@ =~= old(rw).withouts@ + (self.0.withouts() + self.1.withouts() + self.2.withouts() + self.3.withouts() + self.4.withouts() + self.5.withouts() + self.6.withouts() + self.7.withouts() + self.8.withouts() + self.9.withouts()));
            assert(rw.listeners@ =~= old(rw).listeners@ + (self.0.listens() + self.1.listens() + self.2.listens() + self.3.listens() + self.4.listens() + self.5.listens() + self.6.listens() + self.7.listens() + self.8.listens() + self.9.listens()));
        }
        self.10.init_read_write(rw);
        proof {
            assert(rw.withouts@ =~= old(rw).withouts@ + (self.0.withouts() + self.1.withouts() + self.2.withouts() + self.3.withouts() + self.4.withouts() + self.5.withouts() + self.6.withouts() + self.7.withouts() + self.8.withouts() + self.9.withouts() + self.10.withouts()));
            assert(rw.listeners@ =~= old(rw).listeners@ + (self.0.listens() + self.1.listens() + self.2.listens() + self.3.listens() + self.4.listens() + self.5.listens() + self.6.listens() + self.7.listens() + self.8.listens() + self.9.listens() + self.10.listens()));
        }
        self.11.init_read_write(rw);
        proof {
            assert(rw.withouts@ =~= old(rw).withouts@ + (self.0.withouts() + self.1.withouts() + self.2.withouts() + self.3.withouts() + self.4.withouts() + self.5.withouts() + self.6.withouts() + self.7.withouts() + self.8.withouts() + self.9.withouts() + self.10.withouts() + self.11.withouts()));
            assert(rw.listeners@ =~= old(rw).listeners@ + (self.0.listens() + self.1.listens() + self.2.listens() + self.3.listens() + self.4.listens() + self.5.listens() + self.6.listens() + self.7.listens() + self.8.listens() + self.9.listens() + self.10.listens() + self.11.listens()));
        }
        self.12.init_read_write(rw);
        proof {
            assert(rw.withouts@ =~= old(rw).withouts@ + (self.0.withouts() + self.1.withouts() + self.2.withouts() + self.3.withouts() + self.4.withouts() + self.5.withouts() + self.6.withouts() + self.7.withouts() + self.8.withouts() + self.9.withouts() + self.10.withouts() + self.11.withouts() + self.12.withouts()));
            assert(rw.listeners@ =~= old(rw).listeners@ + (self.0.listens() + self.1.listens() + self.2.listens() + self.3.listens() + self.4.listens() + self.5.listens() + self.6.listens() + self.7.listens() + self.8.listens() + self.9.listens() + self.10.listens() + self.11.listens() + self.12.listens()));
        }
        self.13.init_read_write(rw);
        proof {
            assert(rw.withouts@ =~= old(rw).withouts@ + (self.0.withouts() + self.1.withouts() + self.2.withouts() + self.3.withouts() + self.4.withouts() + self.5.withouts() + self.6.withouts() + self.7.withouts() + self.8.withouts() + self.9.withouts() + self.10.withouts() + self.11.withouts() + self.12.withouts() + self.13.withouts()));
            assert(rw.listeners@ =~= old(rw).listeners@ + (self.0.listens() + self.1.listens() + self.2.listens() + self.3.listens() + self.4.listens() + self.5.listens() + self.6.listens() + self.7.listens() + self.8.listens() + self.9.listens() + self.10.listens() + self.11.listens() + self.12.listens() + self.13.listens()));
        }
        self.14.init_read_write(rw);
        proof {
            assert(rw.withouts@ =~= old(rw).withouts@ + (self.0.withouts() + self.1.withouts() + self.2.withouts() + self.3.withouts() + self.4.withouts() + self.5.withouts() + self.6.withouts() + self.7.withouts() + self.8.withouts() + self.9.withouts() + self.10.withouts() + self.11.withouts() + self.12.withouts() + self.13.withouts() + self.14.withouts()));
            assert(rw.listeners@ =~= old(rw).listeners@ + (self.0.listens() + self.1.listens() + self.2.listens() + self.3.listens() + self.4.listens() + self.5.listens() + self.6.listens() + self.7.listens() + self.8.listens() + self.9.listens() + self.10.listens() + self.11.listens() + self.12.listens() + self.13.listens() + self.14.listens()));
        }
    }

    fn rejection(&self) -> (r: Reject) {
        let r0 = self.0.rejection();
        let x1 = self.1.rejection();
        let ghost g0 = r0;
        let ghost h1 = x1;
        let r1 = Reject::Either(Box::new(r0), Box::new(x1));
        proof {
            assert forall|columns: Seq<ComponentInfo>| #[trigger]
                r1.holds(columns) == (self.0.rejects(columns) || self.1.rejects(columns)) by {
                assert(r1.holds(columns) == (g0.holds(columns) || h1.holds(columns)));
            }
        }
        let x2 = self.2.rejection();
        let ghost g1 = r1;
        let ghost h2 = x2;
        let r2 = Reject::Either(Box::new(r1), Box::new(x2));
        proof {
            assert forall|columns: Seq<ComponentInfo>| #[trigger]
                r2.holds(columns) == (self.0.rejects(columns) || self.1.rejects(columns) || self.2.rejects(columns)) by {
                assert(r2.holds(columns) == (g1.holds(columns) || h2.holds(columns)));
            }
        }
        let x3 = self.3.rejection();
        let ghost g2 = r2;
        let ghost h3 = x3;
        let r3 = Reject::Either(Box::new(r2), Box::new(x3));
        proof {
            assert forall|columns: Seq<ComponentInfo>| #[trigger]
                r3.holds(columns) == (self.0.rejects(columns) || self.1.rejects(columns) || self.2.rejects(columns) || self.3.rejects(columns)) by {
                assert(r3.holds(columns) == (g2.holds(columns) || h3.holds(columns)));
            }
        }
        let x4 = self.4.rejection();
        let ghost g3 = r3;
        let ghost h4 = x4;
        let r4 = Reject::Either(Box::new(r3), Box::new(x4));
        proof {
            assert forall|columns: Seq<ComponentInfo>| #[trigger]
                r4.holds(columns) == (self.0.rejects(columns) || self.1.rejects(columns) || self.2.rejects(columns) || self.3.rejects(columns) || self.4.rejects(columns)) by {
                assert(r4.holds(columns) == (g3.holds(columns) || h4.holds(columns)));
            }
        }
        let x5 = self.5.rejection();
        let ghost g4 = r4;
        let ghost h5 = x5;
        let r5 = Reject::Either(Box::new(r4), Box::new(x5));
        proof {
            assert forall|columns: Seq<ComponentInfo>| #[trigger]
                r5.holds(columns) == (self.0.rejects(columns) || self.1.rejects(columns) || self.2.rejects(columns) || self.3.rejects(columns) || self.4.rejects(columns) || self.5.rejects(columns)) by {
                assert(r5.holds(columns) == (g4.holds(columns) || h5.holds(columns)));
            }
        }
        let x6 = self.6.rejection();
        let ghost g5 = r5;
        let ghost h6 = x6;
        let r6 = Reject::Either(Box::new(r5), Box::new(x6));
        proof {
            assert forall|columns: Seq<ComponentInfo>| #[trigger]
                r6.holds(columns) == (self.0.rejects(columns) || self.1.rejects(columns) || self.2.rejects(columns) || self.3.rejects(columns) || self.4.rejects(columns) || self.5.rejects(columns) || self.6.rejects(columns)) by {
                assert(r6.holds(columns) == (g5.holds(columns) || h6.holds(columns)));
            }
        }
        let x7 = self.7.rejection();
        let ghost g6 = r6;
        let ghost h7 = x7;
        let r7 = Reject::Either(Box::new(r6), Box::new(x7));
        proof {
            assert forall|columns: Seq<ComponentInfo>| #[trigger]
                r7.holds(columns) == (self.0.rejects(columns) || self.1.rejects(columns) || self.2.rejects(columns) || self.3.rejects(columns) || self.4.rejects(columns) || self.5.rejects(columns) || self.6.rejects(columns) || self.7.rejects(columns)) by {
                assert(r7.holds(columns) == (g6.holds(columns) || h7.holds(columns)));
            }
        }
        let x8 = self.8.rejection();
        let ghost g7 = r7;
        let ghost h8 = x8;
        let r8 = Reject::Either(Box::new(r7), Box::new(x8));
        proof {
            assert forall|columns: Seq<ComponentInfo>| #[trigger]
                r8.holds(columns) == (self.0.rejects(columns) || self.1.rejects(columns) || self.2.rejects(columns) || self.3.rejects(columns) || self.4.rejects(columns) || self.5.rejects(columns) || self.6.rejects(columns) || self.7.rejects(columns) || self.8.rejects(columns)) by {
                assert(r8.holds(columns) == (g7.holds(columns) || h8.holds(columns)));
            }
        }
        let x9 = self.9.rejection();
        let ghost g8 = r8;
        let ghost h9 = x9;
        let r9 = Reject::Either(Box::new(r8), Box::new(x9));
        proof {
            assert forall|columns: Seq<ComponentInfo>| #[trigger]
                r9.holds(columns) == (self.0.rejects(columns) || self.1.rejects(columns) || self.2.rejects(columns) || self.3.rejects(columns) || self.4.rejects(columns) || self.5.rejects(columns) || self.6.rejects(columns) || self.7.rejects(columns) || self.8.rejects(columns) || self.9.rejects(columns)) by {
                assert(r9.holds(columns) == (g8.holds(columns) || h9.holds(columns)));
            }
        }
        let x10 = self.10.rejection();
        let ghost g9 = r9;
        let ghost h10 = x10;
        let r10 = Reject::Either(Box::new(r9), Box::new(x10));
        proof {
            assert forall|columns: Seq<ComponentInfo>| #[trigger]
                r10.holds(columns) == (self.0.rejects(columns) || self.1.rejects(columns) || self.2.rejects(columns) || self.3.rejects(columns) || self.4.rejects(columns) || self.5.rejects(columns) || self.6.rejects(columns) || self.7.rejects(columns) || self.8.rejects(columns) || self.9.rejects(columns) || self.10.rejects(columns)) by {
                assert(r10.holds(columns) == (g9.holds(columns) || h10.holds(columns)));
            }
        }
        let x11 = self.11.rejection();
        let ghost g10 = r10;
        let ghost h11 = x11;
        let r11 = Reject::Either(Box::new(r10), Box::new(x11));
        proof {
            assert forall|columns: Seq<ComponentInfo>| #[trigger]
                r11.holds(columns) == (self.0.rejects(columns) || self.1.rejects(columns) || self.2.rejects(columns) || self.3.rejects(columns) || self.4.rejects(columns) || self.5.rejects(columns) || self.6.rejects(columns) || self.7.rejects(columns) || self.8.rejects(columns) || self.9.rejects(columns) || self.10.rejects(columns) || self.11.rejects(columns)) by {
                assert(r11.holds(columns) == (g10.holds(columns) || h11.holds(columns)));
            }
        }
        let x12 = self.12.rejection();
        let ghost g11 = r11;
        let ghost h12 = x12;
        let r12 = Reject::Either(Box::new(r11), Box::new(x12));
        proof {
            assert forall|columns: Seq<ComponentInfo>| #[trigger]
                r12.holds(columns) == (self.0.rejects(columns) || self.1.rejects(columns) || self.2.rejects(columns) || self.3.rejects(columns) || self.4.rejects(columns) || self.5.rejects(columns) || self.6.rejects(columns) || self.7.rejects(columns) || self.8.rejects(columns) || self.9.rejects(columns) || self.10.rejects(columns) || self.11.rejects(columns) || self.12.rejects(columns)) by {
                assert(r12.holds(columns) == (g11.holds(columns) || h12.holds(columns)));
            }
        }
        let x13 = self.13.rejection();
        let ghost g12 = r12;
        let ghost h13 = x13;
        let r13 = Reject::Either(Box::new(r12), Box::new(x13));
        proof {
            assert forall|columns: Seq<ComponentInfo>| #[trigger]
                r13.holds(columns) == (self.0.rejects(columns) || self.1.rejects(columns) || self.2.rejects(columns) || self.3.rejects(columns) || self.4.rejects(columns) || self.5.rejects(columns) || self.6.rejects(columns) || self.7.rejects(columns) || self.8.rejects(columns) || self.9.rejects(columns) || self.10.rejects(columns) || self.11.rejects(columns) || self.12.rejects(columns) || self.13.rejects(columns)) by {
                assert(r13.holds(columns) == (g12.holds(columns) || h13.holds(columns)));
            }
        }
        let x14 = self.14.rejection();
        let ghost g13 = r13;
        let ghost h14 = x14;
        let r14 = Reject::Either(Box::new(r13), Box::new(x14));
        proof {
            assert forall|columns: Seq<ComponentInfo>| #[trigger]
                r14.holds(columns) == (self.0.rejects(columns) || self.1.rejects(columns) || self.2.rejects(columns) || self.3.rejects(columns) || self.4.rejects(columns) || self.5.rejects(columns) || self.6.rejects(columns) || self.7.rejects(columns) || self.8.rejects(columns) || self.9.rejects(columns) || self.10.rejects(columns) || self.11.rejects(columns) || self.12.rejects(columns) || self.13.rejects(columns) || self.14.rejects(columns)) by {
                assert(r14.holds(columns) == (g13.holds(columns) || h14.holds(columns)));
            }
        }
        r14
    }

    fn archetype_filter(&self, archetype: &Archetype) -> (r: bool) {
        if self.0.archetype_filter(archetype) {
            return true;
        }
        if self.1.archetype_filter(archetype) {
            return true;
        }
        if self.2.archetype_filter(archetype) {
            return true;
        }
        if self.3.archetype_filter(archetype) {
            return true;
        }
        if self.4.archetype_filter(archetype) {
            return true;
        }
        if self.5.archetype_filter(archetype) {
            return true;
        }
        if self.6.archetype_filter(archetype) {
            return true;
        }
        if self.7.archetype_filter(archetype) {
            return true;
        }
        if self.8.archetype_filter(archetype) {
            return true;
        }
        if self.9.archetype_filter(archetype) {
            return true;
        }
        if self.10.archetype_filter(archetype) {
            return true;
        }
        if self.11.archetype_filter(archetype) {
            return true;
        }
        if self.12.archetype_filter(archetype) {
            return true;
        }
        if self.13.archetype_filter(archetype) {
            return true;
        }
        self.14.archetype_filter(archetype)
    }
}

/// 15 conditions under an `Or` fail together only: one that holds is
/// enough.
impl<A: FilterArchetype, B: FilterArchetype, C: FilterArchetype, D: FilterArchetype, E: FilterArchetype, F: FilterArchetype, G: FilterArchetype, H: FilterArchetype, I: FilterArchetype, J: FilterArchetype, K: FilterArchetype, L: FilterArchetype, M: FilterArchetype, N: FilterArchetype, O: FilterArchetype> FilterArchetype for (A, B, C, D, E, F, G, H, I, J, K, L, M, N, O) {
    open spec fn lacks(&self, columns: Seq<ComponentInfo>) -> bool {
        self.0.lacks(columns)
            && self.1.lacks(columns)
            && self.2.lacks(columns)
            && self.3.lacks(columns)
            && self.4.lacks(columns)
            && self.5.lacks(columns)
            && self.6.lacks(columns)
            && self.7.lacks(columns)
            && self.8.lacks(columns)
            && self.9.lacks(columns)
            && self.10.lacks(columns)
            && self.11.lacks(columns)
            && self.12.lacks(columns)
            && self.13.lacks(columns)
            && self.14.lacks(columns)
    }

    fn lack_rule(&self) -> (r: Reject) {
        let r0 = self.0.lack_rule();
        let x1 = self.1.lack_rule();
        let ghost g0 = r0;
        let ghost h1 = x1;
        let r1 = Reject::Both(Box::new(r0), Box::new(x1));
        proof {
            assert forall|columns: Seq<ComponentInfo>| #[trigger]
                r1.holds(columns) == (self.0.lacks(columns) && self.1.lacks(columns)) by {
                assert(r1.holds(columns) == (g0.holds(columns) && h1.holds(columns)));
            }
        }
        let x2 = self.2.lack_rule();
        let ghost g1 = r1;
        let ghost h2 = x2;
        let r2 = Reject::Both(Box::new(r1), Box::new(x2));
        proof {
            assert forall|columns: Seq<ComponentInfo>| #[trigger]
                r2.holds(columns) == (self.0.lacks(columns) && self.1.lacks(columns) && self.2.lacks(columns)) by {
                assert(r2.holds(columns) == (g1.holds(columns) && h2.holds(columns)));
            }
        }
        let x3 = self.3.lack_rule();
        let ghost g2 = r2;
        let ghost h3 = x3;
        let r3 = Reject::Both(Box::new(r2), Box::new(x3));
        proof {
            assert forall|columns: Seq<ComponentInfo>| #[trigger]
                r3.holds(columns) == (self.0.lacks(columns) && self.1.lacks(columns) && self.2.lacks(columns) && self.3.lacks(columns)) by {
                assert(r3.holds(columns) == (g2.holds(columns) && h3.holds(columns)));
            }
        }
        let x4 = self.4.lack_rule();
        let ghost g3 = r3;
        let ghost h4 = x4;
        let r4 = Reject::Both(Box::new(r3), Box::new(x4));
        proof {
            assert forall|columns: Seq<ComponentInfo>| #[trigger]
                r4.holds(columns) == (self.0.lacks(columns) && self.1.lacks(columns) && self.2.lacks(columns) && self.3.lacks(columns) && self.4.lacks(columns)) by {
                assert(r4.holds(columns) == (g3.holds(columns) && h4.holds(columns)));
            }
        }
        let x5 = self.5.lack_rule();
        let ghost g4 = r4;
        let ghost h5 = x5;
        let r5 = Reject::Both(Box::new(r4), Box::new(x5));
        proof {
            assert forall|columns: Seq<ComponentInfo>| #[trigger]
                r5.holds(columns) == (self.0.lacks(columns) && self.1.lacks(columns) && self.2.lacks(columns) && self.3.lacks(columns) && self.4.lacks(columns) && self.5.lacks(columns)) by {
                assert(r5.holds(columns) == (g4.holds(columns) && h5.holds(columns)));
            }
        }
        let x6 = self.6.lack_rule();
        let ghost g5 = r5;
        let ghost h6 = x6;
        let r6 = Reject::Both(Box::new(r5), Box::new(x6));
        proof {
            assert forall|columns: Seq<ComponentInfo>| #[trigger]
                r6.holds(columns) == (self.0.lacks(columns) && self.1.lacks(columns) && self.2.lacks(columns) && self.3.lacks(columns) && self.4.lacks(columns) && self.5.lacks(columns) && self.6.lacks(columns)) by {
                assert(r6.holds(columns) == (g5.holds(columns) && h6.holds(columns)));
            }
        }
        let x7 = self.7.lack_rule();
        let ghost g6 = r6;
        let ghost h7 = x7;
        let r7 = Reject::Both(Box::new(r6), Box::new(x7));
        proof {
            assert forall|columns: Seq<ComponentInfo>| #[trigger]
                r7.holds(columns) == (self.0.lacks(columns) && self.1.lacks(columns) && self.2.lacks(columns) && self.3.lacks(columns) && self.4.lacks(columns) && self.5.lacks(columns) && self.6.lacks(columns) && self.7.lacks(columns)) by {
                assert(r7.holds(columns) == (g6.holds(columns) && h7.holds(columns)));
            }
        }
        let x8 = self.8.lack_rule();
        let ghost g7 = r7;
        let ghost h8 = x8;
        let r8 = Reject::Both(Box::new(r7), Box::new(x8));
        proof {
            assert forall|columns: Seq<ComponentInfo>| #[trigger]
                r8.holds(columns) == (self.0.lacks(columns) && self.1.lacks(columns) && self.2.lacks(columns) && self.3.lacks(columns) && self.4.lacks(columns) && self.5.lacks(columns) && self.6.lacks(columns) && self.7.lacks(columns) && self.8.lacks(columns)) by {
                assert(r8.holds(columns) == (g7.holds(columns) && h8.holds(columns)));
            }
        }
        let x9 = self.9.lack_rule();
        let ghost g8 = r8;
        let ghost h9 = x9;
        let r9 = Reject::Both(Box::new(r8), Box::new(x9));
        proof {
            assert forall|columns: Seq<ComponentInfo>| #[trigger]
                r9.holds(columns) == (self.0.lacks(columns) && self.1.lacks(columns) && self.2.lacks(columns) && self.3.lacks(columns) && self.4.lacks(columns) && self.5.lacks(columns) && self.6.lacks(columns) && self.7.lacks(columns) && self.8.lacks(columns) && self.9.lacks(columns)) by {
                assert(r9.holds(columns) == (g8.holds(columns) && h9.holds(columns)));
            }
        }
        let x10 = self.10.lack_rule();
        let ghost g9 = r9;
        let ghost h10 = x10;
        let r10 = Reject::Both(Box::new(r9), Box::new(x10));
        proof {
            assert forall|columns: Seq<ComponentInfo>| #[trigger]
                r10.holds(columns) == (self.0.lacks(columns) && self.1.lacks(columns) && self.2.lacks(columns) && self.3.lacks(columns) && self.4.lacks(columns) && self.5.lacks(columns) && self.6.lacks(columns) && self.7.lacks(columns) && self.8.lacks(columns) && self.9.lacks(columns) && self.10.lacks(columns)) by {
                assert(r10.holds(columns) == (g9.holds(columns) && h10.holds(columns)));
            }
        }
        let x11 = self.11.lack_rule();
        let ghost g10 = r10;
        let ghost h11 = x11;
        let r11 = Reject::Both(Box::new(r10), Box::new(x11));
        proof {
            assert forall|columns: Seq<ComponentInfo>| #[trigger]
                r11.holds(columns) == (self.0.lacks(columns) && self.1.lacks(columns) && self.2.lacks(columns) && self.3.lacks(columns) && self.4.lacks(columns) && self.5.lacks(columns) && self.6.lacks(columns) && self.7.lacks(columns) && self.8.lacks(columns) && self.9.lacks(columns) && self.10.lacks(columns) && self.11.lacks(columns)) by {
                assert(r11.holds(columns) == (g10.holds(columns) && h11.holds(columns)));
            }
        }
        let x12 = self.12.lack_rule();
        let ghost g11 = r11;
        let ghost h12 = x12;
        let r12 = Reject::Both(Box::new(r11), Box::new(x12));
        proof {
            assert forall|columns: Seq<ComponentInfo>| #[trigger]
                r12.holds(columns) == (self.0.lacks(columns) && self.1.lacks(columns) && self.2.lacks(columns) && self.3.lacks(columns) && self.4.lacks(columns) && self.5.lacks(columns) && self.6.lacks(columns) && self.7.lacks(columns) && self.8.lacks(columns) && self.9.lacks(columns) && self.10.lacks(columns) && self.11.lacks(columns) && self.12.lacks(columns)) by {
                assert(r12.holds(columns) == (g11.holds(columns) && h12.holds(columns)));
            }
        }
        let x13 = self.13.lack_rule();
        let ghost g12 = r12;
        let ghost h13 = x13;
        let r13 = Reject::Both(Box::new(r12), Box::new(x13));
        proof {
            assert forall|columns: Seq<ComponentInfo>| #[trigger]
                r13.holds(columns) == (self.0.lacks(columns) && self.1.lacks(columns) && self.2.lacks(columns) && self.3.lacks(columns) && self.4.lacks(columns) && self.5.lacks(columns) && self.6.lacks(columns) && self.7.lacks(columns) && self.8.lacks(columns) && self.9.lacks(columns) && self.10.lacks(columns) && self.11.lacks(columns) && self.12.lacks(columns) && self.13.lacks(columns)) by {
                assert(r13.holds(columns) == (g12.holds(columns) && h13.holds(columns)));
            }
        }
        let x14 = self.14.lack_rule();
        let ghost g13 = r13;
        let ghost h14 = x14;
        let r14 = Reject::Both(Box::new(r13), Box::new(x14));
        proof {
            assert forall|columns: Seq<ComponentInfo>| #[trigger]
                r14.holds(columns) == (self.0.lacks(columns) && self.1.lacks(columns) && self.2.lacks(columns) && self.3.lacks(columns) && self.4.lacks(columns) && self.5.lacks(columns) && self.6.lacks(columns) && self.7.lacks(columns) && self.8.lacks(columns) && self.9.lacks(columns) && self.10.lacks(columns) && self.11.lacks(columns) && self.12.lacks(columns) && self.13.lacks(columns) && self.14.lacks(columns)) by {
                assert(r14.holds(columns) == (g13.holds(columns) && h14.holds(columns)));
            }
        }
        r14
    }

    fn filter_archetype(&self, archetype: &Archetype) -> (r: bool) {
        if !self.0.filter_archetype(archetype) {
            return false;
        }
        if !self.1.filter_archetype(archetype) {
            return false;
        }
        if !self.2.filter_archetype(archetype) {
            return false;
        }
        if !self.3.filter_archetype(archetype) {
            return false;
        }
        if !self.4.filter_archetype(archetype) {
            return false;
        }
        if !self.5.filter_archetype(archetype) {
            return false;
        }
        if !self.6.filter_archetype(archetype) {
            return false;
        }
        if !self.7.filter_archetype(archetype) {
            return false;
        }
        if !self.8.filter_archetype(archetype) {
            return false;
        }
        if !self.9.filter_archetype(archetype) {
            return false;
        }
        if !self.10.filter_archetype(archetype) {
            return false;
        }
        if !self.11.filter_archetype(archetype) {
            return false;
        }
        if !self.12.filter_archetype(archetype) {
            return false;
        }
        if !self.13.filter_archetype(archetype) {
            return false;
        }
        if !self.14.filter_archetype(archetype) {
            return false;
        }
        true
    }
}

} // verus!
