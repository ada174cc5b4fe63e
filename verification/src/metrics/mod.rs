//! The five instruments and what they have in common.

pub mod async_timer;
pub mod counter;
pub mod gauge;
pub mod histogram;
pub mod meter;
pub mod timer;

use crate::labels::Labels;
use vstd::prelude::*;

verus! {

/// A view that carries the name of the instrument it describes.
pub trait Named {
    /// The name, as text.
    spec fn name(&self) -> Seq<char>;
}

/// The names of a sequence of views.
pub open spec fn names<V: Named>(views: Seq<V>) -> Seq<Seq<char>> {
    Seq::new(views.len(), |i: int| views[i].name())
}

/// What every instrument has: a name and a set of labels, both fixed when
/// the instrument is made.
pub trait Metric {
    /// The name, as text.
    spec fn name_text(&self) -> Seq<char>;

    /// The labels, as a mapping.
    spec fn label_map(&self) -> Map<Seq<char>, Seq<char>>;

    /// The name.
    fn name(&self) -> (name: &str)
        ensures
            name@ == self.name_text(),
    ;

    /// The labels.
    fn labels(&self) -> (labels: &Labels)
        ensures
            labels@ == self.label_map(),
            labels.wf(),
    ;
}

/// The names of a sequence of instruments.
pub open spec fn names_of<M: Metric>(items: Seq<M>) -> Seq<Seq<char>> {
    Seq::new(items.len(), |i: int| items[i].name_text())
}

} // verus!
