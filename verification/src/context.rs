//! The trace of a descent through a tree, used to locate errors.

use vstd::prelude::*;

verus! {

/// Spec-level mirror of [`TracePoint`].
pub enum PointView {
    Root,
    Field { name: Seq<char> },
    Array { index: int },
    Codec { name: Seq<char> },
}

/// One step of a descent: the root, a map field, a list index, or a named
/// codec.
#[derive(Debug, PartialEq)]
pub enum TracePoint {
    Root,
    Field { name: String },
    Array { index: usize },
    Codec { name: String },
}

impl View for TracePoint {
    type V = PointView;

    open spec fn view(&self) -> PointView {
        match self {
            TracePoint::Root => PointView::Root,
            TracePoint::Field { name } => PointView::Field { name: name@ },
            TracePoint::Array { index } => PointView::Array { index: *index as int },
            TracePoint::Codec { name } => PointView::Codec { name: name@ },
        }
    }
}

/// Spec-level mirror of [`Context`]: the trace stack and the saved stacks.
pub struct ContextView {
    pub stack: Seq<PointView>,
    pub saves: Seq<Seq<PointView>>,
}

/// An ordered stack of trace points, together with a secondary stack of saved
/// traces for speculative decoding.
#[derive(Debug)]
pub struct Context {
    stack_trace: Vec<TracePoint>,
    cache: Vec<Vec<TracePoint>>,
}

/// The view of a stack of trace points.
pub open spec fn points_view(s: Seq<TracePoint>) -> Seq<PointView> {
    s.map_values(|p: TracePoint| p@)
}

impl View for Context {
    type V = ContextView;

    closed spec fn view(&self) -> ContextView {
        ContextView {
            stack: points_view(self.stack_trace@),
            saves: self.cache@.map_values(|s: Vec<TracePoint>| points_view(s@)),
        }
    }
}

/// Copies one trace point.
pub fn clone_point(p: &TracePoint) -> (r: TracePoint)
    ensures
        r@ == p@,
{
    match p {
        TracePoint::Root => TracePoint::Root,
        TracePoint::Field { name } => TracePoint::Field { name: name.clone() },
        TracePoint::Array { index } => TracePoint::Array { index: *index },
        TracePoint::Codec { name } => TracePoint::Codec { name: name.clone() },
    }
}

/// Copies a stack of trace points.
pub fn clone_points(v: &Vec<TracePoint>) -> (r: Vec<TracePoint>)
    ensures
        points_view(r@) == points_view(v@),
{
    let mut copy: Vec<TracePoint> = Vec::new();
    let mut i: usize = 0;
    while i < v.len()
        invariant
            i <= v.len(),
            copy@.len() == i,
            forall|j: int| 0 <= j < i ==> copy@[j]@ == v@[j]@,
        decreases v.len() - i,
    {
        let p = clone_point(&v[i]);
        copy.push(p);
        i = i + 1;
    }
    proof {
        assert(points_view(copy@) =~= points_view(v@));
    }
    copy
}

impl Context {
    /// A fresh context holding only the root trace point.
    pub fn new() -> (r: Context)
        ensures
            r@.stack == seq![PointView::Root],
            r@.saves.len() == 0,
    {
        let mut stack_trace: Vec<TracePoint> = Vec::new();
        stack_trace.push(TracePoint::Root);
        let r = Context { stack_trace, cache: Vec::new() };
        proof {
            assert(r@.stack =~= seq![PointView::Root]);
            assert(r@.saves =~= Seq::<Seq<PointView>>::empty());
        }
        r
    }

    /// Pushes a field-name trace point.
    pub fn push_field(&mut self, name: &str)
        ensures
            final(self)@.stack == old(self)@.stack.push(PointView::Field { name: name@ }),
            final(self)@.saves == old(self)@.saves,
    {
        self.stack_trace.push(TracePoint::Field { name: name.to_owned() });
        proof {
            assert(self@.stack =~= old(self)@.stack.push(PointView::Field { name: name@ }));
        }
    }

    /// Pushes a codec-name trace point.
    pub fn push_codec(&mut self, name: &str)
        ensures
            final(self)@.stack == old(self)@.stack.push(PointView::Codec { name: name@ }),
            final(self)@.saves == old(self)@.saves,
    {
        self.stack_trace.push(TracePoint::Codec { name: name.to_owned() });
        proof {
            assert(self@.stack =~= old(self)@.stack.push(PointView::Codec { name: name@ }));
        }
    }

    /// Pushes a list-index trace point.
    pub fn push_array(&mut self, index: usize)
        ensures
            final(self)@.stack == old(self)@.stack.push(PointView::Array { index: index as int }),
            final(self)@.saves == old(self)@.saves,
    {
        self.stack_trace.push(TracePoint::Array { index });
        proof {
            assert(self@.stack =~= old(self)@.stack.push(PointView::Array { index: index as int }));
        }
    }

    /// Pushes an already-built trace point.
    pub fn push_point(&mut self, point: TracePoint)
        ensures
            final(self)@.stack == old(self)@.stack.push(point@),
            final(self)@.saves == old(self)@.saves,
    {
        self.stack_trace.push(point);
        proof {
            assert(self@.stack =~= old(self)@.stack.push(point@));
        }
    }

    /// Pops the most recent trace point, if any.
    pub fn pop(&mut self) -> (r: Option<TracePoint>)
        ensures
            old(self)@.stack.len() == 0 ==> r is None && final(self)@.stack == old(self)@.stack,
            old(self)@.stack.len() > 0 ==> {
                &&& r matches Some(p) && p@ == old(self)@.stack.last()
                &&& final(self)@.stack == old(self)@.stack.drop_last()
            },
            final(self)@.saves == old(self)@.saves,
    {
        let r = self.stack_trace.pop();
        proof {
            if old(self)@.stack.len() > 0 {
                assert(self@.stack =~= old(self)@.stack.drop_last());
            } else {
                assert(self@.stack =~= old(self)@.stack);
            }
        }
        r
    }

    /// Saves a copy of the current trace on the secondary stack.
    pub fn save(&mut self)
        ensures
            final(self)@.stack == old(self)@.stack,
            final(self)@.saves == old(self)@.saves.push(old(self)@.stack),
    {
        let copy = clone_points(&self.stack_trace);
        self.cache.push(copy);
        proof {
            assert(self@.saves =~= old(self)@.saves.push(old(self)@.stack));
        }
    }

    /// Restores the trace from the most recent save, consuming the save.
    /// With no save present the trace is left as it is.
    pub fn load_save(&mut self)
        ensures
            old(self)@.saves.len() == 0 ==> final(self)@ == old(self)@,
            old(self)@.saves.len() > 0 ==> {
                &&& final(self)@.stack == old(self)@.saves.last()
                &&& final(self)@.saves == old(self)@.saves.drop_last()
            },
    {
        match self.cache.pop() {
            Some(saved) => {
                self.stack_trace = saved;
                proof {
                    assert(self@.saves =~= old(self)@.saves.drop_last());
                }
            },
            None => {
                proof {
                    assert(self@.saves =~= old(self)@.saves);
                }
            },
        }
    }

    /// Removes and returns the most recent save as a context of its own.
    pub fn pop_save(&mut self) -> (r: Option<Context>)
        ensures
            final(self)@.stack == old(self)@.stack,
            old(self)@.saves.len() == 0 ==> r is None && final(self)@.saves == old(self)@.saves,
            old(self)@.saves.len() > 0 ==> {
                &&& r matches Some(c) && c@.stack == old(self)@.saves.last() && c@.saves.len() == 0
                &&& final(self)@.saves == old(self)@.saves.drop_last()
            },
    {
        match self.cache.pop() {
            Some(saved) => {
                let r = Context { stack_trace: saved, cache: Vec::new() };
                proof {
                    assert(self@.saves =~= old(self)@.saves.drop_last());
                    assert(r@.saves =~= Seq::<Seq<PointView>>::empty());
                }
                Some(r)
            },
            None => {
                proof {
                    assert(self@.saves =~= old(self)@.saves);
                }
                None
            },
        }
    }

    /// The trace points, outermost first.
    pub fn points(&self) -> (r: &Vec<TracePoint>)
        ensures
            points_view(r@) == self@.stack,
    {
        &self.stack_trace
    }
}

} // verus!
