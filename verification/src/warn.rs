//! Warnings about what a conversion could not carry over faithfully.
use vstd::prelude::*;

verus! {

/// A warning: a dotted code, a message, and the object it concerns if any.
#[derive(Debug, Clone, PartialEq, Eq)]
pub struct Warning {
    pub code: String,
    pub message: String,
    pub object: Option<String>,
}

/// A warning as text: code, message and object name.
pub type WarnView = (Seq<char>, Seq<char>, Option<Seq<char>>);

pub open spec fn warning_view(w: Warning) -> WarnView {
    (
        w.code@,
        w.message@,
        match w.object {
            Some(o) => Some(o@),
            None => None,
        },
    )
}

pub open spec fn warnings_view(ws: Seq<Warning>) -> Seq<WarnView> {
    ws.map_values(|w: Warning| warning_view(w))
}

impl Warning {
    /// A warning about no object in particular.
    pub fn new(code: String, message: String) -> (w: Warning)
        ensures
            warning_view(w) == (code@, message@, None::<Seq<char>>),
    {
        Warning { code, message, object: None }
    }

    /// The same warning, about the named object.
    pub fn with_object(self, name: &str) -> (w: Warning)
        ensures
            warning_view(w) == (self.code@, self.message@, Some(name@)),
    {
        Warning { code: self.code, message: self.message, object: Some(crate::text::owned(name)) }
    }
}

/// Appends a warning to a list.
pub fn push_warning(ws: &mut Vec<Warning>, w: Warning)
    ensures
        warnings_view(final(ws)@) == warnings_view(old(ws)@).push(warning_view(w)),
{
    ws.push(w);
    proof {
        assert(warnings_view(ws@) =~= warnings_view(old(ws)@).push(warning_view(w)));
    }
}

} // verus!
