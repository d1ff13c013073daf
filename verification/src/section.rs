//! Diff sections: runs of one classification between two line strings.

use vstd::prelude::*;

verus! {

/// A run of characters of one classification.
///
/// `Same` text stands on both sides, `Added` text only on the right,
/// `Removed` text only on the left; a `Modified` section holds the differing
/// text of each side.
#[derive(Clone, Debug, PartialEq, Eq)]
pub enum DiffSection {
    Added(String),
    Modified { left: String, right: String },
    Same(String),
    Removed(String),
}

/// The mathematical value of a [`DiffSection`]: the same variants over
/// character sequences.
pub enum SectionView {
    Added(Seq<char>),
    Modified { left: Seq<char>, right: Seq<char> },
    Same(Seq<char>),
    Removed(Seq<char>),
}

impl SectionView {
    /// Whether two sections have the same classification.
    pub open spec fn same_kind(self, other: SectionView) -> bool {
        match (self, other) {
            (SectionView::Added(_), SectionView::Added(_)) => true,
            (SectionView::Modified { .. }, SectionView::Modified { .. }) => true,
            (SectionView::Same(_), SectionView::Same(_)) => true,
            (SectionView::Removed(_), SectionView::Removed(_)) => true,
            _ => false,
        }
    }

    /// Whether the section marks a difference between the two sides.
    pub open spec fn is_change(self) -> bool {
        !(self is Same)
    }

    /// The text that the section contributes to the left line.
    pub open spec fn left_text(self) -> Seq<char> {
        match self {
            SectionView::Added(_) => Seq::empty(),
            SectionView::Modified { left, .. } => left,
            SectionView::Same(text) => text,
            SectionView::Removed(text) => text,
        }
    }

    /// The text that the section contributes to the right line.
    pub open spec fn right_text(self) -> Seq<char> {
        match self {
            SectionView::Added(text) => text,
            SectionView::Modified { right, .. } => right,
            SectionView::Same(text) => text,
            SectionView::Removed(_) => Seq::empty(),
        }
    }

    /// The number of characters by which the section moves a cursor along the
    /// line: the length of its left text where it has two sides, else the
    /// length of its only text.
    pub open spec fn left_len(self) -> nat {
        match self {
            SectionView::Added(text) => text.len(),
            SectionView::Modified { left, .. } => left.len(),
            SectionView::Same(text) => text.len(),
            SectionView::Removed(text) => text.len(),
        }
    }

    /// The section that holds the text of `self` followed by that of `next`,
    /// side by side. Meant for two sections of the same kind; otherwise it is
    /// `self`.
    pub open spec fn join(self, next: SectionView) -> SectionView {
        match (self, next) {
            (SectionView::Added(a), SectionView::Added(b)) => SectionView::Added(a + b),
            (
                SectionView::Modified { left: left_a, right: right_a },
                SectionView::Modified { left: left_b, right: right_b },
            ) => SectionView::Modified { left: left_a + left_b, right: right_a + right_b },
            (SectionView::Same(a), SectionView::Same(b)) => SectionView::Same(a + b),
            (SectionView::Removed(a), SectionView::Removed(b)) => SectionView::Removed(a + b),
            _ => self,
        }
    }
}

impl View for DiffSection {
    type V = SectionView;

    open spec fn view(&self) -> SectionView {
        match self {
            DiffSection::Added(text) => SectionView::Added(text@),
            DiffSection::Modified { left, right } => SectionView::Modified {
                left: left@,
                right: right@,
            },
            DiffSection::Same(text) => SectionView::Same(text@),
            DiffSection::Removed(text) => SectionView::Removed(text@),
        }
    }
}

impl DeepView for DiffSection {
    type V = SectionView;

    open spec fn deep_view(&self) -> SectionView {
        self.view()
    }
}

impl DiffSection {
    /// The number of characters by which the section moves a cursor along the
    /// line.
    pub fn left_len(&self) -> (len: usize)
        ensures
            len == self@.left_len(),
    {
        match self {
            DiffSection::Added(a) | DiffSection::Same(a) | DiffSection::Removed(a) => {
                a.as_str().unicode_len()
            },
            DiffSection::Modified { left, right: _ } => left.as_str().unicode_len(),
        }
    }

    /// Whether the section marks a difference between the two sides.
    pub fn is_change(&self) -> (change: bool)
        ensures
            change == self@.is_change(),
    {
        match self {
            DiffSection::Same(_) => false,
            _ => true,
        }
    }
}

/// The value of an optional section.
pub open spec fn pending_view(pending: Option<DiffSection>) -> Option<SectionView> {
    match pending {
        Some(section) => Some(section@),
        None => None,
    }
}

/// One step of merging a stream of sections: `pending` is the section still
/// open, `next` the one that arrives. The result is the section open
/// afterwards and, where `next` closed the pending one, the section completed.
pub open spec fn merge_step(pending: Option<SectionView>, next: SectionView) -> (
    Option<SectionView>,
    Option<SectionView>,
) {
    match pending {
        None => (Some(next), None),
        Some(open) => if open.same_kind(next) {
            (Some(open.join(next)), None)
        } else {
            (Some(next), Some(open))
        },
    }
}

/// Merges `next` into the pending section where both have the same kind,
/// concatenating their text; otherwise completes the pending section and
/// makes `next` the pending one.
pub fn merge_diff(pending: Option<DiffSection>, next: DiffSection) -> (result: (
    Option<DiffSection>,
    Option<DiffSection>,
))
    ensures
        pending_view(result.0) == merge_step(pending_view(pending), next@).0,
        pending_view(result.1) == merge_step(pending_view(pending), next@).1,
{
    match pending {
        None => (Some(next), None),
        Some(open) => match (open, next) {
            (DiffSection::Added(a), DiffSection::Added(b)) => {
                let mut text = a;
                text.append(b.as_str());
                (Some(DiffSection::Added(text)), None)
            },
            (DiffSection::Same(a), DiffSection::Same(b)) => {
                let mut text = a;
                text.append(b.as_str());
                (Some(DiffSection::Same(text)), None)
            },
            (DiffSection::Removed(a), DiffSection::Removed(b)) => {
                let mut text = a;
                text.append(b.as_str());
                (Some(DiffSection::Removed(text)), None)
            },
            (
                DiffSection::Modified { left: left_a, right: right_a },
                DiffSection::Modified { left: left_b, right: right_b },
            ) => {
                let mut left = left_a;
                let mut right = right_a;
                left.append(left_b.as_str());
                right.append(right_b.as_str());
                (Some(DiffSection::Modified { left, right }), None)
            },
            (open, next) => (Some(next), Some(open)),
        },
    }
}

} // verus!
