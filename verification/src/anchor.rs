//! Anchors (`@{name}` / `@N`) and the registry that resolves them.

use vstd::prelude::*;
use crate::chars::{string_of, clamp_u32};
use crate::errors::AnchorNameError;
use crate::units::Point;

verus! {

/// Characters allowed in an anchor name.
pub open spec fn spec_is_anchor_name_char(c: char) -> bool {
    ('a' <= c && c <= 'z') || ('A' <= c && c <= 'Z') || ('0' <= c && c <= '9') || c == '_' || c
        == '-'
}

fn is_anchor_name_char(c: char) -> (b: bool)
    ensures
        b == spec_is_anchor_name_char(c),
{
    ('a' <= c && c <= 'z') || ('A' <= c && c <= 'Z') || ('0' <= c && c <= '9') || c == '_' || c
        == '-'
}

/// The name of a named anchor (`@{name}`).
#[derive(Debug, Clone, PartialEq, Eq)]
pub struct AnchorName {
    text: String,
}

impl View for AnchorName {
    type V = Seq<char>;

    closed spec fn view(&self) -> Seq<char> {
        self.text@
    }
}

impl AnchorName {
    /// Validates `chars[start..end]` as an anchor name: one or more ASCII
    /// letters, digits, `_` or `-`.
    pub fn parse(chars: &[char], start: usize, end: usize) -> (r: Result<AnchorName, AnchorNameError>)
        requires
            start <= end <= chars@.len(),
        ensures
            match r {
                Ok(n) => n@ == chars@.subrange(start as int, end as int) && start < end && forall|k: int|
                    start <= k < end ==> spec_is_anchor_name_char(#[trigger] chars@[k]),
                Err(AnchorNameError::Empty) => start == end,
                Err(AnchorNameError::InvalidChar { char_offset }) => exists|i: int|
                    start <= i < end && !spec_is_anchor_name_char(#[trigger] chars@[i])
                        && char_offset as int == (if i - start <= u32::MAX { i - start } else { u32::MAX as int })
                        && forall|k: int| start <= k < i ==> spec_is_anchor_name_char(#[trigger] chars@[k]),
            },
    {
        if start == end {
            return Err(AnchorNameError::Empty);
        }
        let mut i = start;
        while i < end
            invariant
                start <= i <= end <= chars@.len(),
                forall|k: int| start <= k < i ==> spec_is_anchor_name_char(#[trigger] chars@[k]),
            decreases end - i,
        {
            if !is_anchor_name_char(chars[i]) {
                return Err(AnchorNameError::InvalidChar { char_offset: clamp_u32(i - start) });
            }
            i = i + 1;
        }
        Ok(AnchorName { text: string_of(chars, start, end) })
    }

    /// Validates a whole string as an anchor name.
    pub fn parse_str(text: &str) -> (r: Result<AnchorName, AnchorNameError>)
        ensures
            match r {
                Ok(n) => n@ == text@ && text@.len() > 0 && forall|k: int|
                    0 <= k < text@.len() ==> spec_is_anchor_name_char(#[trigger] text@[k]),
                Err(AnchorNameError::Empty) => text@.len() == 0,
                Err(AnchorNameError::InvalidChar { char_offset }) => exists|i: int|
                    0 <= i < text@.len() && !spec_is_anchor_name_char(#[trigger] text@[i])
                        && char_offset as int == (if i <= u32::MAX { i } else { u32::MAX as int })
                        && forall|k: int| 0 <= k < i ==> spec_is_anchor_name_char(#[trigger] text@[k]),
            },
    {
        let chars = crate::chars::chars_of(text);
        let r = Self::parse(&chars, 0, chars.len());
        assert(chars@.subrange(0, chars@.len() as int) =~= chars@);
        r
    }

    pub fn as_str(&self) -> (s: &str)
        ensures
            s@ == self@,
    {
        self.text.as_str()
    }

    pub fn char_count(&self) -> (n: usize)
        ensures
            n == self@.len(),
    {
        crate::chars::chars_of(self.text.as_str()).len()
    }

    pub fn duplicate(&self) -> (r: AnchorName)
        ensures
            r@ == self@,
    {
        AnchorName { text: self.text.clone() }
    }

    /// Whether two names are spelled the same.
    pub fn same(&self, other: &AnchorName) -> (b: bool)
        ensures
            b == (self@ == other@),
    {
        self.text == other.text
    }
}

/// An anchor identifier. Named and indexed anchors live in separate
/// namespaces: `@{0}` and `@0` are different anchors.
#[derive(Debug, Clone, PartialEq, Eq)]
pub enum AnchorId {
    Named(AnchorName),
    Indexed(u32),
}

/// The identity of an anchor: `(is_named, name, index)`.
pub type AnchorKey = (bool, Seq<char>, u32);

impl View for AnchorId {
    type V = AnchorKey;

    open spec fn view(&self) -> AnchorKey {
        match self {
            AnchorId::Named(name) => (true, name@, 0u32),
            AnchorId::Indexed(n) => (false, Seq::empty(), *n),
        }
    }
}

impl AnchorId {
    /// Whether two identifiers denote the same anchor.
    pub fn same(&self, other: &AnchorId) -> (b: bool)
        ensures
            b == (self@ == other@),
    {
        match (self, other) {
            (AnchorId::Named(a), AnchorId::Named(b)) => a.same(b),
            (AnchorId::Indexed(a), AnchorId::Indexed(b)) => *a == *b,
            _ => false,
        }
    }

    pub fn duplicate(&self) -> (r: AnchorId)
        ensures
            r@ == self@,
    {
        match self {
            AnchorId::Named(name) => AnchorId::Named(name.duplicate()),
            AnchorId::Indexed(n) => AnchorId::Indexed(*n),
        }
    }
}

/// Where a declared anchor sits: its row and its element in that row's
/// waveform. The position is filled in by layout.
#[derive(Debug, Clone, Copy, PartialEq, Eq, Structural)]
pub struct ResolvedAnchor {
    pub position: Point,
    pub signal_index: usize,
    pub element_index: usize,
}

impl ResolvedAnchor {
    pub fn new(position: Point, signal_index: usize, element_index: usize) -> (r: ResolvedAnchor)
        ensures
            r.position == position,
            r.signal_index == signal_index,
            r.element_index == element_index,
    {
        ResolvedAnchor { position, signal_index, element_index }
    }
}

/// One registered anchor.
#[derive(Debug, Clone, PartialEq, Eq)]
pub struct RegistryEntry {
    pub id: AnchorId,
    pub anchor: ResolvedAnchor,
}

/// Every declared anchor, each identifier at most once.
#[derive(Debug, Clone, PartialEq, Eq)]
pub struct AnchorRegistry {
    entries: Vec<RegistryEntry>,
}

impl AnchorRegistry {
    /// The identities of the registered anchors, in declaration order.
    pub closed spec fn keys(&self) -> Seq<AnchorKey> {
        self.entries@.map_values(|e: RegistryEntry| e.id@)
    }

    /// The registered anchors, in declaration order.
    pub closed spec fn anchors(&self) -> Seq<ResolvedAnchor> {
        self.entries@.map_values(|e: RegistryEntry| e.anchor)
    }

    /// No identifier is registered twice.
    pub open spec fn wf(&self) -> bool {
        forall|i: int, j: int|
            0 <= i < j < self.keys().len() ==> #[trigger] self.keys()[i] != #[trigger] self.keys()[j]
    }

    pub fn new() -> (r: AnchorRegistry)
        ensures
            r.keys() == Seq::<AnchorKey>::empty(),
            r.anchors() == Seq::<ResolvedAnchor>::empty(),
            r.wf(),
    {
        let r = AnchorRegistry { entries: Vec::new() };
        assert(r.keys() =~= Seq::<AnchorKey>::empty());
        assert(r.anchors() =~= Seq::<ResolvedAnchor>::empty());
        r
    }

    pub fn len(&self) -> (n: usize)
        ensures
            n == self.keys().len(),
    {
        self.entries.len()
    }

    pub fn is_empty(&self) -> (b: bool)
        ensures
            b == (self.keys().len() == 0),
    {
        self.entries.len() == 0
    }

    /// Whether `id` is registered.
    pub fn contains(&self, id: &AnchorId) -> (b: bool)
        ensures
            b == self.keys().contains(id@),
    {
        let mut i: usize = 0;
        while i < self.entries.len()
            invariant
                i <= self.entries@.len(),
                forall|k: int| 0 <= k < i ==> self.keys()[k] != id@,
            decreases self.entries.len() - i,
        {
            if self.entries[i].id.same(id) {
                assert(self.keys()[i as int] == id@);
                return true;
            }
            i = i + 1;
        }
        false
    }

    /// The anchor registered under `id`, if any (the first one so
    /// registered, should there be several).
    pub fn get(&self, id: &AnchorId) -> (r: Option<ResolvedAnchor>)
        ensures
            match r {
                Some(a) => exists|k: int| 0 <= k < self.keys().len() && self.keys()[k] == id@ && #[trigger] self.anchors()[k] == a
                    && forall|j: int| 0 <= j < k ==> self.keys()[j] != id@,
                None => !self.keys().contains(id@),
            },
    {
        let mut i: usize = 0;
        while i < self.entries.len()
            invariant
                i <= self.entries@.len(),
                forall|k: int| 0 <= k < i ==> self.keys()[k] != id@,
            decreases self.entries.len() - i,
        {
            if self.entries[i].id.same(id) {
                assert(self.anchors()[i as int] == self.entries@[i as int].anchor);
                return Some(self.entries[i].anchor);
            }
            i = i + 1;
        }
        None
    }

    /// Registers `id` unless it is already present.
    pub fn try_insert_unique(&mut self, id: AnchorId, anchor: ResolvedAnchor) -> (r: Result<(), ()>)
        requires
            old(self).wf(),
        ensures
            final(self).wf(),
            r is Ok <==> !old(self).keys().contains(id@),
            r is Ok ==> final(self).keys() == old(self).keys().push(id@) && final(self).anchors()
                == old(self).anchors().push(anchor),
            r is Err ==> *final(self) == *old(self),
    {
        if self.contains(&id) {
            return Err(());
        }
        let ghost key = id@;
        self.entries.push(RegistryEntry { id, anchor });
        assert(self.keys() =~= old(self).keys().push(key));
        assert(self.anchors() =~= old(self).anchors().push(anchor));
        Ok(())
    }
}

} // verus!
