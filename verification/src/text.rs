//! Validated user text: titles, labels, signal names, font families.

use vstd::prelude::*;
use crate::chars::{is_control, spec_is_control, string_of, clamp_u32};
use crate::errors::{NameError, TextError, spec_clamp_u32};

verus! {

/// A character that may not appear in user text: every control character
/// except the line feed (which separates the lines of multi-line text).
pub open spec fn spec_is_forbidden(c: char) -> bool {
    spec_is_control(c) && c != '\n'
}

/// Whether `s[i]` is the first forbidden character of `s`.
pub open spec fn spec_is_first_forbidden(s: Seq<char>, i: int) -> bool {
    &&& 0 <= i < s.len()
    &&& spec_is_forbidden(s[i])
    &&& forall|k: int| 0 <= k < i ==> !spec_is_forbidden(#[trigger] s[k])
}

/// Why `w` is not valid user text: its first forbidden character, if it
/// has one.
pub open spec fn spec_text_error(w: Seq<char>) -> Option<TextError> {
    if exists|i: int| spec_is_first_forbidden(w, i) {
        Some(TextError::ForbiddenControlChar { char_offset: spec_clamp_u32(choose|i: int| spec_is_first_forbidden(w, i)) })
    } else {
        None
    }
}

/// A sequence has at most one first forbidden character.
pub proof fn lemma_first_forbidden_unique(w: Seq<char>, i: int, j: int)
    requires
        spec_is_first_forbidden(w, i),
        spec_is_first_forbidden(w, j),
    ensures
        i == j,
{
    if i < j {
        assert(!spec_is_forbidden(w[i]));
    } else if j < i {
        assert(!spec_is_forbidden(w[j]));
    }
}

/// Index of the first forbidden character of `chars[start..end]`, relative
/// to `start`.
fn first_forbidden(chars: &[char], start: usize, end: usize) -> (r: Option<usize>)
    requires
        start <= end <= chars@.len(),
    ensures
        match r {
            Some(i) => i < end - start && spec_is_forbidden(chars@[start + i]) && forall|k: int|
                0 <= k < i ==> !spec_is_forbidden(#[trigger] chars@[start + k]),
            None => forall|k: int| start <= k < end ==> !spec_is_forbidden(#[trigger] chars@[k]),
        },
{
    let mut i = start;
    while i < end
        invariant
            start <= i <= end <= chars@.len(),
            forall|k: int| start <= k < i ==> !spec_is_forbidden(#[trigger] chars@[k]),
        decreases end - i,
    {
        let c = chars[i];
        if is_control(c) && c != '\n' {
            assert forall|k: int| 0 <= k < i - start implies !spec_is_forbidden(#[trigger] chars@[start + k]) by {
                assert(start <= start + k < i);
            }
            return Some(i - start);
        }
        i = i + 1;
    }
    None
}

/// Free text typed by the user (titles, labels, overlay text).
#[derive(Debug, Clone, PartialEq, Eq)]
pub struct UserText {
    text: String,
}

impl View for UserText {
    type V = Seq<char>;

    closed spec fn view(&self) -> Seq<char> {
        self.text@
    }
}

impl UserText {
    /// Validates `chars[start..end]` as user text.
    pub fn parse(chars: &[char], start: usize, end: usize) -> (r: Result<UserText, TextError>)
        requires
            start <= end <= chars@.len(),
        ensures
            match r {
                Ok(t) => t@ == chars@.subrange(start as int, end as int) && forall|k: int|
                    start <= k < end ==> !spec_is_forbidden(#[trigger] chars@[k]),
                Err(TextError::ForbiddenControlChar { char_offset }) => exists|i: int|
                    #[trigger] spec_is_first_forbidden(chars@.subrange(start as int, end as int), i)
                        && char_offset as int == (if i <= u32::MAX { i } else { u32::MAX as int }),
            },
            match r {
                Ok(_) => spec_text_error(chars@.subrange(start as int, end as int)) is None,
                Err(e) => spec_text_error(chars@.subrange(start as int, end as int)) == Some(e),
            },
    {
        match first_forbidden(chars, start, end) {
            Some(i) => {
                proof {
                    let sub = chars@.subrange(start as int, end as int);
                    assert forall|k: int| 0 <= k < i implies !spec_is_forbidden(#[trigger] sub[k]) by {
                        assert(sub[k] == chars@[start + k]);
                    }
                    assert(spec_is_first_forbidden(sub, i as int));
                    let j = choose|j: int| spec_is_first_forbidden(sub, j);
                    lemma_first_forbidden_unique(sub, i as int, j);
                }
                Err(TextError::ForbiddenControlChar { char_offset: clamp_u32(i) })
            },
            None => {
                proof {
                    let sub = chars@.subrange(start as int, end as int);
                    assert forall|i: int| !spec_is_first_forbidden(sub, i) by {
                        if 0 <= i < sub.len() {
                            assert(sub[i] == chars@[start + i]);
                        }
                    }
                }
                Ok(UserText { text: string_of(chars, start, end) })
            },
        }
    }

    /// Builds user text from a whole buffer.
    pub fn parse_all(chars: &[char]) -> (r: Result<UserText, TextError>)
        ensures
            match r {
                Ok(t) => t@ == chars@ && forall|k: int| 0 <= k < chars@.len() ==> !spec_is_forbidden(#[trigger] chars@[k]),
                Err(_) => exists|k: int| 0 <= k < chars@.len() && spec_is_forbidden(#[trigger] chars@[k]),
            },
            r matches Err(e) ==> spec_text_error(chars@) == Some(e),
    {
        let r = Self::parse(chars, 0, chars.len());
        proof {
            assert(chars@.subrange(0, chars@.len() as int) =~= chars@);
            if r is Err {
                let i = choose|i: int| #[trigger] spec_is_first_forbidden(chars@.subrange(0, chars@.len() as int), i);
                assert(spec_is_forbidden(chars@[i]));
            }
        }
        r
    }

    pub fn as_str(&self) -> (s: &str)
        ensures
            s@ == self@,
    {
        self.text.as_str()
    }

    pub fn duplicate(&self) -> (r: UserText)
        ensures
            r@ == self@,
    {
        UserText { text: self.text.clone() }
    }

    /// Number of characters.
    pub fn char_count(&self) -> (n: usize)
        ensures
            n == self@.len(),
    {
        crate::chars::chars_of(self.text.as_str()).len()
    }
}

/// One line of a multi-line name or text.
#[derive(Debug, Clone, PartialEq, Eq)]
pub struct TextLine {
    text: String,
}

impl View for TextLine {
    type V = Seq<char>;

    closed spec fn view(&self) -> Seq<char> {
        self.text@
    }
}

impl TextLine {
    /// The raw (unescaped) line text.
    pub fn unsafe_text(&self) -> (s: &str)
        ensures
            s@ == self@,
    {
        self.text.as_str()
    }
}

/// Number of line feeds in `s`.
pub open spec fn spec_count_lf(s: Seq<char>) -> nat
    decreases s.len(),
{
    if s.len() == 0 {
        0
    } else {
        spec_count_lf(s.drop_last()) + if s.last() == '\n' { 1nat } else { 0nat }
    }
}

/// A validated signal name. Multi-line names (from `"a\nb"`) keep their
/// line feeds.
#[derive(Debug, Clone, PartialEq, Eq)]
pub struct SignalName {
    text: String,
}

impl View for SignalName {
    type V = Seq<char>;

    closed spec fn view(&self) -> Seq<char> {
        self.text@
    }
}

impl SignalName {
    /// Validates `chars[start..end]` as a signal name.
    pub fn parse(chars: &[char], start: usize, end: usize) -> (r: Result<SignalName, NameError>)
        requires
            start <= end <= chars@.len(),
        ensures
            match r {
                Ok(n) => n@ == chars@.subrange(start as int, end as int) && start < end && forall|k: int|
                    start <= k < end ==> !spec_is_forbidden(#[trigger] chars@[k]),
                Err(NameError::Empty) => start == end,
                Err(NameError::ForbiddenControlChar { char_offset }) => start < end && exists|i: int|
                    #[trigger] spec_is_first_forbidden(chars@.subrange(start as int, end as int), i)
                        && char_offset as int == (if i <= u32::MAX { i } else { u32::MAX as int }),
            },
    {
        if start == end {
            return Err(NameError::Empty);
        }
        match first_forbidden(chars, start, end) {
            Some(i) => {
                proof {
                    let sub = chars@.subrange(start as int, end as int);
                    assert forall|k: int| 0 <= k < i implies !spec_is_forbidden(#[trigger] sub[k]) by {
                        assert(sub[k] == chars@[start + k]);
                    }
                    assert(spec_is_first_forbidden(sub, i as int));
                    let j = choose|j: int| spec_is_first_forbidden(sub, j);
                    lemma_first_forbidden_unique(sub, i as int, j);
                }
                Err(NameError::ForbiddenControlChar { char_offset: clamp_u32(i) })
            },
            None => Ok(SignalName { text: string_of(chars, start, end) }),
        }
    }

    pub fn as_str(&self) -> (s: &str)
        ensures
            s@ == self@,
    {
        self.text.as_str()
    }

    /// The name split at its line feeds.
    pub fn lines(&self) -> (v: Vec<TextLine>)
        ensures
            v@.len() >= 1,
            forall|i: int| 0 <= i < v@.len() ==> !(#[trigger] v@[i]@).contains('\n'),
            v@.len() == 1 + spec_count_lf(self@),
    {
        let chars = crate::chars::chars_of(self.text.as_str());
        let mut v: Vec<TextLine> = Vec::new();
        let mut line_start: usize = 0;
        let mut i: usize = 0;
        while i < chars.len()
            invariant
                chars@ == self@,
                line_start <= i <= chars@.len(),
                forall|k: int| line_start <= k < i ==> chars@[k] != '\n',
                forall|j: int| 0 <= j < v@.len() ==> !(#[trigger] v@[j]@).contains('\n'),
                v@.len() == spec_count_lf(chars@.subrange(0, i as int)),
            decreases chars.len() - i,
        {
            proof {
                assert(chars@.subrange(0, i + 1).drop_last() =~= chars@.subrange(0, i as int));
            }
            if chars[i] == '\n' {
                let line = string_of(&chars, line_start, i);
                assert forall|k: int| 0 <= k < line@.len() implies line@[k] != '\n' by {
                    assert(line@[k] == chars@[line_start + k]);
                }
                v.push(TextLine { text: line });
                line_start = i + 1;
            }
            i = i + 1;
        }
        let line = string_of(&chars, line_start, chars.len());
        assert forall|k: int| 0 <= k < line@.len() implies line@[k] != '\n' by {
            assert(line@[k] == chars@[line_start + k]);
        }
        v.push(TextLine { text: line });
        assert(chars@.subrange(0, chars@.len() as int) =~= chars@);
        v
    }

    pub fn duplicate(&self) -> (r: SignalName)
        ensures
            r@ == self@,
    {
        SignalName { text: self.text.clone() }
    }
}

/// A font family (or a comma-separated fallback list) for text rendering.
#[derive(Debug, Clone, PartialEq, Eq)]
pub struct FontFamily {
    text: String,
}

impl View for FontFamily {
    type V = Seq<char>;

    closed spec fn view(&self) -> Seq<char> {
        self.text@
    }
}

impl FontFamily {
    /// Validates `chars[start..end]` as a font-family list.
    pub fn parse(chars: &[char], start: usize, end: usize) -> (r: Result<FontFamily, TextError>)
        requires
            start <= end <= chars@.len(),
        ensures
            match r {
                Ok(f) => f@ == chars@.subrange(start as int, end as int),
                Err(_) => exists|k: int| start <= k < end && spec_is_forbidden(#[trigger] chars@[k]),
            },
            match r {
                Ok(_) => spec_text_error(chars@.subrange(start as int, end as int)) is None,
                Err(e) => spec_text_error(chars@.subrange(start as int, end as int)) == Some(e),
            },
    {
        match UserText::parse(chars, start, end) {
            Ok(t) => Ok(FontFamily { text: t.text }),
            Err(e) => {
                proof {
                    let sub = chars@.subrange(start as int, end as int);
                    let i = choose|i: int| #[trigger] spec_is_first_forbidden(sub, i);
                    assert(spec_is_forbidden(chars@[start + i]));
                }
                Err(e)
            },
        }
    }

    /// The default family.
    pub fn sans_serif() -> (f: FontFamily)
        ensures
            f@ == seq!['s', 'a', 'n', 's', '-', 's', 'e', 'r', 'i', 'f'],
    {
        let mut text = String::new();
        crate::chars::push_chars(&mut text, &['s', 'a', 'n', 's', '-', 's', 'e', 'r', 'i', 'f']);
        assert(text@ =~= seq!['s', 'a', 'n', 's', '-', 's', 'e', 'r', 'i', 'f']);
        FontFamily { text }
    }

    pub fn as_str(&self) -> (s: &str)
        ensures
            s@ == self@,
    {
        self.text.as_str()
    }

    pub fn duplicate(&self) -> (r: FontFamily)
        ensures
            r@ == self@,
    {
        FontFamily { text: self.text.clone() }
    }
}

} // verus!

verus! {

use crate::units::Px;

/// Font family plus size.
#[derive(Debug, Clone, PartialEq, Eq)]
pub struct FontSpec {
    pub family: FontFamily,
    pub size: Px,
}

impl FontSpec {
    /// The default font: sans-serif at the default size.
    pub open spec fn is_default_font(&self) -> bool {
        &&& self.size == crate::defaults::default_font_size()
        &&& self.family@ == seq!['s', 'a', 'n', 's', '-', 's', 'e', 'r', 'i', 'f']
    }

    pub fn default_font() -> (f: FontSpec)
        ensures
            f.is_default_font(),
    {
        FontSpec { family: FontFamily::sans_serif(), size: crate::defaults::font_size() }
    }

    pub fn size(&self) -> (p: Px)
        ensures
            p == self.size,
    {
        self.size
    }

    pub fn family(&self) -> (f: &FontFamily)
        ensures
            *f == self.family,
    {
        &self.family
    }

    pub fn set_size(&mut self, size: Px)
        ensures
            final(self).size == size,
            final(self).family == old(self).family,
    {
        self.size = size;
    }

    pub fn set_family(&mut self, family: FontFamily)
        ensures
            final(self).family == family,
            final(self).size == old(self).size,
    {
        self.family = family;
    }

    pub fn duplicate(&self) -> (r: FontSpec)
        ensures
            r.family@ == self.family@,
            r.size == self.size,
    {
        FontSpec { family: self.family.duplicate(), size: self.size }
    }
}

} // verus!
