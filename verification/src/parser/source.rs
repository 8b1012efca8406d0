//! The TCML source as characters plus the spans of its lines.

use vstd::prelude::*;
use crate::chars::chars_of;
use crate::parser::state::spec_line_class;

verus! {

/// The line spans of `s[line_start..]`, scanning from `i`: a line ends at
/// `\n`; a last line without `\n` is kept unless it is empty.
pub open spec fn spec_lines_scan(s: Seq<char>, line_start: int, i: int) -> Seq<(int, int)>
    decreases s.len() - i,
{
    if i >= s.len() {
        if line_start < s.len() {
            seq![(line_start, s.len() as int)]
        } else {
            Seq::empty()
        }
    } else if s[i] == '\n' {
        seq![(line_start, i)] + spec_lines_scan(s, i + 1, i + 1)
    } else {
        spec_lines_scan(s, line_start, i + 1)
    }
}

/// Where line scanning starts: after a leading byte-order mark, if any.
pub open spec fn spec_content_start(s: Seq<char>) -> int {
    if s.len() > 0 && s[0] == '\u{FEFF}' { 1 } else { 0 }
}

pub open spec fn spec_spans(v: Seq<(usize, usize)>) -> Seq<(int, int)> {
    v.map_values(|p: (usize, usize)| (p.0 as int, p.1 as int))
}

proof fn lemma_lines_scan_bounds(s: Seq<char>, line_start: int, i: int)
    requires
        0 <= line_start <= i <= s.len(),
        forall|j: int| line_start <= j < i ==> s[j] != '\n',
    ensures
        forall|k: int| 0 <= k < spec_lines_scan(s, line_start, i).len() ==> {
            let p = #[trigger] spec_lines_scan(s, line_start, i)[k];
            &&& line_start <= p.0 <= p.1 <= s.len()
            &&& forall|j: int| p.0 <= j < p.1 ==> s[j] != '\n'
        },
    decreases s.len() - i,
{
    if i >= s.len() {
        if line_start < s.len() {
            assert(spec_lines_scan(s, line_start, i) =~= seq![(line_start, s.len() as int)]);
        } else {
            assert(spec_lines_scan(s, line_start, i) =~= Seq::<(int, int)>::empty());
        }
    } else if s[i] == '\n' {
        lemma_lines_scan_bounds(s, i + 1, i + 1);
        let stop = i;
        let rest = spec_lines_scan(s, i + 1, i + 1);
        assert forall|k: int| 0 <= k < spec_lines_scan(s, line_start, i).len() implies {
            let p = #[trigger] spec_lines_scan(s, line_start, i)[k];
            &&& line_start <= p.0 <= p.1 <= s.len()
            &&& forall|j: int| p.0 <= j < p.1 ==> s[j] != '\n'
        } by {
            if k > 0 {
                assert(spec_lines_scan(s, line_start, i)[k] == rest[k - 1]);
            } else {
                assert(spec_lines_scan(s, line_start, i)[k] == (line_start, stop));
            }
        }
    } else {
        lemma_lines_scan_bounds(s, line_start, i + 1);
        assert(spec_lines_scan(s, line_start, i) == spec_lines_scan(s, line_start, i + 1));
    }
}

/// `s` with every line feed written as carriage return plus line feed.
pub open spec fn spec_crlf(s: Seq<char>) -> Seq<char>
    decreases s.len(),
{
    if s.len() == 0 {
        Seq::empty()
    } else if s.last() == '\n' {
        spec_crlf(s.drop_last()) + seq!['\r', '\n']
    } else {
        spec_crlf(s.drop_last()).push(s.last())
    }
}

/// Whether `s[i]` stays in the text that is read: a carriage return just
/// before a line feed is dropped.
pub open spec fn spec_kept(s: Seq<char>, i: int) -> bool {
    !(s[i] == '\r' && i + 1 < s.len() && s[i + 1] == '\n')
}

/// The characters of `s[..k]` that stay in the text that is read.
pub open spec fn spec_canonical_upto(s: Seq<char>, k: int) -> Seq<char>
    decreases k,
{
    if k <= 0 {
        Seq::empty()
    } else if spec_kept(s, k - 1) {
        spec_canonical_upto(s, k - 1).push(s[k - 1])
    } else {
        spec_canonical_upto(s, k - 1)
    }
}

/// The text that is read: `s` with every carriage return that ends a line
/// (just before its line feed) dropped.
pub open spec fn spec_canonical(s: Seq<char>) -> Seq<char> {
    spec_canonical_upto(s, s.len() as int)
}

/// Where position `k` of `s` lands in `spec_crlf(s)`.
spec fn spec_crlf_at(s: Seq<char>, k: int) -> int {
    spec_crlf(s.subrange(0, k)).len() as int
}

proof fn lemma_crlf_prefix(s: Seq<char>, k: int)
    requires
        0 <= k <= s.len(),
    ensures
        spec_crlf_at(s, k) <= spec_crlf(s).len(),
        spec_crlf(s).subrange(0, spec_crlf_at(s, k)) == spec_crlf(s.subrange(0, k)),
    decreases s.len(),
{
    if k == s.len() {
        assert(s.subrange(0, k) =~= s);
    } else {
        let d = s.drop_last();
        assert(d.subrange(0, k) =~= s.subrange(0, k));
        lemma_crlf_prefix(d, k);
        assert(spec_crlf(s).subrange(0, spec_crlf_at(s, k)) =~= spec_crlf(d).subrange(0, spec_crlf_at(d, k)));
    }
}

proof fn lemma_crlf_char(s: Seq<char>, j: int)
    requires
        0 <= j < s.len(),
    ensures
        s[j] == '\n' ==> {
            &&& spec_crlf_at(s, j + 1) == spec_crlf_at(s, j) + 2
            &&& spec_crlf(s)[spec_crlf_at(s, j)] == '\r'
            &&& spec_crlf(s)[spec_crlf_at(s, j) + 1] == '\n'
        },
        s[j] != '\n' ==> {
            &&& spec_crlf_at(s, j + 1) == spec_crlf_at(s, j) + 1
            &&& spec_crlf(s)[spec_crlf_at(s, j)] == s[j]
        },
        spec_crlf_at(s, j + 1) <= spec_crlf(s).len(),
{
    let u = s.subrange(0, j + 1);
    assert(u.drop_last() =~= s.subrange(0, j));
    assert(u.last() == s[j]);
    lemma_crlf_prefix(s, j + 1);
    let t = spec_crlf(s);
    let g = spec_crlf_at(s, j);
    if s[j] == '\n' {
        assert(spec_crlf(u)[g] == t.subrange(0, g + 2)[g]);
        assert(spec_crlf(u)[g + 1] == t.subrange(0, g + 2)[g + 1]);
    } else {
        assert(spec_crlf(u)[g] == t.subrange(0, g + 1)[g]);
    }
}

proof fn lemma_canonical_of_crlf_upto(s: Seq<char>, k: int)
    requires
        0 <= k <= s.len(),
        forall|j: int| 0 <= j < s.len() ==> s[j] != '\r',
    ensures
        spec_canonical_upto(spec_crlf(s), spec_crlf_at(s, k)) == s.subrange(0, k),
    decreases k,
{
    let t = spec_crlf(s);
    if k == 0 {
        assert(s.subrange(0, 0) =~= Seq::<char>::empty());
        assert(spec_crlf(s.subrange(0, 0)) =~= Seq::<char>::empty());
    } else {
        lemma_canonical_of_crlf_upto(s, k - 1);
        lemma_crlf_char(s, k - 1);
        let g = spec_crlf_at(s, k - 1);
        assert(s.subrange(0, k) =~= s.subrange(0, k - 1).push(s[k - 1]));
        if s[k - 1] == '\n' {
            assert(!spec_kept(t, g));
            assert(spec_kept(t, g + 1));
            assert(spec_canonical_upto(t, g + 1) == spec_canonical_upto(t, g));
        } else {
            assert(spec_kept(t, g));
        }
    }
}

proof fn lemma_canonical_upto_plain(s: Seq<char>, k: int)
    requires
        0 <= k <= s.len(),
        forall|j: int| 0 <= j < s.len() ==> s[j] != '\r',
    ensures
        spec_canonical_upto(s, k) == s.subrange(0, k),
    decreases k,
{
    if k == 0 {
        assert(s.subrange(0, 0) =~= Seq::<char>::empty());
    } else {
        lemma_canonical_upto_plain(s, k - 1);
        assert(s.subrange(0, k) =~= s.subrange(0, k - 1).push(s[k - 1]));
    }
}

/// A text without carriage returns, and the same text with every line
/// feed written as carriage return plus line feed, are read as the same
/// text.
pub proof fn lemma_crlf_reads_as_lf(s: Seq<char>)
    requires
        forall|j: int| 0 <= j < s.len() ==> s[j] != '\r',
    ensures
        spec_canonical(spec_crlf(s)) == s,
        spec_canonical(s) == s,
{
    lemma_canonical_of_crlf_upto(s, s.len() as int);
    lemma_crlf_prefix(s, s.len() as int);
    assert(s.subrange(0, s.len() as int) =~= s);
    assert(spec_crlf_at(s, s.len() as int) == spec_crlf(s).len());
    lemma_canonical_upto_plain(s, s.len() as int);
}

/// The characters of the input and the spans of its lines.
pub struct Source {
    pub chars: Vec<char>,
    pub lines: Vec<(usize, usize)>,
}

impl Source {
    /// Every line span lies inside the text and holds no line feed.
    pub open spec fn wf(&self) -> bool {
        forall|k: int| 0 <= k < self.lines@.len() ==> {
            let p = #[trigger] self.lines@[k];
            &&& p.0 <= p.1 <= self.chars@.len()
            &&& forall|j: int| p.0 <= j < p.1 ==> self.chars@[j] != '\n'
        }
    }

    /// Every line is blank or holds a comment only.
    pub open spec fn all_blank(&self) -> bool {
        forall|k: int| 0 <= k < self.lines@.len() ==>
            spec_line_class(self.chars@, (#[trigger] self.lines@[k]).0 as int, self.lines@[k].1 as int) is Blank
    }

    /// The text that is read from `input` (see `spec_canonical`), split
    /// into lines after a leading byte-order mark.
    pub fn new(input: &str) -> (r: Source)
        ensures
            r.chars@ == spec_canonical(input@),
            spec_spans(r.lines@) == spec_lines_scan(
                spec_canonical(input@),
                spec_content_start(spec_canonical(input@)),
                spec_content_start(spec_canonical(input@)),
            ),
            r.wf(),
    {
        let raw = chars_of(input);
        let mut chars: Vec<char> = Vec::new();
        let mut k: usize = 0;
        while k < raw.len()
            invariant
                k <= raw@.len(),
                raw@ == input@,
                chars@ == spec_canonical_upto(raw@, k as int),
            decreases raw.len() - k,
        {
            if !(raw[k] == '\r' && k + 1 < raw.len() && raw[k + 1] == '\n') {
                chars.push(raw[k]);
            }
            k = k + 1;
        }
        let start: usize = if chars.len() > 0 && chars[0] == '\u{FEFF}' { 1 } else { 0 };
        let ghost s = chars@;
        let mut lines: Vec<(usize, usize)> = Vec::new();
        let mut line_start = start;
        let mut i = start;
        while i < chars.len()
            invariant
                s == chars@,
                start <= line_start <= i <= chars@.len(),
                spec_spans(lines@) + spec_lines_scan(s, line_start as int, i as int)
                    == spec_lines_scan(s, start as int, start as int),
            decreases chars.len() - i,
        {
            if chars[i] == '\n' {
                let stop = i;
                let ghost before = lines@;
                lines.push((line_start, stop));
                proof {
                    assert(spec_spans(lines@) =~= spec_spans(before).push((line_start as int, stop as int)));
                    assert(spec_spans(before) + spec_lines_scan(s, line_start as int, i as int)
                        =~= spec_spans(lines@) + spec_lines_scan(s, i + 1, i + 1));
                }
                line_start = i + 1;
            }
            i = i + 1;
        }
        if line_start < chars.len() {
            let ghost before = lines@;
            lines.push((line_start, chars.len()));
            assert(spec_spans(lines@) =~= spec_spans(before).push((line_start as int, chars@.len() as int)));
            assert(spec_spans(lines@) =~= spec_spans(before) + spec_lines_scan(s, line_start as int, i as int));
        } else {
            assert(spec_spans(lines@) =~= spec_spans(lines@) + spec_lines_scan(s, line_start as int, i as int));
        }
        let r = Source { chars, lines };
        proof {
            lemma_lines_scan_bounds(s, start as int, start as int);
            assert forall|k: int| 0 <= k < r.lines@.len() implies {
                let p = #[trigger] r.lines@[k];
                &&& p.0 <= p.1 <= r.chars@.len()
                &&& forall|j: int| p.0 <= j < p.1 ==> r.chars@[j] != '\n'
            } by {
                assert(spec_spans(r.lines@)[k] == spec_lines_scan(s, start as int, start as int)[k]);
            }
        }
        r
    }
}

} // verus!
