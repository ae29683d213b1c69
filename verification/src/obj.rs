//! Reading the lines of a mesh file: which lines give a vertex, and
//! where on such a line its three coordinates stand.

use vstd::prelude::*;

verus! {

/// Whether the byte is ASCII white space.
pub open spec fn is_space(b: u8) -> bool {
    b == 32 || (9 <= b && b <= 13)
}

/// A run of bytes of a line, from `start` up to but excluding `end`.
#[derive(Debug, Clone, Copy, PartialEq, Eq, Structural)]
pub struct Span {
    pub start: usize,
    pub end: usize,
}

/// What a line of a mesh file is.
#[derive(Debug, Clone, Copy, PartialEq, Eq, Structural)]
pub enum ObjLine {
    /// Not a vertex line: a comment, a face, a normal, an empty line.
    Other,
    /// A vertex line, with the places of its three coordinates.
    Vertex(Span, Span, Span),
    /// A vertex line with fewer than three coordinates.
    Malformed,
}

/// Whether the line holds nothing but white space from `from` up to `to`.
pub open spec fn all_space(line: Seq<u8>, from: int, to: int) -> bool {
    forall|i: int| from <= i < to ==> is_space(#[trigger] line[i])
}

/// Whether the span is a word that ends where the line or white space begins.
pub open spec fn is_word(line: Seq<u8>, s: Span) -> bool {
    &&& s.start < s.end <= line.len()
    &&& forall|i: int| s.start <= i < s.end ==> !is_space(#[trigger] line[i])
    &&& (s.end == line.len() || is_space(line[s.end as int]))
}

/// Whether the span is the first word of the line at or after `from`.
pub open spec fn is_next_word(line: Seq<u8>, from: int, s: Span) -> bool {
    from <= s.start && all_space(line, from, s.start as int) && is_word(line, s)
}

/// Whether the line begins with the letter `v` and a blank: the mark of a vertex.
pub open spec fn is_vertex_line(line: Seq<u8>) -> bool {
    line.len() >= 2 && line[0] == 118 && line[1] == 32
}

/// Whether the three spans are the first three words after the mark.
pub open spec fn are_fields(line: Seq<u8>, x: Span, y: Span, z: Span) -> bool {
    is_next_word(line, 1, x) && is_next_word(line, x.end as int, y) && is_next_word(
        line,
        y.end as int,
        z,
    )
}

/// From one place on, a line has at most one first word.
pub proof fn lemma_next_word_unique(line: Seq<u8>, from: int, s: Span, t: Span)
    requires
        is_next_word(line, from, s),
        is_next_word(line, from, t),
    ensures
        s == t,
{
    if s.start < t.start {
        assert(is_space(line[s.start as int]));
    } else if t.start < s.start {
        assert(is_space(line[t.start as int]));
    } else if s.end < t.end {
        assert(!is_space(line[s.end as int]));
    } else if t.end < s.end {
        assert(!is_space(line[t.end as int]));
    }
}

fn space(b: u8) -> (r: bool)
    ensures
        r == is_space(b),
{
    b == 32 || (9 <= b && b <= 13)
}

/// The first word at or after `from`, if the rest of the line is not blank.
fn next_word(line: &[u8], from: usize) -> (r: Option<Span>)
    requires
        from <= line@.len(),
    ensures
        match r {
            Some(s) => is_next_word(line@, from as int, s),
            None => all_space(line@, from as int, line@.len() as int),
        },
{
    let n: usize = line.len();
    let mut start: usize = from;
    while start < n && space(line[start])
        invariant
            from <= start <= n,
            n == line@.len(),
            all_space(line@, from as int, start as int),
        decreases n - start,
    {
        start = start + 1;
    }
    if start == n {
        return None;
    }
    let mut end: usize = start + 1;
    while end < n && !space(line[end])
        invariant
            start < end <= n,
            n == line@.len(),
            forall|i: int| start <= i < end ==> !is_space(#[trigger] line@[i]),
        decreases n - end,
    {
        end = end + 1;
    }
    Some(Span { start, end })
}

/// Tells what a line is. A line is a vertex line when it begins with `v`
/// and a blank; its coordinates are the first three words after that, and
/// whatever follows them is ignored. White space is ASCII white space.
pub fn classify_line(line: &[u8]) -> (r: ObjLine)
    ensures
        r is Other <==> !is_vertex_line(line@),
        r matches ObjLine::Vertex(x, y, z) ==> are_fields(line@, x, y, z),
        r is Malformed ==> forall|x: Span, y: Span, z: Span| !are_fields(line@, x, y, z),
{
    if line.len() < 2 || line[0] != 118 || line[1] != 32 {
        return ObjLine::Other;
    }
    let x: Span = match next_word(line, 1) {
        Some(s) => s,
        None => {
            assert forall|x: Span, y: Span, z: Span| !are_fields(line@, x, y, z) by {
                if are_fields(line@, x, y, z) {
                    assert(is_space(line@[x.start as int]));
                }
            }
            return ObjLine::Malformed;
        },
    };
    let y: Span = match next_word(line, x.end) {
        Some(s) => s,
        None => {
            assert forall|x2: Span, y2: Span, z2: Span| !are_fields(line@, x2, y2, z2) by {
                if are_fields(line@, x2, y2, z2) {
                    lemma_next_word_unique(line@, 1, x, x2);
                    assert(is_space(line@[y2.start as int]));
                }
            }
            return ObjLine::Malformed;
        },
    };
    let z: Span = match next_word(line, y.end) {
        Some(s) => s,
        None => {
            assert forall|x2: Span, y2: Span, z2: Span| !are_fields(line@, x2, y2, z2) by {
                if are_fields(line@, x2, y2, z2) {
                    lemma_next_word_unique(line@, 1, x, x2);
                    lemma_next_word_unique(line@, x.end as int, y, y2);
                    assert(is_space(line@[z2.start as int]));
                }
            }
            return ObjLine::Malformed;
        },
    };
    ObjLine::Vertex(x, y, z)
}

} // verus!
